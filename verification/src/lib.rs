//! Discrete core of a recursive ray-tracing renderer.
//!
//! The renderer's numeric work — vector algebra, ray/primitive
//! intersection, Phong shading — runs on floating point and lives with the
//! surrounding program.  This crate holds the parts of the pipeline that are
//! exact: the mesh text format, the output image byte layout, the texture
//! pixel buffer, and the recursion bound of the light-transport loop.

pub mod mesh_format;
pub mod ppm;
pub mod render;
pub mod texture;
