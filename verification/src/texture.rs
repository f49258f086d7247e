//! The texture pixel buffer behind a textured material.
//!
//! Decoding an image file into raw RGB bytes is the texture provider's job;
//! this module owns the shape of the decoded buffer — three bytes per
//! texel, row major — and the exact indexing a sample performs.  Mapping a
//! surface coordinate in [0,1) to a texel column and row is floating-point
//! work and stays with the caller.

use vstd::prelude::*;

verus! {

/// A row-major RGB texel buffer of `width * height` texels.
#[derive(Debug, Clone)]
pub struct Texture {
    pub width: usize,
    pub height: usize,
    pub pixel_bytes: Vec<u8>,
}

/// Position of the first byte of texel `(x, y)` in a row-major RGB buffer
/// `width` texels wide.
pub open spec fn spec_texel_index(width: nat, x: nat, y: nat) -> nat {
    3 * (y * width + x)
}

impl Texture {
    /// The buffer holds exactly three bytes for each of the
    /// `width * height` texels.
    pub open spec fn wf(&self) -> bool {
        self.pixel_bytes@.len() == 3 * (self.width * self.height)
    }

    /// The raw bytes of the buffer, row major, three per texel.
    pub open spec fn spec_bytes(&self) -> Seq<u8> {
        self.pixel_bytes@
    }

    /// Wraps a decoded RGB byte buffer.  Succeeds exactly when the buffer
    /// length matches the claimed dimensions; a mismatched texture is a
    /// fatal load-time error for the caller, never a shading-time one.
    pub fn new(width: usize, height: usize, bytes: Vec<u8>) -> (r: Option<Texture>)
        ensures
            match r {
                Some(t) => {
                    &&& t.wf()
                    &&& t.width == width
                    &&& t.height == height
                    &&& t.spec_bytes() == bytes@
                    &&& bytes@.len() == 3 * (width * height)
                },
                None => bytes@.len() != 3 * (width * height),
            },
    {
        let n = bytes.len();
        proof {
            assert(width * height >= 0 && (width * height) * 3 == 3 * (width * height))
                by (nonlinear_arith);
        }
        match width.checked_mul(height) {
            None => None,
            Some(texels) => match texels.checked_mul(3) {
                None => None,
                Some(expected) => {
                    if expected == n {
                        Some(Texture { width, height, pixel_bytes: bytes })
                    } else {
                        None
                    }
                },
            },
        }
    }

    /// Nearest-sample lookup: the three channel bytes of texel `(x, y)`.
    pub fn texel(&self, x: usize, y: usize) -> (rgb: (u8, u8, u8))
        requires
            self.wf(),
            x < self.width,
            y < self.height,
        ensures
            ({
                let base = spec_texel_index(self.width as nat, x as nat, y as nat) as int;
                &&& rgb.0 == self.spec_bytes()[base]
                &&& rgb.1 == self.spec_bytes()[base + 1]
                &&& rgb.2 == self.spec_bytes()[base + 2]
            }),
    {
        let n = self.pixel_bytes.len();
        proof {
            assert(y * self.width + x < self.width * self.height) by (nonlinear_arith)
                requires
                    x < self.width,
                    y < self.height,
            ;
            assert(3 * (y * self.width + x) + 2 < n);
        }
        let base = 3 * (y * self.width + x);
        (self.pixel_bytes[base], self.pixel_bytes[base + 1], self.pixel_bytes[base + 2])
    }
}

} // verus!
