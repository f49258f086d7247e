//! Byte layout of the renderer's output image format.
//!
//! The renderer hands its caller a flat row-major RGB buffer; the only wire
//! format the core knows is the binary PPM frame around that buffer: the
//! magic `P6`, the two dimensions in decimal, the maximum channel value
//! `255`, and the pixel bytes unchanged.

use vstd::prelude::*;

verus! {

/// The decimal digits of `n`, most significant first, as ASCII bytes.
pub open spec fn spec_decimal(n: nat) -> Seq<u8>
    decreases n,
{
    if n < 10 {
        seq![(0x30 + n) as u8]
    } else {
        spec_decimal(n / 10).push((0x30 + n % 10) as u8)
    }
}

/// Renders `n` in decimal ASCII, most significant digit first.
pub fn u32_to_decimal(n: u32) -> (r: Vec<u8>)
    ensures
        r@ == spec_decimal(n as nat),
    decreases n,
{
    if n < 10 {
        let mut v: Vec<u8> = Vec::new();
        v.push(0x30 + n as u8);
        proof {
            assert(v@ =~= spec_decimal(n as nat));
        }
        v
    } else {
        let mut v = u32_to_decimal(n / 10);
        v.push(0x30 + (n % 10) as u8);
        proof {
            assert(v@ =~= spec_decimal(n as nat));
        }
        v
    }
}

/// The header of a binary PPM image: `P6\n<width> <height>\n255\n`.
pub open spec fn spec_ppm_header(width: nat, height: nat) -> Seq<u8> {
    seq![0x50u8, 0x36u8, 0x0au8]  // "P6\n"
        + spec_decimal(width) + seq![0x20u8]  // "<width> "
        + spec_decimal(height)
        + seq![0x0au8, 0x32u8, 0x35u8, 0x35u8, 0x0au8]  // "\n255\n"
}

/// Frames a row-major RGB pixel buffer as a complete binary PPM image:
/// the header for the given dimensions followed by the bytes unchanged.
pub fn ppm_bytes(width: u32, height: u32, pixels: &Vec<u8>) -> (r: Vec<u8>)
    ensures
        r@ == spec_ppm_header(width as nat, height as nat) + pixels@,
{
    let mut out: Vec<u8> = Vec::new();
    out.push(0x50);
    out.push(0x36);
    out.push(0x0a);
    let mut w_digits = u32_to_decimal(width);
    out.append(&mut w_digits);
    out.push(0x20);
    let mut h_digits = u32_to_decimal(height);
    out.append(&mut h_digits);
    out.push(0x0a);
    out.push(0x32);
    out.push(0x35);
    out.push(0x35);
    out.push(0x0a);
    proof {
        assert(out@ =~= spec_ppm_header(width as nat, height as nat));
    }
    let mut i: usize = 0;
    while i < pixels.len()
        invariant
            i <= pixels@.len(),
            out@ == spec_ppm_header(width as nat, height as nat) + pixels@.take(i as int),
        decreases pixels@.len() - i,
    {
        out.push(pixels[i]);
        i = i + 1;
        proof {
            assert(spec_ppm_header(width as nat, height as nat) + pixels@.take(i as int)
                =~= (spec_ppm_header(width as nat, height as nat)
                    + pixels@.take(i - 1)).push(pixels@[i - 1]));
        }
    }
    proof {
        assert(pixels@.take(pixels@.len() as int) =~= pixels@);
    }
    out
}

} // verus!
