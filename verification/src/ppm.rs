//! The raster image text format.
//!
//! A rendered image is serialized as plain text: a magic line `P3`, a
//! line with the width and height, a line with the largest channel
//! value `255`, then one line per pixel in row-major order carrying the
//! red, green and blue levels as decimal numerals.

use vstd::prelude::*;

use crate::numerals::{dec_digits, push_decimal};

verus! {

/// One pixel of the output image: red, green and blue levels in 0..=255.
#[derive(Clone, Copy, Debug, PartialEq, Eq, Structural)]
pub struct Rgb {
    pub r: u8,
    pub g: u8,
    pub b: u8,
}

/// The line of one pixel: its three channel numerals separated by
/// spaces, closed by a line feed.
pub open spec fn triplet_line(c: Rgb) -> Seq<u8> {
    dec_digits(c.r as nat) + seq![0x20u8] + dec_digits(c.g as nat) + seq![0x20u8] + dec_digits(
        c.b as nat,
    ) + seq![0x0au8]
}

pub open spec fn ppm_body(pixels: Seq<Rgb>) -> Seq<u8>
    decreases pixels.len(),
{
    if pixels.len() == 0 {
        Seq::empty()
    } else {
        ppm_body(pixels.drop_last()) + triplet_line(pixels.last())
    }
}

/// The image header: the magic line `P3`, the image extent, and the
/// largest channel value.
pub open spec fn ppm_header(width: nat, height: nat) -> Seq<u8> {
    seq![0x50u8, 0x33u8, 0x0au8] + dec_digits(width) + seq![0x20u8] + dec_digits(height) + seq![
        0x0au8,
        0x32u8,
        0x35u8,
        0x35u8,
        0x0au8,
    ]
}

/// The whole serialized image.
pub open spec fn ppm_encoding(width: nat, height: nat, pixels: Seq<Rgb>) -> Seq<u8> {
    ppm_header(width, height) + ppm_body(pixels)
}

/// Appends one pixel's channel triplet line.
pub fn push_triplet_line(c: Rgb, out: &mut Vec<u8>)
    ensures
        final(out)@ == old(out)@ + triplet_line(c),
{
    let ghost prev = out@;
    push_decimal(c.r as u64, out);
    out.push(0x20);
    push_decimal(c.g as u64, out);
    out.push(0x20);
    push_decimal(c.b as u64, out);
    out.push(0x0a);
    proof {
        assert(out@ =~= prev + triplet_line(c));
    }
}

/// Serializes a rendered framebuffer of `width * height` pixels, given
/// row-major, into the text of its image file.
#[verifier::loop_isolation(false)]
pub fn encode_ppm(width: usize, height: usize, pixels: &Vec<Rgb>) -> (out: Vec<u8>)
    requires
        pixels@.len() == width * height,
    ensures
        out@ == ppm_encoding(width as nat, height as nat, pixels@),
{
    let mut out: Vec<u8> = Vec::new();
    out.push(0x50);
    out.push(0x33);
    out.push(0x0a);
    push_decimal(width as u64, &mut out);
    out.push(0x20);
    push_decimal(height as u64, &mut out);
    out.push(0x0a);
    out.push(0x32);
    out.push(0x35);
    out.push(0x35);
    out.push(0x0a);
    proof {
        assert(out@ =~= ppm_header(width as nat, height as nat));
        assert(pixels@.take(0) =~= Seq::<Rgb>::empty());
        assert(out@ =~= ppm_header(width as nat, height as nat) + ppm_body(pixels@.take(0)));
    }
    let mut i: usize = 0;
    while i < pixels.len()
        invariant
            i <= pixels@.len(),
            out@ == ppm_header(width as nat, height as nat) + ppm_body(pixels@.take(i as int)),
        decreases pixels@.len() - i,
    {
        push_triplet_line(pixels[i], &mut out);
        proof {
            assert(pixels@.take(i + 1).drop_last() =~= pixels@.take(i as int));
            assert(pixels@.take(i + 1).last() == pixels@[i as int]);
            assert(out@ =~= ppm_header(width as nat, height as nat) + ppm_body(
                pixels@.take(i + 1),
            ));
        }
        i = i + 1;
    }
    proof {
        assert(pixels@.take(i as int) =~= pixels@);
    }
    out
}

} // verus!
