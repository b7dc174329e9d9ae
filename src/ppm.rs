use vstd::prelude::*;

use crate::image::{lemma_pixel_index_bounds, Image};

verus! {

/// An 8-bit-per-channel color, as written into a PPM file.
#[derive(Clone, Copy, Debug, PartialEq, Eq, Structural)]
pub struct Rgb8 {
    pub r: u8,
    pub g: u8,
    pub b: u8,
}

pub const SPACE: u8 = 32;

pub const NEWLINE: u8 = 10;

/// The ASCII code of the decimal digit `d`.
pub open spec fn digit_char(d: nat) -> u8 {
    (48 + d) as u8
}

/// The decimal spelling of `n` in ASCII, without leading zeros.
pub open spec fn decimal(n: nat) -> Seq<u8>
    decreases n,
{
    if n < 10 {
        seq![digit_char(n)]
    } else {
        decimal(n / 10).push(digit_char(n % 10))
    }
}

/// The line of one pixel: its three channels in decimal, space separated.
pub open spec fn pixel_line(p: Rgb8) -> Seq<u8> {
    decimal(p.r as nat) + seq![SPACE] + decimal(p.g as nat) + seq![SPACE] + decimal(p.b as nat)
        + seq![NEWLINE]
}

/// The lines of a run of pixels, one after another.
pub open spec fn pixel_lines(ps: Seq<Rgb8>) -> Seq<u8>
    decreases ps.len(),
{
    if ps.len() == 0 {
        seq![]
    } else {
        pixel_lines(ps.drop_last()) + pixel_line(ps.last())
    }
}

/// The plain-text PPM header: magic `P3`, the dimensions, and the channel
/// maximum 255, each on its own line.
pub open spec fn ppm_header(width: nat, height: nat) -> Seq<u8> {
    seq![80u8, 51u8, NEWLINE] + decimal(width) + seq![SPACE] + decimal(height) + seq![NEWLINE]
        + seq![50u8, 53u8, 53u8, NEWLINE]
}

/// A whole plain-text PPM file for pixels given row by row from the top.
pub open spec fn ppm_text(width: nat, height: nat, ps: Seq<Rgb8>) -> Seq<u8> {
    ppm_header(width, height) + pixel_lines(ps)
}

/// Appends the decimal spelling of `n`.
pub fn push_decimal(out: &mut Vec<u8>, n: u32)
    ensures
        final(out)@ == old(out)@ + decimal(n as nat),
    decreases n,
{
    if n >= 10 {
        push_decimal(out, n / 10);
    }
    out.push(48 + (n % 10) as u8);
    assert(out@ =~= old(out)@ + decimal(n as nat));
}

/// Appends the line of one pixel.
fn push_pixel_line(out: &mut Vec<u8>, p: Rgb8)
    ensures
        final(out)@ == old(out)@ + pixel_line(p),
{
    push_decimal(out, p.r as u32);
    out.push(SPACE);
    push_decimal(out, p.g as u32);
    out.push(SPACE);
    push_decimal(out, p.b as u32);
    out.push(NEWLINE);
    assert(out@ =~= old(out)@ + pixel_line(p));
}

/// The image as a plain-text PPM file: the header, then one line per pixel,
/// rows from the top and pixels from the left.
pub fn encode_ppm(image: &Image<Rgb8>) -> (r: Vec<u8>)
    requires
        image.wf(),
    ensures
        r@ == ppm_text(image.spec_width(), image.spec_height(), image@),
{
    let width = image.width();
    let height = image.height();
    let mut out: Vec<u8> = Vec::new();
    out.push(80);
    out.push(51);
    out.push(NEWLINE);
    push_decimal(&mut out, width);
    out.push(SPACE);
    push_decimal(&mut out, height);
    out.push(NEWLINE);
    out.push(50);
    out.push(53);
    out.push(53);
    out.push(NEWLINE);
    let ghost header = out@;
    assert(header =~= ppm_header(width as nat, height as nat));
    assert(image@.take(0) =~= Seq::<Rgb8>::empty());
    let mut y: u32 = 0;
    while y < height
        invariant
            image.wf(),
            width == image.spec_width(),
            height == image.spec_height(),
            y <= height,
            out@ == header + pixel_lines(image@.take(y as int * width as int)),
        decreases height - y,
    {
        let mut x: u32 = 0;
        while x < width
            invariant
                image.wf(),
                width == image.spec_width(),
                height == image.spec_height(),
                y < height,
                x <= width,
                out@ == header + pixel_lines(image@.take(y as int * width as int + x as int)),
            decreases width - x,
        {
            let ghost k = y as int * width as int + x as int;
            proof {
                lemma_pixel_index_bounds(width as int, height as int, x as int, y as int);
            }
            let p = image.get_pixel(x as usize, y as usize).unwrap();
            push_pixel_line(&mut out, p);
            proof {
                assert(image@.take(k + 1).drop_last() =~= image@.take(k));
                assert(out@ =~= header + pixel_lines(image@.take(k + 1)));
            }
            x += 1;
        }
        proof {
            assert(y as int * width as int + width as int == (y + 1) as int * width as int)
                by (nonlinear_arith);
        }
        y += 1;
    }
    proof {
        assert(image@.take(height as int * width as int) =~= image@);
    }
    out
}

} // verus!
