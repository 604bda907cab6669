use vstd::prelude::*;

use crate::decimal::{decimal, lemma_decimal_is_digits, push_decimal};
use crate::raster::ImageSize;

verus! {

/// ASCII `P`, the first byte of a PPM header.
pub const MAGIC: u8 = 80;

/// The format number after the magic `P`: plain-text colour.
pub const PLAIN_FORMAT: u32 = 3;

/// The largest channel value.
pub const MAX_CHANNEL: u32 = 255;

/// ASCII space, between the numbers of a line.
pub const SPACE: u8 = 32;

/// ASCII line feed, at the end of each line.
pub const NEWLINE: u8 = 10;

/// One output pixel: three 8-bit channels, each already gamma corrected,
/// clamped and quantized.
#[derive(Clone, Copy, Debug, PartialEq, Eq, Structural)]
pub struct Rgb8 {
    pub r: u8,
    pub g: u8,
    pub b: u8,
}

/// The header of a plain-text PPM image: the magic `P3`, then the width and
/// height, then the largest channel value 255, each on its own line.
pub open spec fn header_text(width: nat, height: nat) -> Seq<u8> {
    seq![MAGIC] + decimal(PLAIN_FORMAT as nat) + seq![NEWLINE] + decimal(width) + seq![SPACE]
        + decimal(height) + seq![NEWLINE] + decimal(MAX_CHANNEL as nat) + seq![NEWLINE]
}

/// The line of one pixel: its three channels in decimal, separated by spaces.
pub open spec fn pixel_text(c: Rgb8) -> Seq<u8> {
    decimal(c.r as nat) + seq![SPACE] + decimal(c.g as nat) + seq![SPACE] + decimal(c.b as nat)
        + seq![NEWLINE]
}

/// The lines of a run of pixels, in order.
pub open spec fn pixels_text(ps: Seq<Rgb8>) -> Seq<u8>
    decreases ps.len(),
{
    if ps.len() == 0 {
        Seq::empty()
    } else {
        pixels_text(ps.drop_last()) + pixel_text(ps.last())
    }
}

/// A whole image stream: the header, then one line per pixel in raster order.
pub open spec fn ppm_text(width: nat, height: nat, ps: Seq<Rgb8>) -> Seq<u8> {
    header_text(width, height) + pixels_text(ps)
}

/// Appends the header of a `width` by `height` image to `out`.
pub fn push_header(out: &mut Vec<u8>, width: u32, height: u32)
    ensures
        final(out)@ == old(out)@ + header_text(width as nat, height as nat),
{
    out.push(MAGIC);
    push_decimal(out, PLAIN_FORMAT);
    out.push(NEWLINE);
    push_decimal(out, width);
    out.push(SPACE);
    push_decimal(out, height);
    out.push(NEWLINE);
    push_decimal(out, MAX_CHANNEL);
    out.push(NEWLINE);
    assert(out@ =~= old(out)@ + header_text(width as nat, height as nat));
}

/// Appends the line of the pixel `c` to `out`.
pub fn push_pixel(out: &mut Vec<u8>, c: Rgb8)
    ensures
        final(out)@ == old(out)@ + pixel_text(c),
{
    push_decimal(out, c.r as u32);
    out.push(SPACE);
    push_decimal(out, c.g as u32);
    out.push(SPACE);
    push_decimal(out, c.b as u32);
    out.push(NEWLINE);
    assert(out@ =~= old(out)@ + pixel_text(c));
}

/// The PPM stream of an image of grid `size` whose pixels, in raster order
/// (row by row from the top, each row from the left), are `pixels`; `None`
/// when the number of pixels is not that of the grid.
pub fn encode_image(size: ImageSize, pixels: &Vec<Rgb8>) -> (r: Option<Vec<u8>>)
    ensures
        r.is_some() <==> pixels@.len() == size.width * size.height,
        r matches Some(bytes) ==> bytes@ == ppm_text(size.width as nat, size.height as nat, pixels@),
{
    if pixels.len() as u64 != size.pixel_count() {
        return None;
    }
    let mut out: Vec<u8> = Vec::new();
    push_header(&mut out, size.width, size.height);
    let ghost head = out@;
    let mut k: usize = 0;
    while k < pixels.len()
        invariant
            k <= pixels@.len(),
            head == header_text(size.width as nat, size.height as nat),
            out@ == head + pixels_text(pixels@.subrange(0, k as int)),
        decreases pixels@.len() - k,
    {
        push_pixel(&mut out, pixels[k]);
        proof {
            let done = pixels@.subrange(0, k as int + 1);
            assert(done.drop_last() =~= pixels@.subrange(0, k as int));
            assert(out@ =~= head + pixels_text(done));
        }
        k = k + 1;
    }
    assert(pixels@.subrange(0, k as int) =~= pixels@);
    Some(out)
}

/// The number of line feeds in `s`.
pub open spec fn line_count(s: Seq<u8>) -> nat
    decreases s.len(),
{
    if s.len() == 0 {
        0
    } else {
        line_count(s.drop_last()) + if s.last() == NEWLINE {
            1nat
        } else {
            0nat
        }
    }
}

proof fn lemma_line_count_concat(a: Seq<u8>, b: Seq<u8>)
    ensures
        line_count(a + b) == line_count(a) + line_count(b),
    decreases b.len(),
{
    if b.len() == 0 {
        assert(a + b =~= a);
    } else {
        assert((a + b).drop_last() =~= a + b.drop_last());
        lemma_line_count_concat(a, b.drop_last());
    }
}

proof fn lemma_no_line_feed(s: Seq<u8>)
    requires
        forall|k: int| 0 <= k < s.len() ==> s[k] != NEWLINE,
    ensures
        line_count(s) == 0,
    decreases s.len(),
{
    if s.len() > 0 {
        lemma_no_line_feed(s.drop_last());
    }
}

proof fn lemma_decimal_lines(n: nat)
    ensures
        line_count(decimal(n)) == 0,
{
    lemma_decimal_is_digits(n);
    lemma_no_line_feed(decimal(n));
}

proof fn lemma_one_byte_lines(b: u8)
    ensures
        line_count(seq![b]) == if b == NEWLINE {
            1nat
        } else {
            0nat
        },
{
    assert(seq![b].drop_last() =~= Seq::<u8>::empty());
    assert(line_count(Seq::<u8>::empty()) == 0);
    assert(seq![b].last() == b);
}

proof fn lemma_pixel_lines(c: Rgb8)
    ensures
        line_count(pixel_text(c)) == 1,
{
    lemma_decimal_lines(c.r as nat);
    lemma_decimal_lines(c.g as nat);
    lemma_decimal_lines(c.b as nat);
    lemma_one_byte_lines(SPACE);
    lemma_one_byte_lines(NEWLINE);
    let a = decimal(c.r as nat) + seq![SPACE];
    let b = a + decimal(c.g as nat);
    let d = b + seq![SPACE];
    let e = d + decimal(c.b as nat);
    lemma_line_count_concat(decimal(c.r as nat), seq![SPACE]);
    lemma_line_count_concat(a, decimal(c.g as nat));
    lemma_line_count_concat(b, seq![SPACE]);
    lemma_line_count_concat(d, decimal(c.b as nat));
    lemma_line_count_concat(e, seq![NEWLINE]);
}

proof fn lemma_pixels_lines(ps: Seq<Rgb8>)
    ensures
        line_count(pixels_text(ps)) == ps.len(),
    decreases ps.len(),
{
    if ps.len() > 0 {
        lemma_pixels_lines(ps.drop_last());
        lemma_pixel_lines(ps.last());
        lemma_line_count_concat(pixels_text(ps.drop_last()), pixel_text(ps.last()));
    }
}

proof fn lemma_header_lines(width: nat, height: nat)
    ensures
        line_count(header_text(width, height)) == 3,
{
    lemma_one_byte_lines(MAGIC);
    lemma_one_byte_lines(SPACE);
    lemma_one_byte_lines(NEWLINE);
    lemma_decimal_lines(PLAIN_FORMAT as nat);
    lemma_decimal_lines(width);
    lemma_decimal_lines(height);
    lemma_decimal_lines(MAX_CHANNEL as nat);
    let s1 = seq![MAGIC] + decimal(PLAIN_FORMAT as nat);
    let s2 = s1 + seq![NEWLINE];
    let s3 = s2 + decimal(width);
    let s4 = s3 + seq![SPACE];
    let s5 = s4 + decimal(height);
    let s6 = s5 + seq![NEWLINE];
    let s7 = s6 + decimal(MAX_CHANNEL as nat);
    lemma_line_count_concat(seq![MAGIC], decimal(PLAIN_FORMAT as nat));
    lemma_line_count_concat(s1, seq![NEWLINE]);
    lemma_line_count_concat(s2, decimal(width));
    lemma_line_count_concat(s3, seq![SPACE]);
    lemma_line_count_concat(s4, decimal(height));
    lemma_line_count_concat(s5, seq![NEWLINE]);
    lemma_line_count_concat(s6, decimal(MAX_CHANNEL as nat));
    lemma_line_count_concat(s7, seq![NEWLINE]);
}

/// The stream of a `width` by `height` image opens with its header and holds
/// exactly `3 + width * height` lines: three of header, one per pixel.
pub proof fn lemma_stream_shape(width: nat, height: nat, ps: Seq<Rgb8>)
    requires
        ps.len() == width * height,
    ensures
        ppm_text(width, height, ps).subrange(0, header_text(width, height).len() as int)
            == header_text(width, height),
        line_count(ppm_text(width, height, ps)) == 3 + width * height,
{
    let head = header_text(width, height);
    assert(ppm_text(width, height, ps).subrange(0, head.len() as int) =~= head);
    lemma_header_lines(width, height);
    lemma_pixels_lines(ps);
    lemma_line_count_concat(head, pixels_text(ps));
}

} // verus!
