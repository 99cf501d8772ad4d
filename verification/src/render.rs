//! Mapping pixels to palette glyphs by luminance, and rendering a raster as
//! text, one glyph per pixel, one line per row.
//!
//! Luminance is the weighted sum `(2126*R + 7152*G + 722*B) / 2550000`,
//! a scalar in `[0, 1]`; the same definition serves both color modes. The
//! palette index is that scalar times the palette length, rounded half away
//! from zero and clamped to the palette, computed exactly in integers.

use vstd::prelude::*;

use crate::raster::Pixel;

verus! {

/// Numerator of the luminance of `p` over the fixed denominator 2550000.
pub open spec fn luma_numer(p: Pixel) -> int {
    2126 * p.r + 7152 * p.g + 722 * p.b
}

/// The palette index chosen for pixel `p` in a palette of length `plen`:
/// `round(luma * plen)`, half away from zero, clamped to `plen - 1`.
pub open spec fn glyph_index(p: Pixel, plen: int) -> int
    recommends
        plen >= 1,
{
    let q = (2 * luma_numer(p) * plen + 2550000) / 5100000;
    if q < plen {
        q
    } else {
        plen - 1
    }
}

/// The glyph that the palette assigns to pixel `p`.
pub open spec fn glyph_of(p: Pixel, palette: Seq<char>) -> char
    recommends
        palette.len() >= 1,
{
    palette[glyph_index(p, palette.len() as int)]
}

/// The chosen index is always inside the palette.
pub proof fn lemma_glyph_index_in_range(p: Pixel, plen: int)
    requires
        plen >= 1,
    ensures
        0 <= glyph_index(p, plen) < plen,
{
    assert(0 <= (2 * luma_numer(p) * plen + 2550000) / 5100000) by (nonlinear_arith)
        requires plen >= 1, 0 <= luma_numer(p);
}

/// Computes `glyph_index` exactly.
pub fn glyph_index_exec(p: Pixel, plen: usize) -> (i: usize)
    requires
        plen >= 1,
    ensures
        i == glyph_index(p, plen as int),
        i < plen,
{
    proof {
        lemma_glyph_index_in_range(p, plen as int);
    }
    let numer: u64 = 2126 * (p.r as u64) + 7152 * (p.g as u64) + 722 * (p.b as u64);
    proof {
        assert(2 * (numer as int) * (plen as int) <= 5100000 * 0xffff_ffff_ffff_ffff)
            by (nonlinear_arith)
            requires 0 <= (numer as int) <= 2550000, 0 <= (plen as int) <= 0xffff_ffff_ffff_ffff;
    }
    let q: u128 = (2 * (numer as u128) * (plen as u128) + 2550000) / 5100000;
    if q < plen as u128 {
        q as usize
    } else {
        plen - 1
    }
}

/// The decimal digit `d` as a character.
pub open spec fn digit_char(d: int) -> char {
    if d == 0 { '0' }
    else if d == 1 { '1' }
    else if d == 2 { '2' }
    else if d == 3 { '3' }
    else if d == 4 { '4' }
    else if d == 5 { '5' }
    else if d == 6 { '6' }
    else if d == 7 { '7' }
    else if d == 8 { '8' }
    else { '9' }
}

/// The decimal numeral of `v`, 0 to 255, with no leading zeros.
pub open spec fn dec_u8(v: int) -> Seq<char>
    recommends
        0 <= v < 256,
{
    if v < 10 {
        seq![digit_char(v)]
    } else if v < 100 {
        seq![digit_char(v / 10), digit_char(v % 10)]
    } else {
        seq![digit_char(v / 100), digit_char((v / 10) % 10), digit_char(v % 10)]
    }
}

/// The truecolor prefix `ESC [38;2;<r>;<g>;<b>m` for pixel `p`.
pub open spec fn sgr_prefix(p: Pixel) -> Seq<char> {
    seq!['\u{1b}', '[', '3', '8', ';', '2', ';'] + dec_u8(p.r as int) + seq![';']
        + dec_u8(p.g as int) + seq![';'] + dec_u8(p.b as int) + seq!['m']
}

/// The reset sequence `ESC [0m`.
pub open spec fn sgr_reset() -> Seq<char> {
    seq!['\u{1b}', '[', '0', 'm']
}

/// The characters emitted for one pixel: the glyph alone in mono mode, the
/// glyph wrapped in its truecolor escape in colored mode.
pub open spec fn cell_chars(p: Pixel, palette: Seq<char>, colored: bool) -> Seq<char>
    recommends
        palette.len() >= 1,
{
    if colored {
        sgr_prefix(p) + seq![glyph_of(p, palette)] + sgr_reset()
    } else {
        seq![glyph_of(p, palette)]
    }
}

/// The text rendered for the first `n` pixels of a raster `width` pixels
/// wide: cells in row-major order, a newline after every `width`-th cell.
pub open spec fn render_upto(
    pixels: Seq<Pixel>,
    width: int,
    palette: Seq<char>,
    colored: bool,
    n: int,
) -> Seq<char>
    recommends
        width >= 1,
        palette.len() >= 1,
        n <= pixels.len(),
    decreases n,
{
    if n <= 0 {
        Seq::empty()
    } else {
        render_upto(pixels, width, palette, colored, n - 1)
            + cell_chars(pixels[n - 1], palette, colored)
            + if n % width == 0 { seq!['\n'] } else { Seq::empty() }
    }
}

/// The full rendered text of a raster given as its row-major pixel sequence.
pub open spec fn render_spec(
    pixels: Seq<Pixel>,
    width: int,
    palette: Seq<char>,
    colored: bool,
) -> Seq<char> {
    render_upto(pixels, width, palette, colored, pixels.len() as int)
}

/// Appends the character of decimal digit `d`.
fn push_digit(out: &mut Vec<char>, d: u8)
    requires
        d < 10,
    ensures
        final(out)@ == old(out)@ + seq![digit_char(d as int)],
{
    let c: char = if d == 0 { '0' }
    else if d == 1 { '1' }
    else if d == 2 { '2' }
    else if d == 3 { '3' }
    else if d == 4 { '4' }
    else if d == 5 { '5' }
    else if d == 6 { '6' }
    else if d == 7 { '7' }
    else if d == 8 { '8' }
    else { '9' };
    out.push(c);
    proof {
        assert(out@ =~= old(out)@ + seq![digit_char(d as int)]);
    }
}

/// Appends the decimal numeral of `v`, with no leading zeros.
fn push_dec_u8(out: &mut Vec<char>, v: u8)
    ensures
        final(out)@ == old(out)@ + dec_u8(v as int),
{
    if v < 10 {
        push_digit(out, v);
    } else if v < 100 {
        push_digit(out, v / 10);
        push_digit(out, v % 10);
    } else {
        push_digit(out, v / 100);
        push_digit(out, (v / 10) % 10);
        push_digit(out, v % 10);
    }
    proof {
        assert(out@ =~= old(out)@ + dec_u8(v as int));
    }
}

/// Appends the characters of one cell: the glyph, wrapped in its truecolor
/// escape when `colored` is set.
fn push_cell(out: &mut Vec<char>, p: Pixel, palette: &Vec<char>, colored: bool)
    requires
        palette@.len() >= 1,
    ensures
        final(out)@ == old(out)@ + cell_chars(p, palette@, colored),
{
    let idx = glyph_index_exec(p, palette.len());
    let glyph = palette[idx];
    if colored {
        out.push('\u{1b}');
        out.push('[');
        out.push('3');
        out.push('8');
        out.push(';');
        out.push('2');
        out.push(';');
        push_dec_u8(out, p.r);
        out.push(';');
        push_dec_u8(out, p.g);
        out.push(';');
        push_dec_u8(out, p.b);
        out.push('m');
        out.push(glyph);
        out.push('\u{1b}');
        out.push('[');
        out.push('0');
        out.push('m');
        proof {
            assert(out@ =~= old(out)@ + cell_chars(p, palette@, true));
        }
    } else {
        out.push(glyph);
        proof {
            assert(out@ =~= old(out)@ + cell_chars(p, palette@, false));
        }
    }
}

/// Renders the row-major `pixels` of a raster `width` pixels wide as the
/// sequence of output characters.
pub fn render_chars(pixels: &Vec<Pixel>, width: usize, palette: &Vec<char>, colored: bool) -> (out:
    Vec<char>)
    requires
        width >= 1,
        palette@.len() >= 1,
    ensures
        out@ == render_spec(pixels@, width as int, palette@, colored),
{
    let mut out: Vec<char> = Vec::new();
    let n = pixels.len();
    let mut i: usize = 0;
    while i < n
        invariant
            width >= 1,
            palette@.len() >= 1,
            n == pixels@.len(),
            i <= n,
            out@ == render_upto(pixels@, width as int, palette@, colored, i as int),
        decreases n - i,
    {
        push_cell(&mut out, pixels[i], palette, colored);
        if (i + 1) % width == 0 {
            out.push('\n');
        }
        i = i + 1;
        proof {
            assert(out@ =~= render_upto(pixels@, width as int, palette@, colored, i as int));
        }
    }
    out
}

/// Relies on `String`'s `FromIterator<char>` impl: collecting characters
/// builds the string of exactly those characters in order.
#[verifier::external_body]
pub fn chars_to_string(v: &Vec<char>) -> (s: String)
    ensures
        s@ == v@,
{
    v.iter().collect()
}

} // verus!
