//! Properties of the rendered text: its newline structure, its row
//! structure, the membership of every visible glyph in the palette, and the
//! exactness of the truecolor escapes.

use vstd::prelude::*;

use vstd::arithmetic::div_mod::{
    lemma_fundamental_div_mod, lemma_fundamental_div_mod_converse, lemma_div_denominator,
    lemma_mod_bound,
};

use crate::raster::Pixel;
use crate::render::{
    cell_chars, dec_u8, digit_char, glyph_of, render_spec, render_upto, sgr_prefix,
    sgr_reset, lemma_glyph_index_in_range,
};
use crate::argument_parser::{dec_val, digit_of, is_dec_digit};

verus! {

/// How many times `c` occurs in `s`.
pub open spec fn count_char(s: Seq<char>, c: char) -> int
    decreases s.len(),
{
    if s.len() == 0 {
        0
    } else {
        count_char(s.drop_last(), c) + if s.last() == c {
            1int
        } else {
            0int
        }
    }
}

/// Occurrences in a concatenation add up.
pub proof fn lemma_count_char_add(a: Seq<char>, b: Seq<char>, c: char)
    ensures
        count_char(a + b, c) == count_char(a, c) + count_char(b, c),
    decreases b.len(),
{
    if b.len() == 0 {
        assert(a + b =~= a);
    } else {
        assert((a + b).drop_last() =~= a + b.drop_last());
        assert((a + b).last() == b.last());
        lemma_count_char_add(a, b.drop_last(), c);
    }
}

/// A sequence without `c` has no occurrence of it.
pub proof fn lemma_count_char_zero(s: Seq<char>, c: char)
    requires
        forall|i: int| 0 <= i < s.len() ==> s[i] != c,
    ensures
        count_char(s, c) == 0,
    decreases s.len(),
{
    if s.len() > 0 {
        lemma_count_char_zero(s.drop_last(), c);
    }
}

/// Every character of a numeral is a decimal digit.
pub proof fn lemma_dec_u8_digits(v: int)
    ensures
        forall|i: int| 0 <= i < dec_u8(v).len() ==> is_dec_digit(#[trigger] dec_u8(v)[i]),
{
}

/// The characters a cell can contain: the glyph, digits, and the fixed
/// escape characters. Any other character does not occur in it.
pub proof fn lemma_count_cell_zero(p: Pixel, palette: Seq<char>, colored: bool, c: char)
    requires
        palette.len() >= 1,
        !palette.contains(c),
        !is_dec_digit(c),
        c != '\u{1b}',
        c != '[',
        c != ';',
        c != 'm',
    ensures
        count_char(cell_chars(p, palette, colored), c) == 0,
{
    lemma_glyph_index_in_range(p, palette.len() as int);
    assert(palette.contains(glyph_of(p, palette)));
    if colored {
        lemma_dec_u8_digits(p.r as int);
        lemma_dec_u8_digits(p.g as int);
        lemma_dec_u8_digits(p.b as int);
        let a = seq!['\u{1b}', '[', '3', '8', ';', '2', ';'];
        let b = seq![';'];
        let m = seq!['m'];
        let g = seq![glyph_of(p, palette)];
        lemma_count_char_zero(a, c);
        lemma_count_char_zero(b, c);
        lemma_count_char_zero(m, c);
        lemma_count_char_zero(g, c);
        lemma_count_char_zero(dec_u8(p.r as int), c);
        lemma_count_char_zero(dec_u8(p.g as int), c);
        lemma_count_char_zero(dec_u8(p.b as int), c);
        lemma_count_char_zero(sgr_reset(), c);
        lemma_count_char_add(a, dec_u8(p.r as int), c);
        lemma_count_char_add(a + dec_u8(p.r as int), b, c);
        lemma_count_char_add(a + dec_u8(p.r as int) + b, dec_u8(p.g as int), c);
        lemma_count_char_add(a + dec_u8(p.r as int) + b + dec_u8(p.g as int), b, c);
        lemma_count_char_add(
            a + dec_u8(p.r as int) + b + dec_u8(p.g as int) + b,
            dec_u8(p.b as int),
            c,
        );
        lemma_count_char_add(
            a + dec_u8(p.r as int) + b + dec_u8(p.g as int) + b + dec_u8(p.b as int),
            m,
            c,
        );
        assert(count_char(sgr_prefix(p), c) == 0);
        lemma_count_char_add(sgr_prefix(p), g, c);
        lemma_count_char_add(sgr_prefix(p) + g, sgr_reset(), c);
    } else {
        lemma_count_char_zero(seq![glyph_of(p, palette)], c);
    }
}

/// Stepping a quotient and remainder down by one.
proof fn lemma_div_mod_step(n: int, w: int)
    requires
        n >= 1,
        w >= 1,
    ensures
        n % w == 0 ==> (n - 1) / w == n / w - 1 && (n - 1) % w == w - 1,
        n % w != 0 ==> (n - 1) / w == n / w && (n - 1) % w == n % w - 1,
{
    lemma_fundamental_div_mod(n, w);
    lemma_mod_bound(n, w);
    let q = n / w;
    if n % w == 0 {
        assert((q - 1) * w + (w - 1) == n - 1) by (nonlinear_arith)
            requires n == w * q + 0;
        lemma_fundamental_div_mod_converse(n - 1, w, q - 1, w - 1);
    } else {
        assert(q * w + (n % w - 1) == n - 1) by (nonlinear_arith)
            requires n == w * q + n % w;
        lemma_fundamental_div_mod_converse(n - 1, w, q, n % w - 1);
    }
}

/// The text for the first `n` pixels closes one row per `width` pixels.
proof fn lemma_render_upto_newlines(
    pixels: Seq<Pixel>,
    width: int,
    palette: Seq<char>,
    colored: bool,
    n: int,
)
    requires
        width >= 1,
        palette.len() >= 1,
        0 <= n <= pixels.len(),
        !palette.contains('\n'),
    ensures
        count_char(render_upto(pixels, width, palette, colored, n), '\n') == n / width,
    decreases n,
{
    if n <= 0 {
        assert(0int / width == 0) by (nonlinear_arith)
            requires width >= 1;
    } else {
        lemma_render_upto_newlines(pixels, width, palette, colored, n - 1);
        let before = render_upto(pixels, width, palette, colored, n - 1);
        let cell = cell_chars(pixels[n - 1], palette, colored);
        lemma_count_cell_zero(pixels[n - 1], palette, colored, '\n');
        lemma_count_char_add(before, cell, '\n');
        lemma_div_mod_step(n, width);
        if n % width == 0 {
            lemma_count_char_add(before + cell, seq!['\n'], '\n');
            assert(count_char(Seq::<char>::empty(), '\n') == 0);
            assert(seq!['\n'].drop_last() =~= Seq::<char>::empty());
            assert(seq!['\n'].last() == '\n');
            assert(count_char(seq!['\n'], '\n') == 1);
        } else {
            lemma_count_char_add(before + cell, Seq::empty(), '\n');
        }
    }
}

/// The rendered text holds exactly `height` newline characters, one closing
/// each row. (A palette may not use the newline itself as a glyph.)
pub proof fn lemma_newline_count(
    pixels: Seq<Pixel>,
    width: int,
    height: int,
    palette: Seq<char>,
    colored: bool,
)
    requires
        width >= 1,
        height >= 0,
        pixels.len() == width * height,
        palette.len() >= 1,
        !palette.contains('\n'),
    ensures
        count_char(render_spec(pixels, width, palette, colored), '\n') == height,
{
    lemma_render_upto_newlines(pixels, width, palette, colored, pixels.len() as int);
    assert((width * height) / width == height) by (nonlinear_arith)
        requires width >= 1, height >= 0;
}

/// Rendering is a function of its inputs: any two outputs that the renderer
/// admits for the same raster, palette and mode are equal.
pub proof fn lemma_render_deterministic(
    pixels: Seq<Pixel>,
    width: int,
    palette: Seq<char>,
    colored: bool,
    out1: Seq<char>,
    out2: Seq<char>,
)
    requires
        out1 == render_spec(pixels, width, palette, colored),
        out2 == render_spec(pixels, width, palette, colored),
    ensures
        out1 == out2,
{
}

/// A numeral denotes its value: `dec_u8(v)` is the decimal numeral of `v`,
/// one to three digits, with no leading zero.
pub proof fn lemma_dec_u8_value(v: int)
    requires
        0 <= v < 256,
    ensures
        dec_val(dec_u8(v)) == v,
        1 <= dec_u8(v).len() <= 3,
        dec_u8(v).len() >= 2 ==> dec_u8(v)[0] != '0',
{
    reveal_with_fuel(dec_val, 4);
    lemma_fundamental_div_mod(v, 10);
    if v >= 10 {
        lemma_fundamental_div_mod(v / 10, 10);
        lemma_div_denominator(v, 10, 10);
    }
    if v < 10 {
        let s = dec_u8(v);
        assert(s.drop_last() =~= Seq::<char>::empty());
        assert(dec_val(s) == digit_of(digit_char(v)));
    } else if v < 100 {
        let s = dec_u8(v);
        assert(s.drop_last() =~= seq![digit_char(v / 10)]);
        assert(seq![digit_char(v / 10)].drop_last() =~= Seq::<char>::empty());
    } else {
        let s = dec_u8(v);
        assert(s.drop_last() =~= seq![digit_char(v / 100), digit_char((v / 10) % 10)]);
        assert(seq![digit_char(v / 100), digit_char((v / 10) % 10)].drop_last() =~= seq![
            digit_char(v / 100),
        ]);
        assert(seq![digit_char(v / 100)].drop_last() =~= Seq::<char>::empty());
    }
}

/// In colored mode the cell of a pixel is exactly the truecolor escape that
/// carries the pixel's own channels as decimal numerals, then the glyph,
/// then the reset sequence.
pub proof fn lemma_truecolor_escape(p: Pixel, palette: Seq<char>)
    requires
        palette.len() >= 1,
    ensures
        cell_chars(p, palette, true) == sgr_prefix(p) + seq![glyph_of(p, palette)] + sgr_reset(),
        dec_val(dec_u8(p.r as int)) == p.r,
        dec_val(dec_u8(p.g as int)) == p.g,
        dec_val(dec_u8(p.b as int)) == p.b,
{
    lemma_dec_u8_value(p.r as int);
    lemma_dec_u8_value(p.g as int);
    lemma_dec_u8_value(p.b as int);
}


/// The visible characters of a text: everything outside the SGR escapes,
/// each of which runs from an escape character to the next `m`.
pub open spec fn strip_sgr(s: Seq<char>) -> Seq<char>
    decreases s.len(),
{
    if s.len() == 0 {
        s
    } else if s[0] == '\u{1b}' {
        strip_esc(s.drop_first())
    } else {
        seq![s[0]] + strip_sgr(s.drop_first())
    }
}

/// Skips the tail of an escape, up to and including the closing `m`.
pub open spec fn strip_esc(s: Seq<char>) -> Seq<char>
    decreases s.len(),
{
    if s.len() == 0 {
        Seq::empty()
    } else if s[0] == 'm' {
        strip_sgr(s.drop_first())
    } else {
        strip_esc(s.drop_first())
    }
}

/// A visible character passes through the stripper.
proof fn lemma_strip_cons(c: char, rest: Seq<char>)
    requires
        c != '\u{1b}',
    ensures
        strip_sgr(seq![c] + rest) == seq![c] + strip_sgr(rest),
{
    let s = seq![c] + rest;
    assert(s[0] == c);
    assert(s.drop_first() =~= rest);
}

/// An escape character switches the stripper into skipping.
proof fn lemma_strip_enter(tail: Seq<char>)
    ensures
        strip_sgr(seq!['\u{1b}'] + tail) == strip_esc(tail),
{
    let s = seq!['\u{1b}'] + tail;
    assert(s[0] == '\u{1b}');
    assert(s.drop_first() =~= tail);
}

/// The skipped stretch ends at the first `m`.
proof fn lemma_strip_esc_skip(a: Seq<char>, rest: Seq<char>)
    requires
        forall|i: int| 0 <= i < a.len() ==> a[i] != 'm',
    ensures
        strip_esc(a + seq!['m'] + rest) == strip_sgr(rest),
    decreases a.len(),
{
    if a.len() == 0 {
        assert(a + seq!['m'] + rest =~= seq!['m'] + rest);
        let s = seq!['m'] + rest;
        assert(s[0] == 'm');
        assert(s.drop_first() =~= rest);
    } else {
        let s = a + seq!['m'] + rest;
        assert(s[0] == a[0]);
        assert(s.drop_first() =~= a.drop_first() + seq!['m'] + rest);
        assert(forall|i: int|
            0 <= i < a.drop_first().len() ==> #[trigger] a.drop_first()[i] != 'm');
        lemma_strip_esc_skip(a.drop_first(), rest);
    }
}

/// The reset sequence is invisible.
proof fn lemma_strip_reset(rest: Seq<char>)
    ensures
        strip_sgr(sgr_reset() + rest) == strip_sgr(rest),
{
    let body = seq!['[', '0'];
    assert(body[0] == '[' && body[1] == '0');
    assert(sgr_reset() + rest =~= seq!['\u{1b}'] + (body + seq!['m'] + rest));
    lemma_strip_enter(body + seq!['m'] + rest);
    lemma_strip_esc_skip(body, rest);
}

/// Stripping a cell leaves exactly its glyph. (A palette may not use the
/// escape character itself as a glyph.)
proof fn lemma_strip_cell(p: Pixel, palette: Seq<char>, colored: bool, rest: Seq<char>)
    requires
        palette.len() >= 1,
        !palette.contains('\u{1b}'),
    ensures
        strip_sgr(cell_chars(p, palette, colored) + rest) == seq![glyph_of(p, palette)]
            + strip_sgr(rest),
{
    lemma_glyph_index_in_range(p, palette.len() as int);
    assert(palette.contains(glyph_of(p, palette)));
    let g = glyph_of(p, palette);
    if colored {
        let head = seq!['[', '3', '8', ';', '2', ';'];
        let body = head + dec_u8(p.r as int) + seq![';'] + dec_u8(p.g as int) + seq![';']
            + dec_u8(p.b as int);
        let tail = seq![g] + (sgr_reset() + rest);
        assert(cell_chars(p, palette, true) + rest =~= seq!['\u{1b}'] + (body + seq!['m']
            + tail));
        lemma_strip_enter(body + seq!['m'] + tail);
        lemma_dec_u8_digits(p.r as int);
        lemma_dec_u8_digits(p.g as int);
        lemma_dec_u8_digits(p.b as int);
        assert forall|i: int| 0 <= i < body.len() implies body[i] != 'm' by {
            assert(head[0] == '[' && head[1] == '3' && head[2] == '8' && head[3] == ';'
                && head[4] == '2' && head[5] == ';');
        }
        lemma_strip_esc_skip(body, tail);
        lemma_strip_cons(g, sgr_reset() + rest);
        lemma_strip_reset(rest);
    } else {
        assert(cell_chars(p, palette, false) + rest =~= seq![g] + rest);
        lemma_strip_cons(g, rest);
    }
}

/// Stripping a colored rendering, character by character, yields the mono
/// rendering of the same raster and palette.
proof fn lemma_strip_render_upto(
    pixels: Seq<Pixel>,
    width: int,
    palette: Seq<char>,
    n: int,
    rest: Seq<char>,
)
    requires
        width >= 1,
        palette.len() >= 1,
        !palette.contains('\u{1b}'),
        0 <= n <= pixels.len(),
    ensures
        strip_sgr(render_upto(pixels, width, palette, true, n) + rest) == render_upto(
            pixels,
            width,
            palette,
            false,
            n,
        ) + strip_sgr(rest),
    decreases n,
{
    if n <= 0 {
        assert(render_upto(pixels, width, palette, true, n) + rest =~= rest);
        assert(render_upto(pixels, width, palette, false, n) + strip_sgr(rest) =~= strip_sgr(
            rest,
        ));
    } else {
        let cell = cell_chars(pixels[n - 1], palette, true);
        let nl: Seq<char> = if n % width == 0 {
            seq!['\n']
        } else {
            Seq::empty()
        };
        let restc = cell + (nl + rest);
        assert(render_upto(pixels, width, palette, true, n) + rest =~= render_upto(
            pixels,
            width,
            palette,
            true,
            n - 1,
        ) + restc);
        lemma_strip_render_upto(pixels, width, palette, n - 1, restc);
        lemma_strip_cell(pixels[n - 1], palette, true, nl + rest);
        if n % width == 0 {
            lemma_strip_cons('\n', rest);
            assert(seq!['\n'] + rest =~= nl + rest);
        } else {
            assert(nl + rest =~= rest);
        }
        assert(strip_sgr(render_upto(pixels, width, palette, true, n) + rest) =~= render_upto(
            pixels,
            width,
            palette,
            false,
            n,
        ) + strip_sgr(rest));
    }
}

/// The SGR escapes are mere decoration: stripping them from the colored
/// rendering leaves exactly the mono rendering.
pub proof fn lemma_strip_colored(pixels: Seq<Pixel>, width: int, palette: Seq<char>)
    requires
        width >= 1,
        palette.len() >= 1,
        !palette.contains('\u{1b}'),
    ensures
        strip_sgr(render_spec(pixels, width, palette, true)) == render_spec(
            pixels,
            width,
            palette,
            false,
        ),
{
    let n = pixels.len() as int;
    lemma_strip_render_upto(pixels, width, palette, n, Seq::empty());
    assert(render_upto(pixels, width, palette, true, n) + Seq::<char>::empty() =~= render_upto(
        pixels,
        width,
        palette,
        true,
        n,
    ));
    assert(render_upto(pixels, width, palette, false, n) + strip_sgr(Seq::empty())
        =~= render_upto(pixels, width, palette, false, n));
}

/// Every character of a mono rendering is a palette glyph or a newline.
proof fn lemma_mono_chars_upto(pixels: Seq<Pixel>, width: int, palette: Seq<char>, n: int)
    requires
        width >= 1,
        palette.len() >= 1,
        0 <= n <= pixels.len(),
    ensures
        forall|i: int|
            0 <= i < render_upto(pixels, width, palette, false, n).len() ==> palette.contains(
                #[trigger] render_upto(pixels, width, palette, false, n)[i],
            ) || render_upto(pixels, width, palette, false, n)[i] == '\n',
    decreases n,
{
    if n > 0 {
        lemma_mono_chars_upto(pixels, width, palette, n - 1);
        lemma_glyph_index_in_range(pixels[n - 1], palette.len() as int);
        assert(palette.contains(glyph_of(pixels[n - 1], palette)));
        let prev = render_upto(pixels, width, palette, false, n - 1);
        let cur = render_upto(pixels, width, palette, false, n);
        assert forall|i: int| 0 <= i < cur.len() implies palette.contains(#[trigger] cur[i])
            || cur[i] == '\n' by {
            if i < prev.len() {
                assert(cur[i] == prev[i]);
            }
        }
    }
}

/// Every glyph of the rendered output is a member of the active palette:
/// the mono text consists of palette glyphs and newlines alone, and the
/// colored text strips to the mono text.
pub proof fn lemma_glyphs_in_palette(pixels: Seq<Pixel>, width: int, palette: Seq<char>)
    requires
        width >= 1,
        palette.len() >= 1,
    ensures
        forall|i: int|
            0 <= i < render_spec(pixels, width, palette, false).len() ==> palette.contains(
                #[trigger] render_spec(pixels, width, palette, false)[i],
            ) || render_spec(pixels, width, palette, false)[i] == '\n',
{
    lemma_mono_chars_upto(pixels, width, palette, pixels.len() as int);
}

/// With a palette of one glyph, every visible character of the rendering is
/// that glyph or a newline.
pub proof fn lemma_single_glyph(pixels: Seq<Pixel>, width: int, palette: Seq<char>, colored: bool)
    requires
        width >= 1,
        palette.len() == 1,
        !palette.contains('\u{1b}'),
    ensures
        ({
            let visible = if colored {
                strip_sgr(render_spec(pixels, width, palette, true))
            } else {
                render_spec(pixels, width, palette, false)
            };
            forall|i: int|
                0 <= i < visible.len() ==> #[trigger] visible[i] == palette[0] || visible[i]
                    == '\n'
        }),
{
    lemma_glyphs_in_palette(pixels, width, palette);
    if colored {
        lemma_strip_colored(pixels, width, palette);
    }
    let visible = render_spec(pixels, width, palette, false);
    assert forall|i: int| 0 <= i < visible.len() implies #[trigger] visible[i] == palette[0]
        || visible[i] == '\n' by {
        if visible[i] != '\n' {
            assert(palette.contains(visible[i]));
            let k = choose|k: int| 0 <= k < palette.len() && palette[k] == visible[i];
            assert(k == 0);
        }
    }
}


/// The glyphs of row `row` of the rendering, in order.
pub open spec fn row_glyphs(pixels: Seq<Pixel>, width: int, palette: Seq<char>, row: int) -> Seq<
    char,
>
    recommends
        width >= 1,
{
    Seq::new(width as nat, |col: int| glyph_of(pixels[row * width + col], palette))
}

/// The first `r` rows of glyphs, each closed by a newline.
pub open spec fn rows_upto(pixels: Seq<Pixel>, width: int, palette: Seq<char>, r: int) -> Seq<
    char,
>
    decreases r,
{
    if r <= 0 {
        Seq::empty()
    } else {
        rows_upto(pixels, width, palette, r - 1) + row_glyphs(pixels, width, palette, r - 1)
            + seq!['\n']
    }
}

/// The partly filled last row after `n` pixels.
spec fn partial_row(pixels: Seq<Pixel>, width: int, palette: Seq<char>, n: int) -> Seq<char>
    recommends
        width >= 1,
        n >= 0,
{
    Seq::new(
        (n % width) as nat,
        |col: int| glyph_of(pixels[(n / width) * width + col], palette),
    )
}

/// A mono rendering decomposes into completed rows and a partial last row.
proof fn lemma_mono_upto_rows(pixels: Seq<Pixel>, width: int, palette: Seq<char>, n: int)
    requires
        width >= 1,
        palette.len() >= 1,
        0 <= n <= pixels.len(),
    ensures
        render_upto(pixels, width, palette, false, n) == rows_upto(
            pixels,
            width,
            palette,
            n / width,
        ) + partial_row(pixels, width, palette, n),
    decreases n,
{
    lemma_mod_bound(n, width);
    if n <= 0 {
        assert(0int / width == 0 && 0int % width == 0) by (nonlinear_arith)
            requires width >= 1;
        assert(render_upto(pixels, width, palette, false, 0) =~= rows_upto(
            pixels,
            width,
            palette,
            0,
        ) + partial_row(pixels, width, palette, 0));
    } else {
        lemma_mono_upto_rows(pixels, width, palette, n - 1);
        lemma_div_mod_step(n, width);
        lemma_fundamental_div_mod(n, width);
        let q = n / width;
        let r = n % width;
        let g = glyph_of(pixels[n - 1], palette);
        if r == 0 {
            assert((q - 1) * width + (width - 1) == n - 1 && q * width == n) by (nonlinear_arith)
                requires n == width * q + 0;
            assert(partial_row(pixels, width, palette, n - 1).push(g) =~= row_glyphs(
                pixels,
                width,
                palette,
                q - 1,
            ));
            assert(render_upto(pixels, width, palette, false, n) =~= rows_upto(
                pixels,
                width,
                palette,
                q,
            ) + partial_row(pixels, width, palette, n));
        } else {
            assert(q * width + (r - 1) == n - 1) by (nonlinear_arith)
                requires n == width * q + r;
            assert(partial_row(pixels, width, palette, n - 1).push(g) =~= partial_row(
                pixels,
                width,
                palette,
                n,
            ));
            assert(render_upto(pixels, width, palette, false, n) =~= rows_upto(
                pixels,
                width,
                palette,
                q,
            ) + partial_row(pixels, width, palette, n));
        }
    }
}

/// The visible text is exactly `height` rows, each of exactly `width`
/// palette glyphs closed by one newline: the glyph of row `row`, column
/// `col` is that of the pixel at linear index `row * width + col`.
pub proof fn lemma_rows(
    pixels: Seq<Pixel>,
    width: int,
    height: int,
    palette: Seq<char>,
    colored: bool,
)
    requires
        width >= 1,
        height >= 0,
        pixels.len() == width * height,
        palette.len() >= 1,
        !palette.contains('\u{1b}'),
    ensures
        ({
            let visible = if colored {
                strip_sgr(render_spec(pixels, width, palette, true))
            } else {
                render_spec(pixels, width, palette, false)
            };
            &&& visible == rows_upto(pixels, width, palette, height)
            &&& forall|row: int|
                0 <= row < height ==> #[trigger] row_glyphs(pixels, width, palette, row).len()
                    == width
            &&& forall|row: int, col: int|
                0 <= row < height && 0 <= col < width ==> palette.contains(
                    #[trigger] row_glyphs(pixels, width, palette, row)[col],
                )
        }),
{
    if colored {
        lemma_strip_colored(pixels, width, palette);
    }
    lemma_mono_upto_rows(pixels, width, palette, pixels.len() as int);
    assert((width * height) / width == height && (width * height) % width == 0)
        by (nonlinear_arith)
        requires width >= 1, height >= 0;
    assert(rows_upto(pixels, width, palette, height) + partial_row(
        pixels,
        width,
        palette,
        width * height,
    ) =~= rows_upto(pixels, width, palette, height));
    assert forall|row: int, col: int| 0 <= row < height && 0 <= col < width implies palette
        .contains(#[trigger] row_glyphs(pixels, width, palette, row)[col]) by {
        lemma_glyph_index_in_range(pixels[row * width + col], palette.len() as int);
        assert(palette.contains(glyph_of(pixels[row * width + col], palette)));
    }
}


/// The segments of `s` between its newline characters, as `split('\n')`
/// yields them: one more segment than there are newlines, the last one
/// empty when the text ends with a newline.
pub open spec fn split_lines(s: Seq<char>) -> Seq<Seq<char>>
    decreases s.len(),
{
    if s.len() == 0 {
        seq![Seq::<char>::empty()]
    } else if s[0] == '\n' {
        seq![Seq::<char>::empty()] + split_lines(s.drop_first())
    } else {
        seq![seq![s[0]] + split_lines(s.drop_first())[0]] + split_lines(s.drop_first()).drop_first()
    }
}

/// A split yields at least one segment.
proof fn lemma_split_len(s: Seq<char>)
    ensures
        split_lines(s).len() >= 1,
    decreases s.len(),
{
    if s.len() > 0 {
        lemma_split_len(s.drop_first());
    }
}

/// A newline-free segment closed by one newline is split off whole.
proof fn lemma_split_row(a: Seq<char>, rest: Seq<char>)
    requires
        forall|i: int| 0 <= i < a.len() ==> a[i] != '\n',
    ensures
        split_lines(a + seq!['\n'] + rest) == seq![a] + split_lines(rest),
    decreases a.len(),
{
    if a.len() == 0 {
        let s = a + seq!['\n'] + rest;
        assert(s =~= seq!['\n'] + rest);
        assert(s[0] == '\n');
        assert(s.drop_first() =~= rest);
        assert(a =~= Seq::<char>::empty());
        assert(split_lines(s) =~= seq![a] + split_lines(rest));
    } else {
        let s = a + seq!['\n'] + rest;
        assert(s[0] == a[0]);
        assert(s.drop_first() =~= a.drop_first() + seq!['\n'] + rest);
        assert(forall|i: int|
            0 <= i < a.drop_first().len() ==> #[trigger] a.drop_first()[i] != '\n');
        lemma_split_row(a.drop_first(), rest);
        lemma_split_len(rest);
        let inner = split_lines(a.drop_first() + seq!['\n'] + rest);
        assert(inner[0] == a.drop_first());
        assert(inner.drop_first() =~= split_lines(rest));
        assert(seq![a[0]] + a.drop_first() =~= a);
        assert(split_lines(s) =~= seq![a] + split_lines(rest));
    }
}

/// The rows of the rendering, as a sequence of glyph rows.
pub open spec fn row_list(pixels: Seq<Pixel>, width: int, palette: Seq<char>, r: int) -> Seq<
    Seq<char>,
>
    recommends
        width >= 1,
        r >= 0,
{
    Seq::new(r as nat, |i: int| row_glyphs(pixels, width, palette, i))
}

/// Splitting the completed rows detaches them one by one.
proof fn lemma_split_rows_upto(
    pixels: Seq<Pixel>,
    width: int,
    palette: Seq<char>,
    r: int,
    rest: Seq<char>,
)
    requires
        width >= 1,
        palette.len() >= 1,
        !palette.contains('\n'),
        r >= 0,
    ensures
        split_lines(rows_upto(pixels, width, palette, r) + rest) == row_list(
            pixels,
            width,
            palette,
            r,
        ) + split_lines(rest),
    decreases r,
{
    if r <= 0 {
        assert(rows_upto(pixels, width, palette, r) + rest =~= rest);
        assert(row_list(pixels, width, palette, r) + split_lines(rest) =~= split_lines(rest));
    } else {
        let row = row_glyphs(pixels, width, palette, r - 1);
        let rest2 = row + seq!['\n'] + rest;
        assert(rows_upto(pixels, width, palette, r) + rest =~= rows_upto(
            pixels,
            width,
            palette,
            r - 1,
        ) + rest2);
        lemma_split_rows_upto(pixels, width, palette, r - 1, rest2);
        assert forall|col: int| 0 <= col < row.len() implies row[col] != '\n' by {
            lemma_glyph_index_in_range(pixels[(r - 1) * width + col], palette.len() as int);
            assert(palette.contains(glyph_of(pixels[(r - 1) * width + col], palette)));
        }
        lemma_split_row(row, rest);
        assert(row_list(pixels, width, palette, r - 1) + seq![row] =~= row_list(
            pixels,
            width,
            palette,
            r,
        ));
        assert(split_lines(rows_upto(pixels, width, palette, r) + rest) =~= row_list(
            pixels,
            width,
            palette,
            r,
        ) + split_lines(rest));
    }
}

/// Splitting the visible text on newlines yields the rows and a trailing
/// empty segment: each of the `height` segments before it holds exactly
/// `width` glyphs, each a member of the palette.
pub proof fn lemma_visible_lines(
    pixels: Seq<Pixel>,
    width: int,
    height: int,
    palette: Seq<char>,
    colored: bool,
)
    requires
        width >= 1,
        height >= 0,
        pixels.len() == width * height,
        palette.len() >= 1,
        !palette.contains('\n'),
        !palette.contains('\u{1b}'),
    ensures
        ({
            let visible = if colored {
                strip_sgr(render_spec(pixels, width, palette, true))
            } else {
                render_spec(pixels, width, palette, false)
            };
            let segments = split_lines(visible);
            &&& segments.len() == height + 1
            &&& segments[height] == Seq::<char>::empty()
            &&& forall|row: int|
                0 <= row < height ==> #[trigger] segments[row] == row_glyphs(
                    pixels,
                    width,
                    palette,
                    row,
                )
        }),
{
    lemma_rows(pixels, width, height, palette, colored);
    lemma_split_rows_upto(pixels, width, palette, height, Seq::empty());
    assert(rows_upto(pixels, width, palette, height) + Seq::<char>::empty() =~= rows_upto(
        pixels,
        width,
        palette,
        height,
    ));
    let segments = row_list(pixels, width, palette, height) + split_lines(Seq::empty());
    assert(segments[height] == Seq::<char>::empty());
}


/// The rendered text of a nonempty raster is nonempty, does not begin with
/// a newline-closed empty row, and its final character is a newline.
pub proof fn lemma_ends_with_newline(
    pixels: Seq<Pixel>,
    width: int,
    height: int,
    palette: Seq<char>,
    colored: bool,
)
    requires
        width >= 1,
        height >= 1,
        pixels.len() == width * height,
        palette.len() >= 1,
    ensures
        render_spec(pixels, width, palette, colored).len() > 0,
        render_spec(pixels, width, palette, colored).last() == '\n',
{
    let n = pixels.len() as int;
    assert(n >= 1 && n % width == 0) by (nonlinear_arith)
        requires width >= 1, height >= 1, n == width * height;
    let out = render_upto(pixels, width, palette, colored, n);
    assert(out == render_upto(pixels, width, palette, colored, n - 1) + cell_chars(
        pixels[n - 1],
        palette,
        colored,
    ) + seq!['\n']);
    assert(out.last() == '\n');
}

} // verus!
