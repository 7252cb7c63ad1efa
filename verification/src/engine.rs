//! The built-in font engine: glyph metrics, bitmap synthesis, and the
//! blur effect.
//!
//! The engine is deterministic and self-contained.  Font data is accepted
//! when it carries an sfnt-style header; metrics and glyph shapes are then
//! pure functions of the codepoint, the pixel size, and the blur radius,
//! defined by the spec functions in this module.  A glyph's bitmap is its
//! ink box at full coverage, surrounded by a padding ring so that neighbours
//! in the atlas do not bleed into each other, optionally softened by a
//! separable box blur.
//!
//! All sizes are whole pixels: the cache quantizes to whole-pixel size and
//! blur buckets, and the subpixel position bucket is always zero.
//!
//! The metrics and cell geometry here are the model every glyph of the
//! stash follows, so layout and measurement are pure functions of the
//! style and the text.  The coverage inside a cell, however, need not
//! come from this module: a host that embeds a real rasterizer feeds its
//! own bytes for a cell through `FontStash::add_glyph`, and only glyphs
//! the cache has to rasterize itself use `rasterize_glyph` below.

use vstd::prelude::*;

verus! {

/// Largest pixel size a style can select; sizes are clamped into
/// `1..=MAX_FONT_SIZE`.
pub const MAX_FONT_SIZE: u32 = 512;

/// Largest blur radius a style can select; radii are clamped into
/// `0..=MAX_BLUR`.
pub const MAX_BLUR: u32 = 20;

/// Font data is accepted when it is at least 12 bytes long and starts with
/// an sfnt-style magic: the TrueType version 1.0 tag, `OTTO`, or `true`.
pub open spec fn font_data_valid(d: Seq<u8>) -> bool {
    d.len() >= 12 && ((d[0] == 0u8 && d[1] == 1u8 && d[2] == 0u8 && d[3] == 0u8) || (d[0] == 0x4Fu8
        && d[1] == 0x54u8 && d[2] == 0x54u8 && d[3] == 0x4Fu8) || (d[0] == 0x74u8 && d[1] == 0x72u8
        && d[2] == 0x75u8 && d[3] == 0x65u8))
}

/// Checks `font_data_valid` on a byte buffer.
pub fn check_font_data(d: &Vec<u8>) -> (r: bool)
    ensures
        r == font_data_valid(d@),
{
    d.len() >= 12 && ((d[0] == 0u8 && d[1] == 1u8 && d[2] == 0u8 && d[3] == 0u8) || (d[0] == 0x4Fu8
        && d[1] == 0x54u8 && d[2] == 0x54u8 && d[3] == 0x4Fu8) || (d[0] == 0x74u8 && d[1] == 0x72u8
        && d[2] == 0x75u8 && d[3] == 0x65u8))
}

/// Distance from the baseline up to the top of a line, in pixels.
pub open spec fn spec_ascent(size: u32) -> int {
    (3 * size + 3) / 4
}

/// Distance from the baseline down to the bottom of a line, in pixels.
pub open spec fn spec_descent(size: u32) -> int {
    size - spec_ascent(size)
}

/// Height of one line of text, in pixels.
pub open spec fn spec_line_height(size: u32) -> int {
    (5 * size + 3) / 4
}

/// The padding ring around a glyph's ink box, in pixels: wide enough to
/// keep the whole blur kernel inside the glyph's own atlas cell.
pub open spec fn spec_pad(blur: u32) -> int {
    blur + 2
}

/// Width of a glyph's ink box.  It varies with the codepoint so that
/// different characters advance differently.
pub open spec fn spec_ink_w(cp: u32, size: u32) -> int {
    (if size / 2 >= 1 {
        size / 2
    } else {
        1
    }) + (cp % 4)
}

/// Height of a glyph's ink box.
pub open spec fn spec_ink_h(size: u32) -> int {
    if 3 * size / 4 >= 1 {
        3 * size / 4
    } else {
        1
    }
}

/// Width of a glyph's atlas cell: the ink box plus the padding ring.
pub open spec fn spec_cell_w(cp: u32, size: u32, blur: u32) -> int {
    spec_ink_w(cp, size) + 2 * spec_pad(blur)
}

/// Height of a glyph's atlas cell.
pub open spec fn spec_cell_h(size: u32, blur: u32) -> int {
    spec_ink_h(size) + 2 * spec_pad(blur)
}

/// Horizontal advance of a glyph: one pixel more than its cell, so cells of
/// consecutive glyphs never overlap on screen.
pub open spec fn spec_advance(cp: u32, size: u32, blur: u32) -> int {
    spec_cell_w(cp, size, blur) + 1
}

/// Vertical offset from the baseline to the top of a glyph's cell
/// (negative: the cell starts above the baseline).
pub open spec fn spec_yoff(size: u32, blur: u32) -> int {
    -(spec_ink_h(size) + spec_pad(blur))
}

/// The glyph bitmap before blurring: full coverage on the ink box, zero on
/// the padding ring.
pub open spec fn glyph_base(cp: u32, size: u32, blur: u32) -> Seq<u8> {
    let w = spec_cell_w(cp, size, blur);
    let h = spec_cell_h(size, blur);
    let pad = spec_pad(blur);
    Seq::new(
        (w * h) as nat,
        |i: int|
            if pad <= i % w < pad + spec_ink_w(cp, size) && pad <= i / w < pad + spec_ink_h(size) {
                255u8
            } else {
                0u8
            },
    )
}

/// The finished glyph bitmap: the base bitmap, box-blurred when the radius
/// is positive.
pub open spec fn glyph_bitmap(cp: u32, size: u32, blur: u32) -> Seq<u8> {
    let w = spec_cell_w(cp, size, blur);
    let h = spec_cell_h(size, blur);
    if blur == 0 {
        glyph_base(cp, size, blur)
    } else {
        blur_both(glyph_base(cp, size, blur), w as u32, h as u32, blur)
    }
}

/// Sum of the row-`y` texels at columns `lo..hi`.
pub open spec fn row_sum(buf: Seq<u8>, w: int, y: int, lo: int, hi: int) -> int
    decreases hi - lo,
{
    if lo >= hi {
        0
    } else {
        row_sum(buf, w, y, lo, hi - 1) + buf[y * w + (hi - 1)]
    }
}

/// Sum of the column-`x` texels at rows `lo..hi`.
pub open spec fn col_sum(buf: Seq<u8>, w: int, x: int, lo: int, hi: int) -> int
    decreases hi - lo,
{
    if lo >= hi {
        0
    } else {
        col_sum(buf, w, x, lo, hi - 1) + buf[(hi - 1) * w + x]
    }
}

/// One texel of the horizontal blur pass: the mean of the radius-`r` window
/// around `(x, y)`, clipped to the row.
pub open spec fn blur_h_at(buf: Seq<u8>, w: u32, r: u32, x: int, y: int) -> u8 {
    let lo = if x - r >= 0 {
        x - r
    } else {
        0
    };
    let hi = if x + r + 1 <= w {
        x + r + 1
    } else {
        w as int
    };
    (row_sum(buf, w as int, y, lo, hi) / (hi - lo)) as u8
}

/// One texel of the vertical blur pass.
pub open spec fn blur_v_at(buf: Seq<u8>, w: u32, h: u32, r: u32, x: int, y: int) -> u8 {
    let lo = if y - r >= 0 {
        y - r
    } else {
        0
    };
    let hi = if y + r + 1 <= h {
        y + r + 1
    } else {
        h as int
    };
    (col_sum(buf, w as int, x, lo, hi) / (hi - lo)) as u8
}

/// The horizontal blur pass over a whole `w` by `h` buffer.
pub open spec fn blur_h(buf: Seq<u8>, w: u32, h: u32, r: u32) -> Seq<u8> {
    Seq::new((w * h) as nat, |i: int| blur_h_at(buf, w, r, i % (w as int), i / (w as int)))
}

/// The vertical blur pass over a whole `w` by `h` buffer.
pub open spec fn blur_v(buf: Seq<u8>, w: u32, h: u32, r: u32) -> Seq<u8> {
    Seq::new((w * h) as nat, |i: int| blur_v_at(buf, w, h, r, i % (w as int), i / (w as int)))
}

/// The separable box blur: the horizontal pass, then the vertical pass.
pub open spec fn blur_both(buf: Seq<u8>, w: u32, h: u32, r: u32) -> Seq<u8> {
    blur_v(blur_h(buf, w, h, r), w, h, r)
}

/// Glyph cells stay within these bounds for every codepoint and every
/// in-range size and blur.
pub proof fn lemma_cell_bounds(cp: u32, size: u32, blur: u32)
    requires
        1 <= size <= MAX_FONT_SIZE,
        blur <= MAX_BLUR,
    ensures
        1 <= spec_ink_w(cp, size) <= 259,
        1 <= spec_ink_h(size) <= 384,
        2 <= spec_pad(blur) <= 22,
        5 <= spec_cell_w(cp, size, blur) <= 303,
        5 <= spec_cell_h(size, blur) <= 428,
        6 <= spec_advance(cp, size, blur) <= 304,
        -406 <= spec_yoff(size, blur) <= -3,
        0 <= spec_ascent(size) <= 384,
        0 <= spec_descent(size) <= 128,
        0 <= spec_line_height(size) <= 640,
{
}

/// Ascender of a font at `size`: `spec_ascent` as an executable value.
pub fn font_ascent(size: u32) -> (r: u32)
    requires
        1 <= size <= MAX_FONT_SIZE,
    ensures
        r == spec_ascent(size),
{
    (3 * size + 3) / 4
}

/// Descender of a font at `size`.
pub fn font_descent(size: u32) -> (r: u32)
    requires
        1 <= size <= MAX_FONT_SIZE,
    ensures
        r == spec_descent(size),
{
    size - (3 * size + 3) / 4
}

/// Line height of a font at `size`.
pub fn font_line_height(size: u32) -> (r: u32)
    requires
        1 <= size <= MAX_FONT_SIZE,
    ensures
        r == spec_line_height(size),
{
    (5 * size + 3) / 4
}

/// Cell width of a glyph.
pub fn glyph_cell_w(cp: u32, size: u32, blur: u32) -> (r: u32)
    requires
        1 <= size <= MAX_FONT_SIZE,
        blur <= MAX_BLUR,
    ensures
        r == spec_cell_w(cp, size, blur),
{
    let half = size / 2;
    let base = if half >= 1 {
        half
    } else {
        1
    };
    base + cp % 4 + 2 * (blur + 2)
}

/// Cell height of a glyph.
pub fn glyph_cell_h(size: u32, blur: u32) -> (r: u32)
    requires
        1 <= size <= MAX_FONT_SIZE,
        blur <= MAX_BLUR,
    ensures
        r == spec_cell_h(size, blur),
{
    let q = 3 * size / 4;
    let ih = if q >= 1 {
        q
    } else {
        1
    };
    ih + 2 * (blur + 2)
}

/// Horizontal advance of a glyph.
pub fn glyph_advance(cp: u32, size: u32, blur: u32) -> (r: u32)
    requires
        1 <= size <= MAX_FONT_SIZE,
        blur <= MAX_BLUR,
    ensures
        r == spec_advance(cp, size, blur),
{
    glyph_cell_w(cp, size, blur) + 1
}

/// Vertical offset from the baseline to the top of a glyph's cell.
pub fn glyph_yoff(size: u32, blur: u32) -> (r: i32)
    requires
        1 <= size <= MAX_FONT_SIZE,
        blur <= MAX_BLUR,
    ensures
        r == spec_yoff(size, blur),
{
    let q = 3 * size / 4;
    let ih = if q >= 1 {
        q
    } else {
        1
    };
    proof {
        lemma_cell_bounds(0u32, size, blur);
    }
    -((ih + blur + 2) as i32)
}

/// One horizontal blur pass.  Each output texel is the mean of the input
/// texels in the radius-`r` window around it, clipped to its row.
fn blur_pass_h(src: &Vec<u8>, w: u32, h: u32, r: u32) -> (out: Vec<u8>)
    requires
        src@.len() == w * h,
        1 <= w <= 1024,
        1 <= h <= 1024,
        1 <= r <= MAX_BLUR,
    ensures
        out@ == blur_h(src@, w, h, r),
{
    let ghost target = blur_h(src@, w, h, r);
    let mut out: Vec<u8> = Vec::new();
    let mut y: u32 = 0;
    while y < h
        invariant
            src@.len() == w * h,
            1 <= w <= 1024,
            1 <= h <= 1024,
            1 <= r <= MAX_BLUR,
            target == blur_h(src@, w, h, r),
            0 <= y <= h,
            out@.len() == y * w,
            forall|i: int| 0 <= i < out@.len() ==> out@[i] == target[i],
        decreases h - y,
    {
        let mut x: u32 = 0;
        while x < w
            invariant
                src@.len() == w * h,
                1 <= w <= 1024,
                1 <= h <= 1024,
                1 <= r <= MAX_BLUR,
                target == blur_h(src@, w, h, r),
                0 <= y < h,
                0 <= x <= w,
                out@.len() == y * w + x,
                forall|i: int| 0 <= i < out@.len() ==> out@[i] == target[i],
            decreases w - x,
        {
            let lo: u32 = if x >= r {
                x - r
            } else {
                0
            };
            let hi: u32 = if x + r + 1 <= w {
                x + r + 1
            } else {
                w
            };
            let mut sum: u32 = 0;
            let mut j: u32 = lo;
            proof {
                crate::atlas::lemma_index_bound(w as int, h as int, x as int, y as int);
            }
            while j < hi
                invariant
                    src@.len() == w * h,
                    1 <= w <= 1024,
                    1 <= h <= 1024,
                    0 <= y < h,
                    lo <= j <= hi,
                    hi <= w,
                    hi - lo <= 2 * r + 1,
                    r <= MAX_BLUR,
                    sum == row_sum(src@, w as int, y as int, lo as int, j as int),
                    sum <= 255 * (j - lo),
                decreases hi - j,
            {
                proof {
                    crate::atlas::lemma_index_bound(w as int, h as int, j as int, y as int);
                    assert(w * h <= 1024 * 1024) by (nonlinear_arith)
                        requires
                            w <= 1024,
                            h <= 1024,
                    ;
                }
                let idx: usize = (y as usize) * (w as usize) + (j as usize);
                sum = sum + src[idx] as u32;
                j += 1;
            }
            let count: u32 = hi - lo;
            proof {
                assert(sum / count <= 255) by (nonlinear_arith)
                    requires
                        sum <= 255 * count,
                        count >= 1,
                ;
            }
            let val: u8 = (sum / count) as u8;
            let ghost i = y * w + x;
            proof {
                vstd::arithmetic::div_mod::lemma_fundamental_div_mod_converse(
                    i as int,
                    w as int,
                    y as int,
                    x as int,
                );
                assert(target[i as int] == blur_h_at(src@, w, r, x as int, y as int));
                assert(val == blur_h_at(src@, w, r, x as int, y as int));
            }
            out.push(val);
            x += 1;
        }
        proof {
            lemma_row_step(y as int, w as int);
        }
        y += 1;
    }
    proof {
        assert((h as int) * (w as int) == (w as int) * (h as int)) by (nonlinear_arith);
        assert(out@ =~= target);
    }
    out
}

/// One vertical blur pass.
fn blur_pass_v(src: &Vec<u8>, w: u32, h: u32, r: u32) -> (out: Vec<u8>)
    requires
        src@.len() == w * h,
        1 <= w <= 1024,
        1 <= h <= 1024,
        1 <= r <= MAX_BLUR,
    ensures
        out@ == blur_v(src@, w, h, r),
{
    let ghost target = blur_v(src@, w, h, r);
    let mut out: Vec<u8> = Vec::new();
    let mut y: u32 = 0;
    while y < h
        invariant
            src@.len() == w * h,
            1 <= w <= 1024,
            1 <= h <= 1024,
            1 <= r <= MAX_BLUR,
            target == blur_v(src@, w, h, r),
            0 <= y <= h,
            out@.len() == y * w,
            forall|i: int| 0 <= i < out@.len() ==> out@[i] == target[i],
        decreases h - y,
    {
        let mut x: u32 = 0;
        while x < w
            invariant
                src@.len() == w * h,
                1 <= w <= 1024,
                1 <= h <= 1024,
                1 <= r <= MAX_BLUR,
                target == blur_v(src@, w, h, r),
                0 <= y < h,
                0 <= x <= w,
                out@.len() == y * w + x,
                forall|i: int| 0 <= i < out@.len() ==> out@[i] == target[i],
            decreases w - x,
        {
            let lo: u32 = if y >= r {
                y - r
            } else {
                0
            };
            let hi: u32 = if y + r + 1 <= h {
                y + r + 1
            } else {
                h
            };
            let mut sum: u32 = 0;
            let mut j: u32 = lo;
            proof {
                crate::atlas::lemma_index_bound(w as int, h as int, x as int, y as int);
            }
            while j < hi
                invariant
                    src@.len() == w * h,
                    1 <= w <= 1024,
                    1 <= h <= 1024,
                    0 <= x < w,
                    lo <= j <= hi,
                    hi <= h,
                    hi - lo <= 2 * r + 1,
                    r <= MAX_BLUR,
                    sum == col_sum(src@, w as int, x as int, lo as int, j as int),
                    sum <= 255 * (j - lo),
                decreases hi - j,
            {
                proof {
                    crate::atlas::lemma_index_bound(w as int, h as int, x as int, j as int);
                    assert(w * h <= 1024 * 1024) by (nonlinear_arith)
                        requires
                            w <= 1024,
                            h <= 1024,
                    ;
                }
                let idx: usize = (j as usize) * (w as usize) + (x as usize);
                sum = sum + src[idx] as u32;
                j += 1;
            }
            let count: u32 = hi - lo;
            proof {
                assert(sum / count <= 255) by (nonlinear_arith)
                    requires
                        sum <= 255 * count,
                        count >= 1,
                ;
            }
            let val: u8 = (sum / count) as u8;
            let ghost i = y * w + x;
            proof {
                vstd::arithmetic::div_mod::lemma_fundamental_div_mod_converse(
                    i as int,
                    w as int,
                    y as int,
                    x as int,
                );
                assert(target[i as int] == blur_v_at(src@, w, h, r, x as int, y as int));
                assert(val == blur_v_at(src@, w, h, r, x as int, y as int));
            }
            out.push(val);
            x += 1;
        }
        proof {
            lemma_row_step(y as int, w as int);
        }
        y += 1;
    }
    proof {
        assert((h as int) * (w as int) == (w as int) * (h as int)) by (nonlinear_arith);
        assert(out@ =~= target);
    }
    out
}

/// Rasterizes one glyph: builds the base bitmap and applies the blur when
/// the radius is positive.  The result is exactly `glyph_bitmap`.
pub fn rasterize_glyph(cp: u32, size: u32, blur: u32) -> (out: Vec<u8>)
    requires
        1 <= size <= MAX_FONT_SIZE,
        blur <= MAX_BLUR,
    ensures
        out@ == glyph_bitmap(cp, size, blur),
        out@.len() == spec_cell_w(cp, size, blur) * spec_cell_h(size, blur),
{
    proof {
        lemma_cell_bounds(cp, size, blur);
    }
    let w: u32 = glyph_cell_w(cp, size, blur);
    let h: u32 = glyph_cell_h(size, blur);
    let pad: u32 = blur + 2;
    let half = size / 2;
    let iw: u32 = (if half >= 1 {
        half
    } else {
        1
    }) + cp % 4;
    let q = 3 * size / 4;
    let ih: u32 = if q >= 1 {
        q
    } else {
        1
    };
    let ghost base_target = glyph_base(cp, size, blur);
    let mut base: Vec<u8> = Vec::new();
    let mut y: u32 = 0;
    while y < h
        invariant
            w == spec_cell_w(cp, size, blur),
            h == spec_cell_h(size, blur),
            pad == spec_pad(blur),
            iw == spec_ink_w(cp, size),
            ih == spec_ink_h(size),
            w <= 303,
            h <= 428,
            base_target == glyph_base(cp, size, blur),
            0 <= y <= h,
            base@.len() == y * w,
            forall|i: int| 0 <= i < base@.len() ==> base@[i] == base_target[i],
        decreases h - y,
    {
        let mut x: u32 = 0;
        while x < w
            invariant
                w == spec_cell_w(cp, size, blur),
                h == spec_cell_h(size, blur),
                pad == spec_pad(blur),
                iw == spec_ink_w(cp, size),
                ih == spec_ink_h(size),
                w <= 303,
                h <= 428,
                base_target == glyph_base(cp, size, blur),
                0 <= y < h,
                0 <= x <= w,
                base@.len() == y * w + x,
                forall|i: int| 0 <= i < base@.len() ==> base@[i] == base_target[i],
            decreases w - x,
        {
            let ink: bool = pad <= x && x < pad + iw && pad <= y && y < pad + ih;
            let v: u8 = if ink {
                255
            } else {
                0
            };
            let ghost i = y * w + x;
            proof {
                crate::atlas::lemma_index_bound(w as int, h as int, x as int, y as int);
                vstd::arithmetic::div_mod::lemma_fundamental_div_mod_converse(
                    i as int,
                    w as int,
                    y as int,
                    x as int,
                );
                assert(base_target[i as int] == v);
            }
            base.push(v);
            x += 1;
        }
        proof {
            lemma_row_step(y as int, w as int);
        }
        y += 1;
    }
    proof {
        assert((h as int) * (w as int) == (w as int) * (h as int)) by (nonlinear_arith);
        assert(base@ =~= base_target);
    }
    if blur == 0 {
        base
    } else {
        let hp = blur_pass_h(&base, w, h, blur);
        let vp = blur_pass_v(&hp, w, h, blur);
        proof {
            assert(vp@ == blur_both(glyph_base(cp, size, blur), w, h, blur));
        }
        vp
    }
}

/// A blur of radius zero is the identity: the clipped window around a texel
/// is the texel itself, in both passes.
pub proof fn lemma_blur_zero_identity(buf: Seq<u8>, w: u32, h: u32)
    requires
        buf.len() == w * h,
        1 <= w,
        1 <= h,
    ensures
        blur_both(buf, w, h, 0) =~= buf,
{
    let hp = blur_h(buf, w, h, 0);
    assert forall|i: int| 0 <= i < hp.len() implies hp[i] == buf[i] by {
        let x = i % (w as int);
        let y = i / (w as int);
        vstd::arithmetic::div_mod::lemma_fundamental_div_mod(i, w as int);
        vstd::arithmetic::div_mod::lemma_mod_bound(i, w as int);
        assert(0 <= y < h) by (nonlinear_arith)
            requires
                i == y * w + x,
                0 <= x < w,
                0 <= i < w * h,
                w >= 1,
                h >= 1,
        ;
        reveal_with_fuel(row_sum, 2);
        assert(i == y * (w as int) + x);
        let v = buf[y * (w as int) + x];
        assert(row_sum(buf, w as int, y, x, x + 1) == v);
        assert(((v as int) / 1int) as u8 == v);
        assert(blur_h_at(buf, w, 0, x, y) == v);
        assert(hp[i] == blur_h_at(buf, w, 0, x, y));
    }
    assert(hp =~= buf);
    let vp = blur_v(hp, w, h, 0);
    assert forall|i: int| 0 <= i < vp.len() implies vp[i] == buf[i] by {
        let x = i % (w as int);
        let y = i / (w as int);
        vstd::arithmetic::div_mod::lemma_fundamental_div_mod(i, w as int);
        vstd::arithmetic::div_mod::lemma_mod_bound(i, w as int);
        assert(0 <= y < h) by (nonlinear_arith)
            requires
                i == y * w + x,
                0 <= x < w,
                0 <= i < w * h,
                w >= 1,
                h >= 1,
        ;
        reveal_with_fuel(col_sum, 2);
        assert(i == y * (w as int) + x);
        let v = hp[y * (w as int) + x];
        assert(col_sum(hp, w as int, x, y, y + 1) == v);
        assert(((v as int) / 1int) as u8 == v);
        assert(blur_v_at(hp, w, h, 0, x, y) == v);
        assert(vp[i] == blur_v_at(hp, w, h, 0, x, y));
    }
}

/// Stepping one row forward in a row-major buffer adds one row of texels.
proof fn lemma_row_step(y: int, w: int)
    by (nonlinear_arith)
    ensures
        (y + 1) * w == y * w + w,
{
}

} // verus!
