//! Tests of single-line layout: quads, alignment, measurement, and the
//! layout scenarios around missing fonts and determinism.

use fontstash::state::{AlignH, AlignV};
use fontstash::{Align, FonsError, FonsQuad, FontIx, FontStash, Rect, Renderer};

struct NullRenderer;

impl Renderer for NullRenderer {
    fn create(&mut self, _width: u32, _height: u32) -> bool {
        true
    }
    fn resize(&mut self, _width: u32, _height: u32) -> bool {
        true
    }
    fn update(&mut self, _rect: Rect, _data: &Vec<u8>, _width: u32, _height: u32) -> bool {
        true
    }
    fn delete(&mut self) {}
}

fn sfnt_bytes() -> Vec<u8> {
    let mut d = vec![0u8, 1, 0, 0];
    d.extend_from_slice(&[0u8; 12]);
    d
}

fn stash_with_font(w: u32, h: u32) -> (FontStash, FontIx) {
    let mut s = FontStash::new(&mut NullRenderer, w, h).unwrap();
    let ix = s.add_font_mem("sans", &sfnt_bytes()).unwrap();
    s.set_font(ix);
    (s, ix)
}

fn collect(s: &mut FontStash, text: &str) -> Vec<FonsQuad> {
    let mut it = s.text_iter(text).unwrap();
    let mut v = Vec::new();
    while let Some(q) = it.next() {
        v.push(q);
    }
    v
}

#[test]
fn layout_without_font_is_found_no_font() {
    let mut s = FontStash::new(&mut NullRenderer, 64, 64).unwrap();
    let r = s.text_iter("hello");
    assert!(matches!(r, Err(FonsError::FoundNoFont)));
    // Nothing was rasterized.
    assert!(s.atlas.data.iter().all(|&b| b == 0));
    // A stale index fails the same way.
    s.set_font(FontIx::from_raw(42));
    assert!(matches!(s.text_iter("x"), Err(FonsError::FoundNoFont)));
}

#[test]
fn two_glyph_line_advances_left_to_right() {
    let (mut s, _ix) = stash_with_font(256, 256);
    s.set_size(16);
    s.set_color(0xFFFF_FFFF);
    let quads = collect(&mut s, "AB");
    assert_eq!(quads.len(), 2);
    let (qa, qb) = (quads[0], quads[1]);
    // 'A': cell 13 x 16, advance 14, baseline at y = 0.
    assert_eq!((qa.x0, qa.y0, qa.x1, qa.y1), (0, -14, 13, 2));
    assert_eq!((qa.s0, qa.t0, qa.s1, qa.t1), (0, 0, 13, 16));
    // 'B': cell 14 x 16, placed right of 'A' in the atlas and on screen.
    assert_eq!((qb.x0, qb.y0, qb.x1, qb.y1), (14, -14, 28, 2));
    assert_eq!((qb.s0, qb.t0, qb.s1, qb.t1), (13, 0, 27, 16));
    // No overlap, left-to-right advance.
    assert!(qb.x0 >= qa.x1);
    // Both atlas cells lie within the texture.
    let [w, h] = s.atlas_size();
    assert!(qa.s1 <= w && qa.t1 <= h && qb.s1 <= w && qb.t1 <= h);
}

#[test]
fn layout_is_deterministic_once_cached() {
    let (mut s, _ix) = stash_with_font(256, 256);
    s.set_size(16);
    // First call populates the cache.
    let first = collect(&mut s, "Hello");
    // With cache and atlas unchanged, repeated layouts are identical.
    let second = collect(&mut s, "Hello");
    let third = collect(&mut s, "Hello");
    assert_eq!(second, third);
    // The first call already produced the same quads: placement happened
    // on the first lookups and is stable afterwards.
    assert_eq!(first, second);
}

#[test]
fn iterator_hands_quads_out_once() {
    let (mut s, _ix) = stash_with_font(256, 256);
    s.set_size(16);
    let mut it = s.text_iter("AB").unwrap();
    assert_eq!(it.len(), 2);
    assert!(it.next().is_some());
    assert!(it.next().is_some());
    assert!(it.next().is_none());
    assert!(it.next().is_none());
}

#[test]
fn iterator_carries_the_style_color() {
    let (mut s, _ix) = stash_with_font(256, 256);
    s.set_size(16);
    s.set_color(0x1234_5678);
    let it = s.text_iter("A").unwrap();
    assert_eq!(it.color, 0x1234_5678);
}

#[test]
fn spacing_stretches_the_line() {
    let (mut s, _ix) = stash_with_font(256, 256);
    s.set_size(16);
    s.set_spacing(5);
    let quads = collect(&mut s, "AA");
    assert_eq!(quads.len(), 2);
    // advance of 'A' is 14, plus 5 of spacing.
    assert_eq!(quads[1].x0 - quads[0].x0, 19);
}

#[test]
fn center_and_right_alignment_shift_the_run() {
    let (mut s, _ix) = stash_with_font(256, 256);
    s.set_size(16);
    // Run width of "AB" is 14 + 15 = 29.
    let left = collect(&mut s, "AB");
    s.set_align(Align { horizontal: AlignH::Center, vertical: AlignV::Baseline });
    let center = collect(&mut s, "AB");
    s.set_align(Align { horizontal: AlignH::Right, vertical: AlignV::Baseline });
    let right = collect(&mut s, "AB");
    assert_eq!(left[0].x0, 0);
    assert_eq!(center[0].x0, -14);
    assert_eq!(right[0].x0, -29);
    // Vertical positions are untouched by horizontal alignment.
    assert_eq!(left[0].y0, center[0].y0);
}

#[test]
fn vertical_alignment_shifts_the_baseline() {
    let (mut s, _ix) = stash_with_font(256, 256);
    s.set_size(16);
    // Baseline: the cell top of 'A' sits 14 above the pen.
    let base = collect(&mut s, "A");
    assert_eq!(base[0].y0, -14);
    // Top: the baseline moves down by the ascent (12).
    s.set_align(Align { horizontal: AlignH::Left, vertical: AlignV::Top });
    let top = collect(&mut s, "A");
    assert_eq!(top[0].y0, -2);
    // Bottom: the baseline moves up by the descent (4).
    s.set_align(Align { horizontal: AlignH::Left, vertical: AlignV::Bottom });
    let bottom = collect(&mut s, "A");
    assert_eq!(bottom[0].y0, -18);
}

#[test]
fn skipped_glyphs_keep_the_pen_advancing() {
    // An atlas capped so tightly that some glyph of the line cannot be
    // placed: the glyph is skipped, the rest of the line keeps its
    // positions.
    let (mut s, _ix) = stash_with_font(8, 8192);
    s.set_size(1);
    // Size-1 cells are 5..8 wide and 5 tall; 8192 rows take 1638 glyphs.
    let mut text = String::new();
    for n in 0..1640u32 {
        text.push(char::from_u32(0x1000 + n).unwrap());
    }
    let quads = collect(&mut s, &text);
    assert!(quads.len() < 1640);
    assert!(!quads.is_empty());
    // Quads stay in codepoint order with increasing x.
    for pair in quads.windows(2) {
        assert!(pair[0].x1 <= pair[1].x0);
    }
}

#[test]
fn text_bounds_and_size_match_the_formulas() {
    let (mut s, _ix) = stash_with_font(256, 256);
    s.set_size(16);
    // "AB": pens 10, 24, 39; cell edges 23 and 38; cell band 16 tall
    // starting 14 above the baseline.
    let b = s.text_bounds_oneline([10, 20], "AB");
    assert_eq!(b, [10, 6, 39, 22]);
    let sz = s.text_size_oneline("AB");
    assert_eq!(sz, [29, 16]);
    // Measuring rasterizes nothing.
    assert!(s.fonts[0].glyphs.is_empty());
}

#[test]
fn text_bounds_contain_the_laid_out_quads() {
    let (mut s, _ix) = stash_with_font(256, 256);
    s.set_size(16);
    let b = s.text_bounds_oneline([0, 0], "ABAB");
    let quads = collect(&mut s, "ABAB");
    assert_eq!(quads.len(), 4);
    assert!(b[0] <= b[2] && b[1] <= b[3]);
    for q in &quads {
        assert!(b[0] <= q.x0 && q.x1 <= b[2]);
        assert!(b[1] <= q.y0 && q.y1 <= b[3]);
    }
}

#[test]
fn text_bounds_contain_quads_under_negative_spacing() {
    let (mut s, _ix) = stash_with_font(256, 256);
    s.set_size(16);
    s.set_spacing(-20);
    let b = s.text_bounds_oneline([0, 0], "AB");
    let quads = collect(&mut s, "AB");
    assert_eq!(quads.len(), 2);
    assert!(b[0] <= b[2] && b[1] <= b[3]);
    for q in &quads {
        assert!(b[0] <= q.x0 && q.x1 <= b[2]);
        assert!(b[1] <= q.y0 && q.y1 <= b[3]);
    }
    // The pen walks backwards here, so the left edge is the final pen.
    assert_eq!(b[0], -11);
    assert_eq!(b[2], 13);
}

#[test]
fn text_bounds_without_font_collapse_to_the_pen() {
    let s = FontStash::new(&mut NullRenderer, 64, 64).unwrap();
    assert_eq!(s.text_bounds_oneline([3, 4], "xyz"), [3, 4, 3, 4]);
    assert_eq!(s.text_size_oneline("xyz"), [0, 0]);
}

#[test]
fn empty_text_yields_no_quads() {
    let (mut s, _ix) = stash_with_font(64, 64);
    s.set_size(16);
    let quads = collect(&mut s, "");
    assert!(quads.is_empty());
    // An empty run has no width; the height is the style's cell band.
    assert_eq!(s.text_size_oneline(""), [0, 16]);
}

#[test]
fn from_text_lays_out_at_the_given_position() {
    let (mut s, _ix) = stash_with_font(256, 256);
    s.set_size(16);
    let mut it = fontstash::FonsTextIter::from_text(&mut s, 100, 50, "A").unwrap();
    let q = it.next().unwrap();
    assert_eq!((q.x0, q.y0, q.x1, q.y1), (100, 36, 113, 52));
}
