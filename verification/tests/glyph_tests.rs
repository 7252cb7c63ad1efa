//! Tests of glyph rasterization, caching, and the engine's formulas.

use fontstash::engine;
use fontstash::{ErrorCode, FonsError, FontIx, FontStash, Rect, Renderer};

struct NullRenderer;

/// Records what `update` was last called with.
struct RecordingRenderer {
    last_update: Option<(Rect, u32, u32)>,
}

impl Renderer for RecordingRenderer {
    fn create(&mut self, _width: u32, _height: u32) -> bool {
        true
    }
    fn resize(&mut self, _width: u32, _height: u32) -> bool {
        true
    }
    fn update(&mut self, rect: Rect, _data: &Vec<u8>, width: u32, height: u32) -> bool {
        self.last_update = Some((rect, width, height));
        true
    }
    fn delete(&mut self) {}
}

impl Renderer for NullRenderer {
    fn create(&mut self, _width: u32, _height: u32) -> bool {
        true
    }
    fn resize(&mut self, _width: u32, _height: u32) -> bool {
        true
    }
    fn update(&mut self, _rect: Rect, _data: &Vec<u8>, _width: u32, _height: u32) -> bool {
        true
    }
    fn delete(&mut self) {}
}

fn sfnt_bytes() -> Vec<u8> {
    let mut d = vec![0u8, 1, 0, 0];
    d.extend_from_slice(&[0u8; 12]);
    d
}

fn stash_with_font(w: u32, h: u32) -> (FontStash, FontIx) {
    let mut s = FontStash::new(&mut NullRenderer, w, h).unwrap();
    let ix = s.add_font_mem("sans", &sfnt_bytes()).unwrap();
    s.set_font(ix);
    (s, ix)
}

#[test]
fn engine_metrics_are_the_documented_formulas() {
    // size 16: ascent (3*16+3)/4 = 12, descent 16-12 = 4, line (5*16+3)/4 = 20.
    assert_eq!(engine::font_ascent(16), 12);
    assert_eq!(engine::font_descent(16), 4);
    assert_eq!(engine::font_line_height(16), 20);
    // 'A' is 65, 65 % 4 == 1: ink 8+1 = 9 wide; pad 2; cell 13; advance 14.
    assert_eq!(engine::glyph_cell_w(65, 16, 0), 13);
    assert_eq!(engine::glyph_cell_h(16, 0), 16);
    assert_eq!(engine::glyph_advance(65, 16, 0), 14);
    assert_eq!(engine::glyph_yoff(16, 0), -14);
    // Blur widens the padding ring: pad 2+blur.
    assert_eq!(engine::glyph_cell_w(65, 16, 2), 17);
    assert_eq!(engine::glyph_cell_h(16, 2), 20);
}

#[test]
fn check_font_data_accepts_the_three_magics() {
    let mut ttf = vec![0u8, 1, 0, 0];
    ttf.extend_from_slice(&[0u8; 8]);
    assert!(engine::check_font_data(&ttf));
    let mut otto = b"OTTO".to_vec();
    otto.extend_from_slice(&[0u8; 8]);
    assert!(engine::check_font_data(&otto));
    let mut tru = b"true".to_vec();
    tru.extend_from_slice(&[0u8; 8]);
    assert!(engine::check_font_data(&tru));
    assert!(!engine::check_font_data(&vec![0u8, 1, 0, 0]));
    let mut bad = vec![1u8, 1, 1, 1];
    bad.extend_from_slice(&[0u8; 8]);
    assert!(!engine::check_font_data(&bad));
}

#[test]
fn rasterize_glyph_without_blur_is_ink_box_and_padding() {
    // 'A' at size 16, no blur: 13 x 16 cell, ink box at (2,2)..(11,14).
    let bmp = engine::rasterize_glyph(65, 16, 0);
    assert_eq!(bmp.len(), 13 * 16);
    for y in 0..16usize {
        for x in 0..13usize {
            let ink = (2..11).contains(&x) && (2..14).contains(&y);
            assert_eq!(bmp[y * 13 + x], if ink { 255 } else { 0 });
        }
    }
}

#[test]
fn rasterize_glyph_with_blur_softens_edges() {
    // 'A' at size 16, blur 2: 17 x 20 cell, ink at (4,4)..(13,16).
    let bmp = engine::rasterize_glyph(65, 16, 2);
    assert_eq!(bmp.len(), 17 * 20);
    // Cell corner: the whole window is padding.
    assert_eq!(bmp[0], 0);
    // Ink centre: the whole window is ink.
    assert_eq!(bmp[10 * 17 + 8], 255);
    // Left ink edge: 3 of 5 window columns are ink, twice averaged.
    assert_eq!(bmp[10 * 17 + 4], 153);
}

#[test]
fn lookup_miss_rasterizes_and_hit_returns_the_same() {
    let (mut s, ix) = stash_with_font(256, 256);
    let g1 = s.get_or_rasterize(ix, 'A', 16, 0).unwrap();
    assert_eq!((g1.rect.x, g1.rect.y, g1.rect.w, g1.rect.h), (0, 0, 13, 16));
    assert_eq!(g1.advance, 14);
    assert_eq!(g1.yoff, -14);
    assert_eq!(s.fonts[0].glyphs.len(), 1);
    let pixels_after_first: Vec<u8> = s.atlas.data.clone();
    // Repeated lookups return the same record and mutate nothing.
    let g2 = s.get_or_rasterize(ix, 'A', 16, 0).unwrap();
    assert_eq!(g1, g2);
    assert_eq!(s.fonts[0].glyphs.len(), 1);
    assert_eq!(s.atlas.data, pixels_after_first);
}

#[test]
fn lookup_blits_the_glyph_bitmap_into_the_atlas() {
    let (mut s, ix) = stash_with_font(256, 256);
    let g = s.get_or_rasterize(ix, 'A', 16, 0).unwrap();
    let bmp = engine::rasterize_glyph(65, 16, 0);
    let (data, w, _h) = s.with_pixels();
    for dy in 0..g.rect.h as usize {
        for dx in 0..g.rect.w as usize {
            let tex = data[(g.rect.y as usize + dy) * w as usize + g.rect.x as usize + dx];
            assert_eq!(tex, bmp[dy * g.rect.w as usize + dx]);
        }
    }
}

#[test]
fn distinct_keys_get_distinct_cells() {
    let (mut s, ix) = stash_with_font(256, 256);
    let ga = s.get_or_rasterize(ix, 'A', 16, 0).unwrap();
    let gb = s.get_or_rasterize(ix, 'B', 16, 0).unwrap();
    let ga_again = s.get_or_rasterize(ix, 'A', 16, 0).unwrap();
    assert_eq!(ga, ga_again);
    assert_eq!(s.fonts[0].glyphs.len(), 2);
    // The two cells do not overlap.
    assert!(
        ga.rect.x + ga.rect.w <= gb.rect.x
            || gb.rect.x + gb.rect.w <= ga.rect.x
            || ga.rect.y + ga.rect.h <= gb.rect.y
            || gb.rect.y + gb.rect.h <= ga.rect.y
    );
    // Same codepoint at another size or blur is another glyph.
    s.get_or_rasterize(ix, 'A', 17, 0).unwrap();
    s.get_or_rasterize(ix, 'A', 16, 1).unwrap();
    assert_eq!(s.fonts[0].glyphs.len(), 4);
}

#[test]
fn unknown_font_index_is_found_no_font() {
    let (mut s, _ix) = stash_with_font(64, 64);
    let r = s.get_or_rasterize(FontIx::from_raw(7), 'A', 16, 0);
    assert!(matches!(r, Err(FonsError::FoundNoFont)));
}

#[test]
fn reset_invalidates_the_cache_and_rerasterizes() {
    let (mut s, ix) = stash_with_font(256, 256);
    s.get_or_rasterize(ix, 'A', 16, 0).unwrap();
    s.get_or_rasterize(ix, 'B', 16, 0).unwrap();
    assert_eq!(s.fonts[0].glyphs.len(), 2);
    s.reset_atlas(&mut NullRenderer, 256, 256).unwrap();
    // Every cached glyph is gone and the texture is cleared.
    assert!(s.fonts[0].glyphs.is_empty());
    assert!(s.atlas.data.iter().all(|&b| b == 0));
    // The next lookup is a miss and rasterizes anew, from the origin.
    let g = s.get_or_rasterize(ix, 'B', 16, 0).unwrap();
    assert_eq!((g.rect.x, g.rect.y), (0, 0));
    assert_eq!(s.fonts[0].glyphs.len(), 1);
}

#[test]
fn full_atlas_expands_and_finally_reports_atlas_full() {
    // A deliberately tiny 8 x 8 atlas; size-1 glyphs are 5 to 8 texels
    // wide and 5 tall, so the packer must expand (doubling the height)
    // many times and finally runs out at the 8192 cap.
    let (mut s, ix) = stash_with_font(8, 8);
    let mut placed = 0u32;
    let mut failed = 0u32;
    for n in 0..1700u32 {
        let c = char::from_u32(0x1000 + n).unwrap();
        match s.get_or_rasterize(ix, c, 1, 0) {
            Ok(_) => placed += 1,
            Err(FonsError::FailedToAllocFont) => failed += 1,
            Err(e) => panic!("unexpected error {:?}", e),
        }
    }
    // The atlas grew from 8 rows to the cap, its width untouched.
    assert_eq!(s.atlas.width, 8);
    assert_eq!(s.atlas.height, 8192);
    assert!(placed > 1000);
    assert!(failed > 0);
    assert!(s.events.iter().any(|e| e.code == ErrorCode::AtlasFull));
    // The first glyph's cell survived every expansion bit for bit.
    let g = s.fonts[0].glyphs[0];
    let bmp = engine::rasterize_glyph(g.codepoint, g.size, g.blur);
    let (data, w, _h) = s.with_pixels();
    for dy in 0..g.rect.h as usize {
        for dx in 0..g.rect.w as usize {
            let tex = data[(g.rect.y as usize + dy) * w as usize + g.rect.x as usize + dx];
            assert_eq!(tex, bmp[dy * g.rect.w as usize + dx]);
        }
    }
    // Internal growth follows the whole-texture-dirty protocol: the next
    // flush reports the new dimensions through update, covering the whole
    // texture, so the host re-creates its texture then.
    let mut rec = RecordingRenderer { last_update: None };
    s.flush(&mut rec).unwrap();
    let (rect, uw, uh) = rec.last_update.unwrap();
    assert_eq!((uw, uh), (8, 8192));
    assert_eq!((rect.x, rect.y, rect.w, rect.h), (0, 0, 8, 8192));
}

#[test]
fn host_supplied_bitmap_lands_verbatim() {
    // A host with its own rasterizer registers coverage for the model
    // cell; the cache blits the bytes untouched and layout uses the
    // glyph like any other.
    let (mut s, ix) = stash_with_font(256, 256);
    // 'A' at size 16, no blur: cell is 13 x 16.
    let mut bmp: Vec<u8> = Vec::new();
    for i in 0..13 * 16 {
        bmp.push((i % 251) as u8);
    }
    let g = s.add_glyph(ix, 'A', 16, 0, &bmp).unwrap();
    assert_eq!((g.rect.w, g.rect.h, g.advance, g.yoff), (13, 16, 14, -14));
    let (data, w, _h) = s.with_pixels();
    for dy in 0..16usize {
        for dx in 0..13usize {
            let tex = data[(g.rect.y as usize + dy) * w as usize + g.rect.x as usize + dx];
            assert_eq!(tex, bmp[dy * 13 + dx]);
        }
    }
    // A later lookup is a pure hit on the host's glyph.
    let g2 = s.get_or_rasterize(ix, 'A', 16, 0).unwrap();
    assert_eq!(g, g2);
    assert_eq!(s.fonts[0].glyphs.len(), 1);
}

#[test]
fn host_bitmap_is_rejected_when_wrong() {
    let (mut s, ix) = stash_with_font(256, 256);
    // Wrong length: the cell of 'A' at 16 is 13 * 16 bytes.
    assert!(matches!(
        s.add_glyph(ix, 'A', 16, 0, &vec![0u8; 10]),
        Err(FonsError::FailedToAllocFont)
    ));
    assert!(s.fonts[0].glyphs.is_empty());
    // A key that is already cached is not overwritten.
    s.get_or_rasterize(ix, 'A', 16, 0).unwrap();
    assert!(matches!(
        s.add_glyph(ix, 'A', 16, 0, &vec![9u8; 13 * 16]),
        Err(FonsError::FailedToAllocFont)
    ));
    assert_eq!(s.fonts[0].glyphs.len(), 1);
    // A foreign font index fails as usual.
    assert!(matches!(
        s.add_glyph(FontIx::from_raw(9), 'A', 16, 0, &vec![0u8; 13 * 16]),
        Err(FonsError::FoundNoFont)
    ));
}

#[test]
fn lookup_quantizes_size_and_blur() {
    let (mut s, ix) = stash_with_font(256, 256);
    // Out-of-range requests are clamped onto the same buckets.
    let g1 = s.get_or_rasterize(ix, 'A', 0, 99).unwrap();
    let g2 = s.get_or_rasterize(ix, 'A', 1, 20).unwrap();
    assert_eq!(g1, g2);
    assert_eq!(s.fonts[0].glyphs.len(), 1);
}
