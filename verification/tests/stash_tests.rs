//! Tests of the stash: font registration, styles, the style stack, and the
//! renderer boundary.

use fontstash::{ErrorCode, FonsError, FontStash, Rect, Renderer};
use fontstash::state::{AlignH, AlignV, INVALID_FONT, MAX_STATES};

struct NullRenderer;

impl Renderer for NullRenderer {
    fn create(&mut self, _width: u32, _height: u32) -> bool {
        true
    }
    fn resize(&mut self, _width: u32, _height: u32) -> bool {
        true
    }
    fn update(&mut self, _rect: Rect, _data: &Vec<u8>, _width: u32, _height: u32) -> bool {
        true
    }
    fn delete(&mut self) {}
}

struct RefusingRenderer;

impl Renderer for RefusingRenderer {
    fn create(&mut self, _width: u32, _height: u32) -> bool {
        false
    }
    fn resize(&mut self, _width: u32, _height: u32) -> bool {
        false
    }
    fn update(&mut self, _rect: Rect, _data: &Vec<u8>, _width: u32, _height: u32) -> bool {
        false
    }
    fn delete(&mut self) {}
}

fn sfnt_bytes() -> Vec<u8> {
    let mut d = vec![0u8, 1, 0, 0];
    d.extend_from_slice(&[0u8; 12]);
    d
}

fn new_stash(w: u32, h: u32) -> FontStash {
    FontStash::new(&mut NullRenderer, w, h).unwrap()
}

#[test]
fn new_stash_has_defaults() {
    let s = new_stash(256, 128);
    assert_eq!(s.atlas.width, 256);
    assert_eq!(s.atlas.height, 128);
    assert_eq!(s.states.len(), 1);
    let st = s.states[0];
    assert_eq!(st.font, INVALID_FONT);
    assert_eq!(st.size, 12);
    assert_eq!(st.color, 0xFFFF_FFFF);
    assert_eq!(st.blur, 0);
    assert_eq!(st.spacing, 0);
    assert!(matches!(st.align.horizontal, AlignH::Left));
    assert!(matches!(st.align.vertical, AlignV::Baseline));
    assert!(s.fonts.is_empty());
    assert!(s.events.is_empty());
}

#[test]
fn new_clamps_dimensions() {
    let s = new_stash(0, 100_000);
    assert_eq!(s.atlas.width, 1);
    assert_eq!(s.atlas.height, 8192);
}

#[test]
fn refused_create_is_render_resize_error() {
    let r = FontStash::new(&mut RefusingRenderer, 64, 64);
    assert!(matches!(r, Err(FonsError::RenderResizeError)));
}

#[test]
fn add_font_and_find_by_name() {
    let mut s = new_stash(256, 256);
    let ix = s.add_font_mem("sans", &sfnt_bytes()).unwrap();
    assert_eq!(ix.raw(), 0);
    let found = s.font_ix_by_name("sans").unwrap();
    assert_eq!(found.raw(), 0);
    assert!(s.font_ix_by_name("serif").is_none());
    let ix2 = s.add_font_mem("serif", &sfnt_bytes()).unwrap();
    assert_eq!(ix2.raw(), 1);
}

#[test]
fn add_font_rejects_bad_data() {
    let mut s = new_stash(256, 256);
    // Too short.
    assert!(matches!(
        s.add_font_mem("a", &vec![0, 1, 0, 0]),
        Err(FonsError::FailedToAllocFont)
    ));
    // Wrong magic.
    let mut bad = vec![9u8, 9, 9, 9];
    bad.extend_from_slice(&[0u8; 12]);
    assert!(matches!(
        s.add_font_mem("a", &bad),
        Err(FonsError::FailedToAllocFont)
    ));
    assert!(s.fonts.is_empty());
}

#[test]
fn add_font_rejects_duplicate_name() {
    let mut s = new_stash(256, 256);
    s.add_font_mem("sans", &sfnt_bytes()).unwrap();
    assert!(matches!(
        s.add_font_mem("sans", &sfnt_bytes()),
        Err(FonsError::FailedToAllocFont)
    ));
    assert_eq!(s.fonts.len(), 1);
}

#[test]
fn font_index_survives_roundtrip() {
    let mut s = new_stash(256, 256);
    let ix = s.add_font_mem("sans", &sfnt_bytes()).unwrap();
    let raw = ix.raw();
    let back = fontstash::FontIx::from_raw(raw);
    assert_eq!(back, ix);
}

#[test]
fn setters_write_the_current_style_and_clamp() {
    let mut s = new_stash(256, 256);
    s.set_size(0);
    assert_eq!(s.states[0].size, 1);
    s.set_size(100_000);
    assert_eq!(s.states[0].size, 512);
    s.set_size(16);
    assert_eq!(s.states[0].size, 16);
    s.set_blur(99);
    assert_eq!(s.states[0].blur, 20);
    s.set_blur(3);
    assert_eq!(s.states[0].blur, 3);
    s.set_spacing(-100_000);
    assert_eq!(s.states[0].spacing, -1024);
    s.set_spacing(7);
    assert_eq!(s.states[0].spacing, 7);
    s.set_color(0x11223344);
    assert_eq!(s.states[0].color, 0x11223344);
    s.set_align(fontstash::Align {
        horizontal: AlignH::Right,
        vertical: AlignV::Top,
    });
    assert!(matches!(s.states[0].align.horizontal, AlignH::Right));
}

#[test]
fn state_stack_bounds() {
    let mut s = new_stash(256, 256);
    // The stack starts with one state; pushing up to the maximum works.
    for _ in 1..MAX_STATES {
        assert!(s.push_state().is_ok());
    }
    assert_eq!(s.states.len(), MAX_STATES);
    // One more fails with StatesOverflow and changes nothing.
    assert_eq!(s.push_state(), Err(ErrorCode::StatesOverflow));
    assert_eq!(s.states.len(), MAX_STATES);
    assert!(s
        .events
        .iter()
        .any(|e| e.code == ErrorCode::StatesOverflow));
    // Popping down to one state works; popping the base fails.
    for _ in 1..MAX_STATES {
        assert!(s.pop_state().is_ok());
    }
    assert_eq!(s.states.len(), 1);
    assert_eq!(s.pop_state(), Err(ErrorCode::StatesUnderflow));
    assert_eq!(s.states.len(), 1);
    assert!(s
        .events
        .iter()
        .any(|e| e.code == ErrorCode::StatesUnderflow));
    // Clear always leaves exactly one default state.
    s.push_state().unwrap();
    s.set_size(99);
    s.clear_state();
    assert_eq!(s.states.len(), 1);
    assert_eq!(s.states[0].size, 12);
}

#[test]
fn push_copies_and_pop_restores() {
    let mut s = new_stash(256, 256);
    s.set_size(30);
    s.push_state().unwrap();
    assert_eq!(s.states[1].size, 30);
    s.set_size(44);
    assert_eq!(s.states[1].size, 44);
    assert_eq!(s.states[0].size, 30);
    s.pop_state().unwrap();
    assert_eq!(s.states.len(), 1);
    assert_eq!(s.states[0].size, 30);
}

#[test]
fn expand_atlas_grows_and_refusal_changes_nothing() {
    let mut s = new_stash(32, 32);
    assert!(s.expand_atlas(&mut NullRenderer, 64, 48).is_ok());
    assert_eq!(s.atlas_size(), [64, 48]);
    // A smaller request never shrinks.
    assert!(s.expand_atlas(&mut NullRenderer, 8, 8).is_ok());
    assert_eq!(s.atlas_size(), [64, 48]);
    let r = s.expand_atlas(&mut RefusingRenderer, 128, 128);
    assert!(matches!(r, Err(FonsError::RenderResizeError)));
    assert_eq!(s.atlas_size(), [64, 48]);
}

#[test]
fn expand_atlas_preserves_glyph_pixels() {
    let mut s = new_stash(64, 64);
    let ix = s.add_font_mem("sans", &sfnt_bytes()).unwrap();
    s.set_font(ix);
    let g = s.get_or_rasterize(ix, 'Q', 12, 1).unwrap();
    let before: Vec<u8> = {
        let (data, w, _h) = s.with_pixels();
        let mut v = Vec::new();
        for dy in 0..g.rect.h as usize {
            for dx in 0..g.rect.w as usize {
                v.push(data[(g.rect.y as usize + dy) * w as usize + g.rect.x as usize + dx]);
            }
        }
        v
    };
    s.expand_atlas(&mut NullRenderer, 200, 100).unwrap();
    let (data, w, _h) = s.with_pixels();
    let mut i = 0;
    for dy in 0..g.rect.h as usize {
        for dx in 0..g.rect.w as usize {
            assert_eq!(
                data[(g.rect.y as usize + dy) * w as usize + g.rect.x as usize + dx],
                before[i]
            );
            i += 1;
        }
    }
    // The cached record survives an expand untouched and still hits.
    let g2 = s.get_or_rasterize(ix, 'Q', 12, 1).unwrap();
    assert_eq!(g, g2);
}

#[test]
fn reset_atlas_refusal_changes_nothing() {
    let mut s = new_stash(32, 32);
    let r = s.reset_atlas(&mut RefusingRenderer, 64, 64);
    assert!(matches!(r, Err(FonsError::RenderResizeError)));
    assert_eq!(s.atlas_size(), [32, 32]);
}

#[test]
fn with_pixels_exposes_the_buffer() {
    let s = new_stash(16, 8);
    let (data, w, h) = s.with_pixels();
    assert_eq!(w, 16);
    assert_eq!(h, 8);
    assert_eq!(data.len(), 16 * 8);
    assert!(data.iter().all(|&b| b == 0));
}

#[test]
fn flush_sends_dirty_region_once() {
    let mut s = new_stash(64, 64);
    let ix = s.add_font_mem("sans", &sfnt_bytes()).unwrap();
    s.set_font(ix);
    s.set_size(8);
    s.get_or_rasterize(ix, 'x', 8, 0).unwrap();
    assert!(s.atlas.dirty.is_some());
    // A refusing renderer leaves the region dirty for a retry.
    assert!(matches!(
        s.flush(&mut RefusingRenderer),
        Err(FonsError::RenderResizeError)
    ));
    assert!(s.atlas.dirty.is_some());
    assert!(s.flush(&mut NullRenderer).is_ok());
    assert!(s.atlas.dirty.is_none());
    // Nothing dirty: flush does nothing and succeeds.
    assert!(s.flush(&mut RefusingRenderer).is_ok());
}

#[test]
fn error_events_can_be_cleared() {
    let mut s = new_stash(16, 16);
    assert_eq!(s.pop_state(), Err(ErrorCode::StatesUnderflow));
    assert_eq!(s.error_events().len(), 1);
    assert_eq!(s.error_events()[0].code, ErrorCode::StatesUnderflow);
    s.clear_error_events();
    assert!(s.error_events().is_empty());
}
