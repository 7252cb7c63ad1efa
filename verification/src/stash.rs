//! The font stash: the context that owns the font table, the glyph cache,
//! the atlas, and the style stack.
//!
//! The stash is a plain owned value; callers that want to share one between
//! several sites can wrap it in their own shared handle.  It must not be
//! used from several threads without external synchronisation.

use vstd::prelude::*;
use crate::atlas::{Atlas, Rect, MAX_ATLAS_DIM};
use crate::engine;
use crate::engine::{MAX_BLUR, MAX_FONT_SIZE};
use crate::error::{ErrorCode, ErrorEvent, FonsError};
use crate::renderer::Renderer;
use crate::state::{clamp_blur, clamp_size, clamp_spacing, Align, Flags, FonsState, MAX_STATES};

verus! {

/// Largest number of fonts the table takes before `add_font_mem` reports
/// `FailedToAllocFont`.
pub const MAX_FONTS: usize = 1024;

/// Index of a registered font, as handed out by `add_font_mem`.
#[derive(Debug, Clone, Copy, PartialEq, Eq, Structural)]
pub struct FontIx(pub u32);

impl FontIx {
    /// The numeric value of the index.
    pub fn raw(&self) -> (r: u32)
        ensures
            r == self.0,
    {
        self.0
    }

    /// Rebuilds an index from its numeric value.  The value is trusted to
    /// come from `raw`; layout with a stale or foreign index fails with
    /// `FoundNoFont` rather than crashing.
    pub fn from_raw(ix: u32) -> (r: FontIx)
        ensures
            r.0 == ix,
    {
        FontIx(ix)
    }
}

/// One cached glyph: its key, its atlas cell, and its metrics.  The
/// engine's horizontal bearing is zero — a glyph's cell starts exactly at
/// the pen — so only the vertical offset is carried.
#[derive(Debug, Clone, Copy, PartialEq, Eq, Structural)]
pub struct Glyph {
    /// Unicode codepoint.
    pub codepoint: u32,
    /// Quantized pixel size (whole pixels).
    pub size: u32,
    /// Quantized blur radius (whole pixels).
    pub blur: u32,
    /// The glyph's cell in the atlas.
    pub rect: Rect,
    /// Horizontal advance in pixels.
    pub advance: u32,
    /// Vertical offset from the baseline to the cell top (negative).
    pub yoff: i32,
}

/// One registered font: its name, its binary data (owned for the font's
/// lifetime), and its glyph cache.
#[derive(Debug, Clone)]
pub struct Font {
    pub name: String,
    pub data: Vec<u8>,
    pub glyphs: Vec<Glyph>,
}

/// A glyph record carries the key `(cp, size, blur)`.
pub open spec fn glyph_key_is(g: Glyph, cp: u32, size: u32, blur: u32) -> bool {
    g.codepoint == cp && g.size == size && g.blur == blur
}

/// The index of the first cached glyph with the given key, if any.
pub open spec fn find_glyph(glyphs: Seq<Glyph>, cp: u32, size: u32, blur: u32) -> Option<int>
    decreases glyphs.len(),
{
    if glyphs.len() == 0 {
        None
    } else if glyph_key_is(glyphs[0], cp, size, blur) {
        Some(0int)
    } else {
        match find_glyph(glyphs.drop_first(), cp, size, blur) {
            Some(i) => Some(i + 1),
            None => None,
        }
    }
}

/// `find_glyph` returns the least index with the key.
pub proof fn lemma_find_glyph(glyphs: Seq<Glyph>, cp: u32, size: u32, blur: u32)
    ensures
        match find_glyph(glyphs, cp, size, blur) {
            Some(i) => 0 <= i < glyphs.len() && glyph_key_is(glyphs[i], cp, size, blur) && forall|
                k: int,
            |
                0 <= k < i ==> !glyph_key_is(#[trigger] glyphs[k], cp, size, blur),
            None => forall|k: int|
                0 <= k < glyphs.len() ==> !glyph_key_is(#[trigger] glyphs[k], cp, size, blur),
        },
    decreases glyphs.len(),
{
    if glyphs.len() == 0 {
    } else if glyph_key_is(glyphs[0], cp, size, blur) {
    } else {
        let rest = glyphs.drop_first();
        lemma_find_glyph(rest, cp, size, blur);
        match find_glyph(rest, cp, size, blur) {
            Some(i) => {
                assert(rest[i] == glyphs[i + 1]);
                assert forall|k: int| 0 <= k < i + 1 implies !glyph_key_is(
                    #[trigger] glyphs[k],
                    cp,
                    size,
                    blur,
                ) by {
                    if k > 0 {
                        assert(rest[k - 1] == glyphs[k]);
                    }
                }
            },
            None => {
                assert forall|k: int| 0 <= k < glyphs.len() implies !glyph_key_is(
                    #[trigger] glyphs[k],
                    cp,
                    size,
                    blur,
                ) by {
                    if k > 0 {
                        assert(rest[k - 1] == glyphs[k]);
                    }
                }
            },
        }
    }
}

/// An empty cache misses every key: after `reset_atlas` clears the glyph
/// caches, a lookup for any glyph cached before the reset is a miss and
/// re-rasterizes, so no stale rectangle is ever served.
pub proof fn lemma_reset_invalidates(glyphs: Seq<Glyph>, cp: u32, size: u32, blur: u32)
    requires
        glyphs.len() == 0,
    ensures
        find_glyph(glyphs, cp, size, blur) is None,
{
}

/// A glyph record is consistent with the engine: in-range key and exactly
/// the engine's metrics and cell dimensions for that key.
pub open spec fn glyph_wf(g: Glyph, aw: u32, ah: u32) -> bool {
    &&& 1 <= g.size <= MAX_FONT_SIZE
    &&& g.blur <= MAX_BLUR
    &&& g.rect.w == engine::spec_cell_w(g.codepoint, g.size, g.blur)
    &&& g.rect.h == engine::spec_cell_h(g.size, g.blur)
    &&& g.advance == engine::spec_advance(g.codepoint, g.size, g.blur)
    &&& g.yoff == engine::spec_yoff(g.size, g.blur)
    &&& g.rect.inside(aw, ah)
}

/// Two glyph records carry the same key.
pub open spec fn glyphs_same_key(a: Glyph, b: Glyph) -> bool {
    a.codepoint == b.codepoint && a.size == b.size && a.blur == b.blur
}

/// A font is consistent: accepted data and a well-formed glyph cache with
/// at most one record per key.
pub open spec fn font_wf(f: Font, aw: u32, ah: u32) -> bool {
    &&& engine::font_data_valid(f.data@)
    &&& forall|i: int| 0 <= i < f.glyphs@.len() ==> glyph_wf(#[trigger] f.glyphs@[i], aw, ah)
    &&& forall|i: int, j: int|
        0 <= i < j < f.glyphs@.len() ==> !glyphs_same_key(
            #[trigger] f.glyphs@[i],
            #[trigger] f.glyphs@[j],
        )
}

/// The context that owns fonts, glyph caches, atlas, style stack, and the
/// out-of-band error events.
#[derive(Clone)]
pub struct FontStash {
    pub atlas: Atlas,
    pub fonts: Vec<Font>,
    pub states: Vec<FonsState>,
    pub events: Vec<ErrorEvent>,
    pub flags: Flags,
}

impl FontStash {
    /// The current style: the top of the style stack.
    pub open spec fn cur(self) -> FonsState {
        self.states@.last()
    }

    /// Well-formedness of the whole context.
    pub open spec fn wf(self) -> bool {
        &&& self.atlas.wf()
        &&& 1 <= self.states@.len() <= MAX_STATES
        &&& forall|i: int| 0 <= i < self.states@.len() ==> (#[trigger] self.states@[i]).wf()
        &&& self.fonts@.len() <= MAX_FONTS
        &&& forall|i: int|
            0 <= i < self.fonts@.len() ==> font_wf(
                #[trigger] self.fonts@[i],
                self.atlas.width,
                self.atlas.height,
            )
        &&& forall|i: int, j: int|
            0 <= i < j < self.fonts@.len() ==> (#[trigger] self.fonts@[i]).name@ != (
            #[trigger] self.fonts@[j]).name@
    }

    /// Some font of the table carries this name.
    pub open spec fn name_taken(self, name: Seq<char>) -> bool {
        exists|i: int| 0 <= i < self.fonts@.len() && (#[trigger] self.fonts@[i]).name@ == name
    }

    /// Creates a stash with an atlas of the requested dimensions (clamped
    /// into `1..=MAX_ATLAS_DIM`), an empty font table, and a single default
    /// style.  The renderer is asked to create the texture first; `false`
    /// is surfaced as `RenderResizeError` and nothing is built.
    pub fn new<R: Renderer>(renderer: &mut R, width: u32, height: u32) -> (r: Result<
        FontStash,
        FonsError,
    >)
        ensures
            match r {
                Ok(s) => {
                    &&& s.wf()
                    &&& s.atlas.width == clamp_dim(width)
                    &&& s.atlas.height == clamp_dim(height)
                    &&& s.atlas.placed@ =~= Seq::<Rect>::empty()
                    &&& s.fonts@ =~= Seq::<Font>::empty()
                    &&& s.states@ =~= seq![FonsState::spec_default()]
                    &&& s.events@ =~= Seq::<ErrorEvent>::empty()
                    &&& s.flags == Flags::TopLeft
                },
                Err(e) => e == FonsError::RenderResizeError,
            },
    {
        let w = clamp_dim_exec(width);
        let h = clamp_dim_exec(height);
        if !renderer.create(w, h) {
            return Err(FonsError::RenderResizeError);
        }
        let mut states: Vec<FonsState> = Vec::new();
        states.push(FonsState::base());
        let s = FontStash {
            atlas: Atlas::new(w, h),
            fonts: Vec::new(),
            states,
            events: Vec::new(),
            flags: Flags::TopLeft,
        };
        proof {
            assert(s.states@ =~= seq![FonsState::spec_default()]);
        }
        Ok(s)
    }
}

impl FontStash {
    /// The style stack with the current style replaced by `s`.
    pub open spec fn with_cur(self, s: FonsState) -> Seq<FonsState> {
        self.states@.update(self.states@.len() - 1, s)
    }

    /// Everything but the style stack and the events is unchanged.
    pub open spec fn same_but_states(self, o: FontStash) -> bool {
        self.atlas == o.atlas && self.fonts == o.fonts && self.flags == o.flags
    }

    /// Pushes a copy of the current style.  Fails with `StatesOverflow`,
    /// recording an event, when the stack already holds `MAX_STATES`
    /// styles; the stack is then unchanged.
    pub fn push_state(&mut self) -> (r: Result<(), ErrorCode>)
        requires
            old(self).wf(),
        ensures
            final(self).wf(),
            final(self).same_but_states(*old(self)),
            old(self).states@.len() < MAX_STATES ==> ({
                &&& r == Ok::<(), ErrorCode>(())
                &&& final(self).states@ == old(self).states@.push(old(self).cur())
                &&& final(self).events@ == old(self).events@
            }),
            old(self).states@.len() >= MAX_STATES ==> ({
                &&& r == Err::<(), ErrorCode>(ErrorCode::StatesOverflow)
                &&& final(self).states@ == old(self).states@
                &&& final(self).events@ == old(self).events@.push(
                    ErrorEvent { code: ErrorCode::StatesOverflow, value: MAX_STATES as u32 },
                )
            }),
    {
        if self.states.len() < MAX_STATES {
            let top = self.states[self.states.len() - 1];
            self.states.push(top);
            Ok(())
        } else {
            self.events.push(
                ErrorEvent { code: ErrorCode::StatesOverflow, value: MAX_STATES as u32 },
            );
            Err(ErrorCode::StatesOverflow)
        }
    }

    /// Pops the current style, restoring the previous one.  Fails with
    /// `StatesUnderflow`, recording an event, when only the base style is
    /// left; the stack is then unchanged.
    pub fn pop_state(&mut self) -> (r: Result<(), ErrorCode>)
        requires
            old(self).wf(),
        ensures
            final(self).wf(),
            final(self).same_but_states(*old(self)),
            old(self).states@.len() > 1 ==> ({
                &&& r == Ok::<(), ErrorCode>(())
                &&& final(self).states@ == old(self).states@.drop_last()
                &&& final(self).events@ == old(self).events@
            }),
            old(self).states@.len() == 1 ==> ({
                &&& r == Err::<(), ErrorCode>(ErrorCode::StatesUnderflow)
                &&& final(self).states@ == old(self).states@
                &&& final(self).events@ == old(self).events@.push(
                    ErrorEvent { code: ErrorCode::StatesUnderflow, value: 1u32 },
                )
            }),
    {
        if self.states.len() > 1 {
            self.states.pop();
            proof {
                assert(self.states@ =~= old(self).states@.drop_last());
            }
            Ok(())
        } else {
            self.events.push(ErrorEvent { code: ErrorCode::StatesUnderflow, value: 1u32 });
            Err(ErrorCode::StatesUnderflow)
        }
    }

    /// Resets the stack to a single default style.  Always succeeds.
    pub fn clear_state(&mut self)
        requires
            old(self).wf(),
        ensures
            final(self).wf(),
            final(self).same_but_states(*old(self)),
            final(self).events@ == old(self).events@,
            final(self).states@ =~= seq![FonsState::spec_default()],
    {
        self.states.clear();
        self.states.push(FonsState::base());
    }

    /// Replaces the current style.
    fn set_cur(&mut self, s: FonsState)
        requires
            old(self).wf(),
            s.wf(),
        ensures
            final(self).wf(),
            final(self).same_but_states(*old(self)),
            final(self).events@ == old(self).events@,
            final(self).states@ == old(self).with_cur(s),
            final(self).cur() == s,
    {
        let n = self.states.len();
        self.states[n - 1] = s;
    }

    /// Selects the font used by subsequent layout calls.  The index is not
    /// checked here: layout with an index that no font carries fails with
    /// `FoundNoFont`.
    pub fn set_font(&mut self, font: FontIx)
        requires
            old(self).wf(),
        ensures
            final(self).wf(),
            final(self).same_but_states(*old(self)),
            final(self).events@ == old(self).events@,
            final(self).states@ == old(self).with_cur(
                FonsState { font: font.0, ..old(self).cur() },
            ),
    {
        let top = self.states[self.states.len() - 1];
        self.set_cur(FonsState { font: font.0, ..top });
    }

    /// Sets the pixel size, clamped into `1..=MAX_FONT_SIZE`.
    pub fn set_size(&mut self, size: u32)
        requires
            old(self).wf(),
        ensures
            final(self).wf(),
            final(self).same_but_states(*old(self)),
            final(self).events@ == old(self).events@,
            final(self).states@ == old(self).with_cur(
                FonsState { size: clamp_size(size), ..old(self).cur() },
            ),
    {
        let v = if size < 1 {
            1
        } else if size > MAX_FONT_SIZE {
            MAX_FONT_SIZE
        } else {
            size
        };
        let top = self.states[self.states.len() - 1];
        self.set_cur(FonsState { size: v, ..top });
    }

    /// Sets the packed RGBA color carried on to the consumer of quads.
    pub fn set_color(&mut self, color: u32)
        requires
            old(self).wf(),
        ensures
            final(self).wf(),
            final(self).same_but_states(*old(self)),
            final(self).events@ == old(self).events@,
            final(self).states@ == old(self).with_cur(
                FonsState { color, ..old(self).cur() },
            ),
    {
        let top = self.states[self.states.len() - 1];
        self.set_cur(FonsState { color, ..top });
    }

    /// Sets the per-glyph spacing, clamped into `-MAX_SPACING..=MAX_SPACING`.
    pub fn set_spacing(&mut self, spacing: i32)
        requires
            old(self).wf(),
        ensures
            final(self).wf(),
            final(self).same_but_states(*old(self)),
            final(self).events@ == old(self).events@,
            final(self).states@ == old(self).with_cur(
                FonsState { spacing: clamp_spacing(spacing), ..old(self).cur() },
            ),
    {
        let v = if spacing < -crate::state::MAX_SPACING {
            -crate::state::MAX_SPACING
        } else if spacing > crate::state::MAX_SPACING {
            crate::state::MAX_SPACING
        } else {
            spacing
        };
        let top = self.states[self.states.len() - 1];
        self.set_cur(FonsState { spacing: v, ..top });
    }

    /// Sets the blur radius, clamped into `0..=MAX_BLUR`.
    pub fn set_blur(&mut self, blur: u32)
        requires
            old(self).wf(),
        ensures
            final(self).wf(),
            final(self).same_but_states(*old(self)),
            final(self).events@ == old(self).events@,
            final(self).states@ == old(self).with_cur(
                FonsState { blur: clamp_blur(blur), ..old(self).cur() },
            ),
    {
        let v = if blur > MAX_BLUR {
            MAX_BLUR
        } else {
            blur
        };
        let top = self.states[self.states.len() - 1];
        self.set_cur(FonsState { blur: v, ..top });
    }

    /// Sets the alignment of quads returned by layout calls.
    pub fn set_align(&mut self, align: Align)
        requires
            old(self).wf(),
        ensures
            final(self).wf(),
            final(self).same_but_states(*old(self)),
            final(self).events@ == old(self).events@,
            final(self).states@ == old(self).with_cur(
                FonsState { align, ..old(self).cur() },
            ),
    {
        let top = self.states[self.states.len() - 1];
        self.set_cur(FonsState { align, ..top });
    }
}

/// The target width of `expand_atlas`: at least the current width, at most
/// `MAX_ATLAS_DIM`.
pub open spec fn expand_dim(cur: u32, req: u32) -> u32 {
    if clamp_dim(req) < cur {
        cur
    } else {
        clamp_dim(req)
    }
}

impl FontStash {
    /// Grows the atlas texture to at least the requested dimensions
    /// (clamped into the engine's range and never below the current size),
    /// keeping every cached glyph valid and every texel of the old content
    /// in place.  The renderer is asked to resize first; `false` is
    /// surfaced as `RenderResizeError` and nothing changes.
    pub fn expand_atlas<R: Renderer>(&mut self, renderer: &mut R, width: u32, height: u32) -> (r:
        Result<(), FonsError>)
        requires
            old(self).wf(),
        ensures
            final(self).wf(),
            match r {
                Ok(()) => {
                    &&& final(self).atlas.width == expand_dim(old(self).atlas.width, width)
                    &&& final(self).atlas.height == expand_dim(old(self).atlas.height, height)
                    &&& final(self).atlas.shelves@ == old(self).atlas.shelves@
                    &&& final(self).atlas.placed@ == old(self).atlas.placed@
                    &&& (forall|x: int, y: int|
                        0 <= x < old(self).atlas.width && 0 <= y < old(self).atlas.height ==> (
                        #[trigger] final(self).atlas.texel(x, y)) == old(self).atlas.texel(x, y))
                    &&& final(self).fonts@ == old(self).fonts@
                    &&& final(self).states@ == old(self).states@
                    &&& final(self).events@ == old(self).events@
                },
                Err(e) => {
                    &&& e == FonsError::RenderResizeError
                    &&& *final(self) == *old(self)
                },
            },
    {
        let cw = clamp_dim_exec(width);
        let ch = clamp_dim_exec(height);
        let w2 = if cw < self.atlas.width {
            self.atlas.width
        } else {
            cw
        };
        let h2 = if ch < self.atlas.height {
            self.atlas.height
        } else {
            ch
        };
        if !renderer.resize(w2, h2) {
            return Err(FonsError::RenderResizeError);
        }
        let ghost pre = *self;
        self.atlas.expand(w2, h2);
        proof {
            lemma_fonts_wf_grow(pre.fonts@, pre.atlas.width, pre.atlas.height, w2, h2);
        }
        Ok(())
    }

    /// Clears the atlas to the requested dimensions (clamped into the
    /// engine's range) and invalidates every cached glyph of every font:
    /// a lookup after the reset always re-rasterizes.  Fonts, styles, and
    /// events are kept.  The renderer is asked to resize first; `false` is
    /// surfaced as `RenderResizeError` and nothing changes.
    pub fn reset_atlas<R: Renderer>(&mut self, renderer: &mut R, width: u32, height: u32) -> (r:
        Result<(), FonsError>)
        requires
            old(self).wf(),
        ensures
            final(self).wf(),
            match r {
                Ok(()) => {
                    &&& final(self).atlas.width == clamp_dim(width)
                    &&& final(self).atlas.height == clamp_dim(height)
                    &&& final(self).atlas.placed@ =~= Seq::<Rect>::empty()
                    &&& (forall|i: int|
                        0 <= i < final(self).atlas.data@.len() ==> final(self).atlas.data@[i]
                            == 0u8)
                    &&& final(self).fonts@.len() == old(self).fonts@.len()
                    &&& (forall|i: int|
                        0 <= i < old(self).fonts@.len() ==> ({
                            &&& (#[trigger] final(self).fonts@[i]).name@ == old(
                                self,
                            ).fonts@[i].name@
                            &&& final(self).fonts@[i].data@ == old(self).fonts@[i].data@
                            &&& final(self).fonts@[i].glyphs@ =~= Seq::<Glyph>::empty()
                        }))
                    &&& final(self).states@ == old(self).states@
                    &&& final(self).events@ == old(self).events@
                },
                Err(e) => {
                    &&& e == FonsError::RenderResizeError
                    &&& *final(self) == *old(self)
                },
            },
    {
        let w2 = clamp_dim_exec(width);
        let h2 = clamp_dim_exec(height);
        if !renderer.resize(w2, h2) {
            return Err(FonsError::RenderResizeError);
        }
        let ghost pre = *self;
        self.atlas.reset(w2, h2);
        let n = self.fonts.len();
        let mut i: usize = 0;
        while i < n
            invariant
                n == self.fonts@.len(),
                n == pre.fonts@.len(),
                0 <= i <= n,
                forall|k: int|
                    0 <= k < n ==> (#[trigger] self.fonts@[k]).name@ == pre.fonts@[k].name@
                        && self.fonts@[k].data@ == pre.fonts@[k].data@,
                forall|k: int|
                    0 <= k < i ==> (#[trigger] self.fonts@[k]).glyphs@ =~= Seq::<Glyph>::empty(),
                forall|k: int|
                    i <= k < n ==> (#[trigger] self.fonts@[k]).glyphs@ == pre.fonts@[k].glyphs@,
                forall|k: int, j: int|
                    0 <= k < j < n ==> (#[trigger] self.fonts@[k]).name@ != (
                    #[trigger] self.fonts@[j]).name@,
                forall|k: int| 0 <= k < n ==> engine::font_data_valid((#[trigger] self.fonts@[k]).data@),
                self.states@ == pre.states@,
                self.events@ == pre.events@,
                self.flags == pre.flags,
                self.atlas.wf(),
                self.atlas.width == clamp_dim(width),
                self.atlas.height == clamp_dim(height),
                self.atlas.placed@ =~= Seq::<Rect>::empty(),
                forall|p: int| 0 <= p < self.atlas.data@.len() ==> self.atlas.data@[p] == 0u8,
                1 <= self.states@.len() <= MAX_STATES,
                forall|p: int| 0 <= p < self.states@.len() ==> (#[trigger] self.states@[p]).wf(),
                n <= MAX_FONTS,
            decreases n - i,
        {
            self.fonts[i].glyphs.clear();
            i += 1;
        }
        proof {
            assert forall|k: int| 0 <= k < self.fonts@.len() implies font_wf(
                #[trigger] self.fonts@[k],
                self.atlas.width,
                self.atlas.height,
            ) by {
                assert(self.fonts@[k].glyphs@ =~= Seq::<Glyph>::empty());
            }
        }
        Ok(())
    }
}

/// Growing the texture keeps every font's cache well formed: a glyph cell
/// inside the old texture is inside the larger one.
proof fn lemma_fonts_wf_grow(fonts: Seq<Font>, aw: u32, ah: u32, nw: u32, nh: u32)
    requires
        forall|i: int| 0 <= i < fonts.len() ==> font_wf(#[trigger] fonts[i], aw, ah),
        aw <= nw,
        ah <= nh,
    ensures
        forall|i: int| 0 <= i < fonts.len() ==> font_wf(#[trigger] fonts[i], nw, nh),
{
    assert forall|i: int| 0 <= i < fonts.len() implies font_wf(#[trigger] fonts[i], nw, nh) by {
        assert(font_wf(fonts[i], aw, ah));
        assert forall|g: int| 0 <= g < fonts[i].glyphs@.len() implies glyph_wf(
            #[trigger] fonts[i].glyphs@[g],
            nw,
            nh,
        ) by {
            assert(glyph_wf(fonts[i].glyphs@[g], aw, ah));
        }
    }
}

/// A byte-for-byte copy of a buffer.
fn copy_bytes(src: &Vec<u8>) -> (out: Vec<u8>)
    ensures
        out@ == src@,
{
    let mut out: Vec<u8> = Vec::new();
    let mut i: usize = 0;
    while i < src.len()
        invariant
            0 <= i <= src@.len(),
            out@ =~= src@.subrange(0, i as int),
        decreases src@.len() - i,
    {
        out.push(src[i]);
        i += 1;
    }
    proof {
        assert(out@ =~= src@);
    }
    out
}

impl FontStash {
    /// The index of the font with this name, if any.
    fn find_font_index(&self, name: &str) -> (r: Option<usize>)
        requires
            self.wf(),
        ensures
            match r {
                Some(i) => i < self.fonts@.len() && self.fonts@[i as int].name@ == name@,
                None => !self.name_taken(name@),
            },
    {
        let key: String = name.to_owned();
        let n = self.fonts.len();
        let mut i: usize = 0;
        while i < n
            invariant
                n == self.fonts@.len(),
                0 <= i <= n,
                key@ == name@,
                forall|k: int| 0 <= k < i ==> (#[trigger] self.fonts@[k]).name@ != name@,
            decreases n - i,
        {
            if self.fonts[i].name == key {
                return Some(i);
            }
            i += 1;
        }
        None
    }

    /// Registers a font from its binary data under a caller-chosen name.
    /// The data is copied and owned by the stash.  Fails with
    /// `FailedToAllocFont`, leaving the stash unchanged, exactly when the
    /// data is rejected, the name is already taken, or the table is full;
    /// otherwise the new font's index is returned and is stable for the
    /// stash's lifetime (fonts are never removed).
    pub fn add_font_mem(&mut self, name: &str, data: &Vec<u8>) -> (r: Result<FontIx, FonsError>)
        requires
            old(self).wf(),
        ensures
            final(self).wf(),
            ({
                let ok = engine::font_data_valid(data@) && !old(self).name_taken(name@) && old(
                    self,
                ).fonts@.len() < MAX_FONTS;
                match r {
                    Ok(ix) => {
                        &&& ok
                        &&& ix.0 == old(self).fonts@.len()
                        &&& final(self).fonts@.len() == old(self).fonts@.len() + 1
                        &&& (forall|i: int|
                            0 <= i < old(self).fonts@.len() ==> final(self).fonts@[i] == old(
                                self,
                            ).fonts@[i])
                        &&& final(self).fonts@[ix.0 as int].name@ == name@
                        &&& final(self).fonts@[ix.0 as int].data@ == data@
                        &&& final(self).fonts@[ix.0 as int].glyphs@ =~= Seq::<Glyph>::empty()
                        &&& final(self).atlas == old(self).atlas
                        &&& final(self).states@ == old(self).states@
                        &&& final(self).events@ == old(self).events@
                    },
                    Err(e) => {
                        &&& !ok
                        &&& e == FonsError::FailedToAllocFont
                        &&& *final(self) == *old(self)
                    },
                }
            }),
    {
        if !engine::check_font_data(data) {
            return Err(FonsError::FailedToAllocFont);
        }
        if self.fonts.len() >= MAX_FONTS {
            return Err(FonsError::FailedToAllocFont);
        }
        match self.find_font_index(name) {
            Some(_) => Err(FonsError::FailedToAllocFont),
            None => {
                let ix = self.fonts.len();
                let f = Font { name: name.to_owned(), data: copy_bytes(data), glyphs: Vec::new() };
                self.fonts.push(f);
                proof {
                    assert forall|i: int, j: int|
                        0 <= i < j < self.fonts@.len() implies (#[trigger] self.fonts@[i]).name@
                        != (#[trigger] self.fonts@[j]).name@ by {
                        if j == old(self).fonts@.len() {
                            assert(!old(self).name_taken(name@));
                            assert(old(self).fonts@[i].name@ != name@);
                        }
                    }
                }
                Ok(FontIx(ix as u32))
            },
        }
    }

    /// Looks a font up by name; `None` exactly when no font carries the
    /// name.
    pub fn font_ix_by_name(&self, name: &str) -> (r: Option<FontIx>)
        requires
            self.wf(),
        ensures
            r is Some <==> self.name_taken(name@),
            match r {
                Some(ix) => ix.0 < self.fonts@.len() && self.fonts@[ix.0 as int].name@ == name@,
                None => true,
            },
    {
        match self.find_font_index(name) {
            Some(i) => Some(FontIx(i as u32)),
            None => None,
        }
    }

    /// Current atlas dimensions, `[width, height]`, in texels.
    pub fn atlas_size(&self) -> (r: [u32; 2])
        ensures
            r[0] == self.atlas.width,
            r[1] == self.atlas.height,
    {
        [self.atlas.width, self.atlas.height]
    }

    /// Read access to the atlas pixel buffer: the buffer (one alpha byte
    /// per texel, row-major), its width, and its height.  The borrow is
    /// valid until the next mutating call.
    pub fn with_pixels(&self) -> (r: (&Vec<u8>, u32, u32))
        ensures
            r.0@ == self.atlas.data@,
            r.1 == self.atlas.width,
            r.2 == self.atlas.height,
    {
        (&self.atlas.data, self.atlas.width, self.atlas.height)
    }

    /// Hands back and clears the dirty region of the atlas: the bounding
    /// box of every texel changed since the last call, `None` when nothing
    /// changed.  The caller re-uploads that region (or the whole buffer)
    /// to its texture.
    pub fn validate_texture(&mut self) -> (r: Option<Rect>)
        requires
            old(self).wf(),
        ensures
            final(self).wf(),
            r == old(self).atlas.dirty,
            final(self).atlas.dirty is None,
            *final(self) == (FontStash {
                atlas: (Atlas { dirty: None, ..old(self).atlas }),
                ..*old(self)
            }),
    {
        self.atlas.validate()
    }

    /// Pushes the dirty region of the atlas to the renderer: calls its
    /// `update` with the region and the whole pixel buffer.  On success
    /// the dirty region is cleared; a `false` return is surfaced as
    /// `RenderResizeError` and the region stays dirty for a retry.  With
    /// nothing dirty, nothing is called.
    pub fn flush<R: Renderer>(&mut self, renderer: &mut R) -> (r: Result<(), FonsError>)
        requires
            old(self).wf(),
        ensures
            final(self).wf(),
            old(self).atlas.dirty is None ==> r == Ok::<(), FonsError>(()),
            match r {
                Ok(()) => *final(self) == (FontStash {
                    atlas: (Atlas { dirty: None, ..old(self).atlas }),
                    ..*old(self)
                }),
                Err(e) => e == FonsError::RenderResizeError && *final(self) == *old(self),
            },
    {
        match self.atlas.dirty {
            None => Ok(()),
            Some(rect) => {
                if renderer.update(rect, &self.atlas.data, self.atlas.width, self.atlas.height) {
                    let _ = self.atlas.validate();
                    Ok(())
                } else {
                    Err(FonsError::RenderResizeError)
                }
            },
        }
    }

    /// The out-of-band diagnostics recorded so far.
    pub fn error_events(&self) -> (r: &Vec<ErrorEvent>)
        ensures
            r@ == self.events@,
    {
        &self.events
    }

    /// Discards the recorded diagnostics.
    pub fn clear_error_events(&mut self)
        requires
            old(self).wf(),
        ensures
            final(self).wf(),
            *final(self) == (FontStash { events: final(self).events, ..*old(self) }),
            final(self).events@ =~= Seq::<ErrorEvent>::empty(),
    {
        self.events.clear();
    }
}

/// The height the atlas grows to when it is full: doubled, capped at
/// `MAX_ATLAS_DIM`.
pub open spec fn grown_height(h: u32) -> u32 {
    if h > MAX_ATLAS_DIM / 2 {
        MAX_ATLAS_DIM
    } else {
        (2 * h) as u32
    }
}

/// A `w` by `h` cell can be placed, either in the atlas as it stands or
/// after the one height-doubling expansion the cache is allowed.
pub open spec fn fit_possible(a: Atlas, w: u32, h: u32) -> bool {
    a.can_alloc(w, h) || (a.height < MAX_ATLAS_DIM && (Atlas {
        height: grown_height(a.height),
        ..a
    }).can_alloc(w, h))
}

/// Appending a glyph with a key that is absent makes it the one `find_glyph`
/// returns.
pub proof fn lemma_find_glyph_push(glyphs: Seq<Glyph>, g: Glyph, cp: u32, size: u32, blur: u32)
    requires
        find_glyph(glyphs, cp, size, blur) is None,
        glyph_key_is(g, cp, size, blur),
    ensures
        find_glyph(glyphs.push(g), cp, size, blur) == Some(glyphs.len() as int),
    decreases glyphs.len(),
{
    lemma_find_glyph(glyphs, cp, size, blur);
    if glyphs.len() == 0 {
        assert(glyphs.push(g)[0] == g);
    } else {
        assert(!glyph_key_is(glyphs[0], cp, size, blur));
        assert(glyphs.push(g)[0] == glyphs[0]);
        assert(glyphs.push(g).drop_first() =~= glyphs.drop_first().push(g));
        assert(find_glyph(glyphs.drop_first(), cp, size, blur) is None) by {
            lemma_find_glyph(glyphs.drop_first(), cp, size, blur);
            if find_glyph(glyphs.drop_first(), cp, size, blur) is Some {
                let i = find_glyph(glyphs.drop_first(), cp, size, blur).unwrap();
                assert(glyphs.drop_first()[i] == glyphs[i + 1]);
            }
        }
        lemma_find_glyph_push(glyphs.drop_first(), g, cp, size, blur);
    }
}

impl FontStash {
    /// The cached glyph of font `f` under the given key, if any.
    pub open spec fn glyph_hit(self, f: int, cp: u32, size: u32, blur: u32) -> Option<Glyph> {
        match find_glyph(self.fonts@[f].glyphs@, cp, size, blur) {
            Some(i) => Some(self.fonts@[f].glyphs@[i]),
            None => None,
        }
    }

    /// Looks a glyph up and rasterizes it on a miss.
    ///
    /// The key is `(codepoint, clamp_size(size), clamp_blur(blur))`: whole
    /// pixels, so repeated lookups quantize identically.  On a hit the
    /// cached record is returned and nothing (atlas included) changes.  On
    /// a miss the engine's bitmap is packed into the atlas — growing it by
    /// one height-doubling if needed — blitted, and cached; texels outside
    /// the new cell keep their value.  An internal growth does not consult
    /// the renderer: the expansion leaves the whole texture dirty, so the
    /// next `flush` reports the new dimensions through `update` (see the
    /// renderer module).  Fails with `FoundNoFont` when no font carries
    /// the index, and with `FailedToAllocFont`, recording an `AtlasFull`
    /// event, exactly when the cell cannot be placed even after the one
    /// expansion.
    pub fn get_or_rasterize(&mut self, font: FontIx, codepoint: char, size: u32, blur: u32) -> (r:
        Result<Glyph, FonsError>)
        requires
            old(self).wf(),
        ensures
            final(self).wf(),
            final(self).states@ == old(self).states@,
            font.0 >= old(self).fonts@.len() ==> (r == Err::<Glyph, FonsError>(
                FonsError::FoundNoFont,
            ) && *final(self) == *old(self)),
            ({
                let cp = codepoint as u32;
                let cs = clamp_size(size);
                let cb = clamp_blur(blur);
                let f = font.0 as int;
                font.0 < old(self).fonts@.len() ==> {
                    &&& (old(self).glyph_hit(f, cp, cs, cb) matches Some(g) ==> (r == Ok::<
                        Glyph,
                        FonsError,
                    >(g) && *final(self) == *old(self)))
                    &&& (r matches Ok(g) ==> glyph_key_is(g, cp, cs, cb) && glyph_wf(
                        g,
                        final(self).atlas.width,
                        final(self).atlas.height,
                    ) && final(self).glyph_hit(f, cp, cs, cb) == Some(g))
                    &&& (old(self).glyph_hit(f, cp, cs, cb) is None ==> {
                        let cw = engine::spec_cell_w(cp, cs, cb) as u32;
                        let ch = engine::spec_cell_h(cs, cb) as u32;
                        &&& (r is Ok <==> fit_possible(old(self).atlas, cw, ch))
                        &&& (match r {
                            Ok(g) => {
                                &&& glyph_key_is(g, cp, cs, cb)
                                &&& glyph_wf(g, final(self).atlas.width, final(self).atlas.height)
                                &&& final(self).glyph_hit(f, cp, cs, cb) == Some(g)
                                &&& final(self).fonts@[f].glyphs@ == old(self)
                                    .fonts@[f].glyphs@.push(g)
                                &&& final(self).atlas.placed@ == old(self).atlas.placed@.push(
                                    g.rect,
                                )
                                &&& (old(self).atlas.can_alloc(cw, ch) ==> g.rect == old(
                                    self,
                                ).atlas.alloc_rect(cw, ch) && final(self).atlas.height == old(
                                    self,
                                ).atlas.height)
                                &&& (!old(self).atlas.can_alloc(cw, ch) ==> g.rect == (Atlas {
                                    height: grown_height(old(self).atlas.height),
                                    ..old(self).atlas
                                }).alloc_rect(cw, ch) && final(self).atlas.height == grown_height(
                                    old(self).atlas.height,
                                ))
                                &&& final(self).atlas.shelves@ == crate::atlas::alloc_shelves(
                                    old(self).atlas.shelves@,
                                    old(self).atlas.width,
                                    cw,
                                    ch,
                                )
                                &&& (forall|dx: int, dy: int|
                                    0 <= dx < g.rect.w && 0 <= dy < g.rect.h ==> (#[trigger] final(self)
                                        .atlas.texel(g.rect.x + dx, g.rect.y + dy))
                                        == engine::glyph_bitmap(cp, cs, cb)[dy * g.rect.w + dx])
                                &&& (forall|x: int, y: int|
                                    0 <= x < old(self).atlas.width && 0 <= y < old(self).atlas.height
                                        && !g.rect.contains(x, y) ==> (#[trigger] final(self)
                                        .atlas.texel(x, y)) == old(self).atlas.texel(x, y))
                                &&& final(self).events@ == old(self).events@
                            },
                            Err(e) => {
                                &&& e == FonsError::FailedToAllocFont
                                &&& final(self).fonts@ == old(self).fonts@
                                &&& final(self).events@ == old(self).events@.push(
                                    ErrorEvent {
                                        code: ErrorCode::AtlasFull,
                                        value: final(self).atlas.height,
                                    },
                                )
                                &&& final(self).atlas.shelves@ == old(self).atlas.shelves@
                                &&& final(self).atlas.height == (if old(self).atlas.height
                                    < MAX_ATLAS_DIM {
                                    grown_height(old(self).atlas.height)
                                } else {
                                    old(self).atlas.height
                                })
                                &&& (forall|x: int, y: int|
                                    0 <= x < old(self).atlas.width && 0 <= y < old(self).atlas.height
                                        ==> (#[trigger] final(self).atlas.texel(x, y))
                                        == old(self).atlas.texel(x, y))
                            },
                        })
                        &&& final(self).atlas.width == old(self).atlas.width
                        &&& final(self).atlas.height >= old(self).atlas.height
                        &&& (forall|i: int|
                            0 <= i < old(self).fonts@.len() && i != f ==> final(self).fonts@[i]
                                == old(self).fonts@[i])
                        &&& final(self).fonts@[f].name@ == old(self).fonts@[f].name@
                        &&& final(self).fonts@[f].data@ == old(self).fonts@[f].data@
                        &&& final(self).fonts@.len() == old(self).fonts@.len()
                    })
                }
            }),
    {
        let fi = font.0 as usize;
        if font.0 as usize >= self.fonts.len() {
            return Err(FonsError::FoundNoFont);
        }
        let cp = codepoint as u32;
        let cs = if size < 1 {
            1
        } else if size > MAX_FONT_SIZE {
            MAX_FONT_SIZE
        } else {
            size
        };
        let cb = if blur > MAX_BLUR {
            MAX_BLUR
        } else {
            blur
        };
        let nglyphs = self.fonts[fi].glyphs.len();
        let mut j: usize = 0;
        while j < nglyphs
            invariant
                *self == *old(self),
                old(self).wf(),
                fi == font.0 as usize,
                fi < self.fonts@.len(),
                font.0 < self.fonts@.len(),
                cp == codepoint as u32,
                cs == clamp_size(size),
                cb == clamp_blur(blur),
                nglyphs == self.fonts@[fi as int].glyphs@.len(),
                0 <= j <= nglyphs,
                forall|k: int|
                    0 <= k < j ==> !glyph_key_is(
                        #[trigger] self.fonts@[fi as int].glyphs@[k],
                        cp,
                        cs,
                        cb,
                    ),
            decreases nglyphs - j,
        {
            let g = self.fonts[fi].glyphs[j];
            if g.codepoint == cp && g.size == cs && g.blur == cb {
                proof {
                    lemma_find_glyph(self.fonts@[fi as int].glyphs@, cp, cs, cb);
                    assert(find_glyph(self.fonts@[fi as int].glyphs@, cp, cs, cb) == Some(
                        j as int,
                    ));
                    assert(old(self).glyph_hit(font.0 as int, cp, cs, cb) == Some(g));
                    assert(font_wf(
                        self.fonts@[fi as int],
                        self.atlas.width,
                        self.atlas.height,
                    ));
                    assert(glyph_wf(g, self.atlas.width, self.atlas.height));
                }
                return Ok(g);
            }
            j += 1;
        }
        proof {
            lemma_find_glyph(self.fonts@[fi as int].glyphs@, cp, cs, cb);
            assert(find_glyph(self.fonts@[fi as int].glyphs@, cp, cs, cb) is None);
            engine::lemma_cell_bounds(cp, cs, cb);
        }
        let cw = engine::glyph_cell_w(cp, cs, cb);
        let ch = engine::glyph_cell_h(cs, cb);
        let mut rect_opt = self.atlas.allocate(cw, ch);
        if rect_opt.is_none() && self.atlas.height < MAX_ATLAS_DIM {
            let hh = self.atlas.height;
            let nh = if hh > MAX_ATLAS_DIM / 2 {
                MAX_ATLAS_DIM
            } else {
                2 * hh
            };
            let ww = self.atlas.width;
            let ghost mid = *self;
            self.atlas.expand(ww, nh);
            proof {
                lemma_fonts_wf_grow(mid.fonts@, mid.atlas.width, mid.atlas.height, ww, nh);
            }
            rect_opt = self.atlas.allocate(cw, ch);
        }
        match rect_opt {
            None => {
                let hv = self.atlas.height;
                self.events.push(ErrorEvent { code: ErrorCode::AtlasFull, value: hv });
                Err(FonsError::FailedToAllocFont)
            },
            Some(rect) => {
                let bitmap = engine::rasterize_glyph(cp, cs, cb);
                self.atlas.blit(rect, &bitmap);
                let adv = engine::glyph_advance(cp, cs, cb);
                let yo = engine::glyph_yoff(cs, cb);
                let g = Glyph { codepoint: cp, size: cs, blur: cb, rect, advance: adv, yoff: yo };
                let ghost pre_push = *self;
                self.fonts[fi].glyphs.push(g);
                proof {
                    lemma_find_glyph_push(pre_push.fonts@[fi as int].glyphs@, g, cp, cs, cb);
                    assert(self.fonts@[fi as int].glyphs@ =~= pre_push.fonts@[fi as int].glyphs@
                        .push(g));
                    assert forall|i: int| 0 <= i < self.fonts@.len() implies font_wf(
                        #[trigger] self.fonts@[i],
                        self.atlas.width,
                        self.atlas.height,
                    ) by {
                        assert(font_wf(pre_push.fonts@[i], self.atlas.width, self.atlas.height));
                        if i == fi as int {
                            assert forall|a: int, b: int|
                                0 <= a < b < self.fonts@[i].glyphs@.len() implies !glyphs_same_key(
                                #[trigger] self.fonts@[i].glyphs@[a],
                                #[trigger] self.fonts@[i].glyphs@[b],
                            ) by {
                                if b == self.fonts@[i].glyphs@.len() - 1 {
                                    lemma_find_glyph(
                                        pre_push.fonts@[i].glyphs@,
                                        cp,
                                        cs,
                                        cb,
                                    );
                                }
                            }
                        }
                    }
                }
                Ok(g)
            },
        }
    }

    /// Inserts a glyph whose coverage bitmap the caller supplies: the
    /// boundary for hosts that embed a real font engine.  The host
    /// rasterizes the codepoint into the model cell of the (quantized)
    /// key — `spec_cell_w` by `spec_cell_h` coverage bytes, row-major —
    /// and the cache packs, blits, and records it exactly like a glyph of
    /// the built-in engine; the cell geometry and metrics stay the
    /// model's, so layout and measurement are unchanged.  Fails with
    /// `FoundNoFont` when no font carries the index, and with
    /// `FailedToAllocFont` when the key is already cached, when the
    /// bitmap does not have the cell's size, or — recording an
    /// `AtlasFull` event — when the cell cannot be placed even after the
    /// one expansion.
    pub fn add_glyph(
        &mut self,
        font: FontIx,
        codepoint: char,
        size: u32,
        blur: u32,
        bitmap: &Vec<u8>,
    ) -> (r: Result<Glyph, FonsError>)
        requires
            old(self).wf(),
        ensures
            final(self).wf(),
            final(self).states@ == old(self).states@,
            font.0 >= old(self).fonts@.len() ==> (r == Err::<Glyph, FonsError>(
                FonsError::FoundNoFont,
            ) && *final(self) == *old(self)),
            ({
                let cp = codepoint as u32;
                let cs = clamp_size(size);
                let cb = clamp_blur(blur);
                let f = font.0 as int;
                let cw = engine::spec_cell_w(cp, cs, cb) as u32;
                let ch = engine::spec_cell_h(cs, cb) as u32;
                font.0 < old(self).fonts@.len() ==> {
                    &&& (old(self).glyph_hit(f, cp, cs, cb) is Some ==> (r == Err::<
                        Glyph,
                        FonsError,
                    >(FonsError::FailedToAllocFont) && *final(self) == *old(self)))
                    &&& (old(self).glyph_hit(f, cp, cs, cb) is None && bitmap@.len() != cw * ch
                        ==> (r == Err::<Glyph, FonsError>(FonsError::FailedToAllocFont)
                            && *final(self) == *old(self)))
                    &&& (old(self).glyph_hit(f, cp, cs, cb) is None && bitmap@.len() == cw * ch
                        ==> {
                        &&& (r is Ok <==> fit_possible(old(self).atlas, cw, ch))
                        &&& (match r {
                            Ok(g) => {
                                &&& glyph_key_is(g, cp, cs, cb)
                                &&& glyph_wf(g, final(self).atlas.width, final(self).atlas.height)
                                &&& final(self).glyph_hit(f, cp, cs, cb) == Some(g)
                                &&& final(self).fonts@[f].glyphs@ == old(self)
                                    .fonts@[f].glyphs@.push(g)
                                &&& final(self).atlas.placed@ == old(self).atlas.placed@.push(
                                    g.rect,
                                )
                                &&& (forall|dx: int, dy: int|
                                    0 <= dx < g.rect.w && 0 <= dy < g.rect.h ==> (#[trigger] final(self)
                                        .atlas.texel(g.rect.x + dx, g.rect.y + dy))
                                        == bitmap@[dy * g.rect.w + dx])
                                &&& (forall|x: int, y: int|
                                    0 <= x < old(self).atlas.width && 0 <= y < old(self).atlas.height
                                        && !g.rect.contains(x, y) ==> (#[trigger] final(self)
                                        .atlas.texel(x, y)) == old(self).atlas.texel(x, y))
                                &&& final(self).events@ == old(self).events@
                                &&& (old(self).atlas.can_alloc(cw, ch) ==> g.rect == old(
                                    self,
                                ).atlas.alloc_rect(cw, ch) && final(self).atlas.height == old(
                                    self,
                                ).atlas.height)
                                &&& (!old(self).atlas.can_alloc(cw, ch) ==> g.rect == (Atlas {
                                    height: grown_height(old(self).atlas.height),
                                    ..old(self).atlas
                                }).alloc_rect(cw, ch) && final(self).atlas.height == grown_height(
                                    old(self).atlas.height,
                                ))
                                &&& final(self).atlas.shelves@ == crate::atlas::alloc_shelves(
                                    old(self).atlas.shelves@,
                                    old(self).atlas.width,
                                    cw,
                                    ch,
                                )
                            },
                            Err(e) => {
                                &&& e == FonsError::FailedToAllocFont
                                &&& final(self).fonts@ == old(self).fonts@
                                &&& final(self).events@ == old(self).events@.push(
                                    ErrorEvent {
                                        code: ErrorCode::AtlasFull,
                                        value: final(self).atlas.height,
                                    },
                                )
                                &&& final(self).atlas.shelves@ == old(self).atlas.shelves@
                                &&& final(self).atlas.height == (if old(self).atlas.height
                                    < MAX_ATLAS_DIM {
                                    grown_height(old(self).atlas.height)
                                } else {
                                    old(self).atlas.height
                                })
                                &&& (forall|x: int, y: int|
                                    0 <= x < old(self).atlas.width && 0 <= y < old(self).atlas.height
                                        ==> (#[trigger] final(self).atlas.texel(x, y))
                                        == old(self).atlas.texel(x, y))
                            },
                        })
                        &&& final(self).atlas.width == old(self).atlas.width
                        &&& final(self).atlas.height >= old(self).atlas.height
                        &&& (forall|i: int|
                            0 <= i < old(self).fonts@.len() && i != f ==> final(self).fonts@[i]
                                == old(self).fonts@[i])
                        &&& final(self).fonts@[f].name@ == old(self).fonts@[f].name@
                        &&& final(self).fonts@[f].data@ == old(self).fonts@[f].data@
                        &&& final(self).fonts@.len() == old(self).fonts@.len()
                    })
                }
            }),
    {
        let fi = font.0 as usize;
        if font.0 as usize >= self.fonts.len() {
            return Err(FonsError::FoundNoFont);
        }
        let cp = codepoint as u32;
        let cs = if size < 1 {
            1
        } else if size > MAX_FONT_SIZE {
            MAX_FONT_SIZE
        } else {
            size
        };
        let cb = if blur > MAX_BLUR {
            MAX_BLUR
        } else {
            blur
        };
        let nglyphs = self.fonts[fi].glyphs.len();
        let mut j: usize = 0;
        while j < nglyphs
            invariant
                *self == *old(self),
                old(self).wf(),
                fi == font.0 as usize,
                fi < self.fonts@.len(),
                font.0 < self.fonts@.len(),
                cp == codepoint as u32,
                cs == clamp_size(size),
                cb == clamp_blur(blur),
                nglyphs == self.fonts@[fi as int].glyphs@.len(),
                0 <= j <= nglyphs,
                forall|k: int|
                    0 <= k < j ==> !glyph_key_is(
                        #[trigger] self.fonts@[fi as int].glyphs@[k],
                        cp,
                        cs,
                        cb,
                    ),
            decreases nglyphs - j,
        {
            let g = self.fonts[fi].glyphs[j];
            if g.codepoint == cp && g.size == cs && g.blur == cb {
                proof {
                    lemma_find_glyph(self.fonts@[fi as int].glyphs@, cp, cs, cb);
                }
                return Err(FonsError::FailedToAllocFont);
            }
            j += 1;
        }
        proof {
            lemma_find_glyph(self.fonts@[fi as int].glyphs@, cp, cs, cb);
            assert(find_glyph(self.fonts@[fi as int].glyphs@, cp, cs, cb) is None);
            engine::lemma_cell_bounds(cp, cs, cb);
        }
        let cw = engine::glyph_cell_w(cp, cs, cb);
        let ch = engine::glyph_cell_h(cs, cb);
        proof {
            assert(cw * ch <= 303 * 428) by (nonlinear_arith)
                requires
                    cw <= 303,
                    ch <= 428,
            ;
        }
        if bitmap.len() != (cw as usize) * (ch as usize) {
            return Err(FonsError::FailedToAllocFont);
        }
        let mut rect_opt = self.atlas.allocate(cw, ch);
        if rect_opt.is_none() && self.atlas.height < MAX_ATLAS_DIM {
            let hh = self.atlas.height;
            let nh = if hh > MAX_ATLAS_DIM / 2 {
                MAX_ATLAS_DIM
            } else {
                2 * hh
            };
            let ww = self.atlas.width;
            let ghost mid = *self;
            self.atlas.expand(ww, nh);
            proof {
                lemma_fonts_wf_grow(mid.fonts@, mid.atlas.width, mid.atlas.height, ww, nh);
            }
            rect_opt = self.atlas.allocate(cw, ch);
        }
        match rect_opt {
            None => {
                let hv = self.atlas.height;
                self.events.push(ErrorEvent { code: ErrorCode::AtlasFull, value: hv });
                Err(FonsError::FailedToAllocFont)
            },
            Some(rect) => {
                self.atlas.blit(rect, bitmap);
                let adv = engine::glyph_advance(cp, cs, cb);
                let yo = engine::glyph_yoff(cs, cb);
                let g = Glyph { codepoint: cp, size: cs, blur: cb, rect, advance: adv, yoff: yo };
                let ghost pre_push = *self;
                self.fonts[fi].glyphs.push(g);
                proof {
                    lemma_find_glyph_push(pre_push.fonts@[fi as int].glyphs@, g, cp, cs, cb);
                    assert(self.fonts@[fi as int].glyphs@ =~= pre_push.fonts@[fi as int].glyphs@
                        .push(g));
                    assert forall|i: int| 0 <= i < self.fonts@.len() implies font_wf(
                        #[trigger] self.fonts@[i],
                        self.atlas.width,
                        self.atlas.height,
                    ) by {
                        assert(font_wf(pre_push.fonts@[i], self.atlas.width, self.atlas.height));
                        if i == fi as int {
                            assert forall|a: int, b: int|
                                0 <= a < b < self.fonts@[i].glyphs@.len() implies !glyphs_same_key(
                                #[trigger] self.fonts@[i].glyphs@[a],
                                #[trigger] self.fonts@[i].glyphs@[b],
                            ) by {
                                if b == self.fonts@[i].glyphs@.len() - 1 {
                                    lemma_find_glyph(
                                        pre_push.fonts@[i].glyphs@,
                                        cp,
                                        cs,
                                        cb,
                                    );
                                }
                            }
                        }
                    }
                }
                Ok(g)
            },
        }
    }
}

/// A requested atlas dimension, clamped into `1..=MAX_ATLAS_DIM`.
pub open spec fn clamp_dim(v: u32) -> u32 {
    if v < 1 {
        1u32
    } else if v > MAX_ATLAS_DIM {
        MAX_ATLAS_DIM
    } else {
        v
    }
}

/// Clamps a requested atlas dimension.
fn clamp_dim_exec(v: u32) -> (r: u32)
    ensures
        r == clamp_dim(v),
{
    if v < 1 {
        1
    } else if v > MAX_ATLAS_DIM {
        MAX_ATLAS_DIM
    } else {
        v
    }
}

} // verus!
