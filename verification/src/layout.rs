//! Single-line text layout: one quad per glyph.
//!
//! A layout call snapshots the current style, walks the text's codepoints,
//! looks every glyph up in the cache (rasterizing on a miss), and produces
//! one quad per glyph: the glyph's atlas cell in texture pixels and its
//! screen-space rectangle.  The pen starts at the given position, shifted
//! by the alignment, and advances by each glyph's advance plus the style's
//! spacing — also for glyphs that had to be skipped because the atlas was
//! full, so a degraded line keeps its spacing.  The engine provides no
//! kerning, so adjacent-pair adjustments are zero.  `&str` input
//! guarantees valid UTF-8, so no malformed-sequence policy is needed.
//!
//! Pen coordinates saturate at `PEN_LIMIT`; for any realistic position and
//! text length the saturation never engages and layout is exact.  When
//! every glyph of the text is already cached, layout mutates nothing and
//! its result is exactly `layout_quads` of the starting state — laying the
//! same text out twice from the same state gives identical quads.  In
//! general the whole call is the fold of one `layout_step` per codepoint:
//! the contract pins which codepoints are emitted, which are skipped for
//! want of atlas room, and the packer and cache state left behind.

use vstd::prelude::*;
use crate::atlas::{alloc_rect_in, alloc_shelves, can_alloc_in, Shelf, MAX_ATLAS_DIM};
use crate::engine;
use crate::error::{ErrorCode, ErrorEvent, FonsError};
use crate::stash::{find_glyph, grown_height, FontIx, FontStash, Glyph};
use crate::state::{AlignH, AlignV};

verus! {

/// Pen coordinates are clamped into `-PEN_LIMIT..=PEN_LIMIT`.
pub const PEN_LIMIT: i64 = 0x4000_0000_0000;

/// An integer clamped into the pen range.
pub open spec fn sat(v: int) -> int {
    if v > PEN_LIMIT {
        PEN_LIMIT as int
    } else if v < -(PEN_LIMIT as int) {
        -(PEN_LIMIT as int)
    } else {
        v
    }
}

/// Saturating addition of a pen coordinate and a step.
fn sat_add(a: i64, b: i64) -> (r: i64)
    requires
        -PEN_LIMIT <= a <= PEN_LIMIT,
        -PEN_LIMIT <= b <= PEN_LIMIT,
    ensures
        r == sat(a + b),
        -PEN_LIMIT <= r <= PEN_LIMIT,
{
    let s = a + b;
    if s > PEN_LIMIT {
        PEN_LIMIT
    } else if s < -PEN_LIMIT {
        -PEN_LIMIT
    } else {
        s
    }
}

/// Clamps an arbitrary coordinate into the pen range.
fn sat_clamp(v: i64) -> (r: i64)
    ensures
        r == sat(v as int),
        -PEN_LIMIT <= r <= PEN_LIMIT,
{
    if v > PEN_LIMIT {
        PEN_LIMIT
    } else if v < -PEN_LIMIT {
        -PEN_LIMIT
    } else {
        v
    }
}

/// One glyph's quad: the screen-space rectangle `(x0, y0)..(x1, y1)` with
/// `y` growing downward, and the glyph's atlas cell `(s0, t0)..(s1, t1)` in
/// texture pixels.
#[derive(Debug, Clone, Copy, PartialEq, Eq, Structural)]
pub struct FonsQuad {
    pub x0: i64,
    pub y0: i64,
    pub x1: i64,
    pub y1: i64,
    pub s0: u32,
    pub t0: u32,
    pub s1: u32,
    pub t1: u32,
}

/// The horizontal alignment shift of a whole run: none for left, half the
/// run width back for center, the whole width back for right.  Negative
/// run widths (possible only with large negative spacing) shift nothing.
pub open spec fn h_align_shift(h: AlignH, total: int) -> int {
    let t = if total < 0 {
        0
    } else {
        total
    };
    match h {
        AlignH::Left => 0,
        AlignH::Center => -(t / 2),
        AlignH::Right => -t,
    }
}

/// The vertical shift from the given pen `y` to the baseline.
pub open spec fn v_align_shift(v: AlignV, size: u32) -> int {
    match v {
        AlignV::Top => engine::spec_ascent(size),
        AlignV::Middle => engine::spec_ascent(size) - engine::spec_line_height(size) / 2,
        AlignV::Bottom => -engine::spec_descent(size),
        AlignV::Baseline => 0,
    }
}

/// The pen's total advance over `text[i..]` starting from `acc`: each
/// codepoint contributes its engine advance plus the style's spacing,
/// saturating at the pen range.
pub open spec fn run_width(
    text: Seq<char>,
    i: int,
    acc: int,
    size: u32,
    blur: u32,
    spacing: i32,
) -> int
    decreases text.len() - i,
{
    if i < 0 || i >= text.len() {
        acc
    } else {
        run_width(
            text,
            i + 1,
            sat(acc + engine::spec_advance(text[i] as u32, size, blur) + spacing),
            size,
            blur,
            spacing,
        )
    }
}

/// The smaller of two integers.
pub open spec fn imin(a: int, b: int) -> int {
    if a <= b {
        a
    } else {
        b
    }
}

/// The larger of two integers.
pub open spec fn imax(a: int, b: int) -> int {
    if a >= b {
        a
    } else {
        b
    }
}

/// The leftmost pen position the run visits over `text[i..]`, the pen at
/// every codepoint and the final pen included: the left edge of the line's
/// box.  With non-negative spacing this is simply `pen`.
pub open spec fn run_min_x(
    text: Seq<char>,
    i: int,
    pen: int,
    size: u32,
    blur: u32,
    spacing: i32,
) -> int
    decreases text.len() - i,
{
    if i < 0 || i >= text.len() {
        pen
    } else {
        let pen2 = sat(pen + engine::spec_advance(text[i] as u32, size, blur) + spacing);
        imin(pen, run_min_x(text, i + 1, pen2, size, blur, spacing))
    }
}

/// The rightmost cell edge the run produces over `text[i..]` (each
/// codepoint's pen plus its cell width), the final pen included: the right
/// edge of the line's box.
pub open spec fn run_max_x(
    text: Seq<char>,
    i: int,
    pen: int,
    size: u32,
    blur: u32,
    spacing: i32,
) -> int
    decreases text.len() - i,
{
    if i < 0 || i >= text.len() {
        pen
    } else {
        let edge = pen + engine::spec_cell_w(text[i] as u32, size, blur);
        let pen2 = sat(pen + engine::spec_advance(text[i] as u32, size, blur) + spacing);
        imax(edge, run_max_x(text, i + 1, pen2, size, blur, spacing))
    }
}

/// The quad of glyph `g` at pen `(penx, peny)` with vertical shift `voff`.
pub open spec fn quad_of(g: Glyph, penx: int, peny: int, voff: int) -> FonsQuad {
    FonsQuad {
        x0: penx as i64,
        y0: (peny + voff + g.yoff) as i64,
        x1: (penx + g.rect.w) as i64,
        y1: (peny + voff + g.yoff + g.rect.h) as i64,
        s0: g.rect.x,
        t0: g.rect.y,
        s1: (g.rect.x + g.rect.w) as u32,
        t1: (g.rect.y + g.rect.h) as u32,
    }
}

/// The quads of `text[i..]` laid out at pen `pen`, when every glyph is in
/// the cache of the current font of `s`.  A codepoint whose glyph is not
/// cached yields no quad here but still advances the pen.
pub open spec fn layout_rec(
    s: FontStash,
    text: Seq<char>,
    i: int,
    pen: int,
    peny: int,
    voff: int,
) -> Seq<FonsQuad>
    decreases text.len() - i,
{
    if i < 0 || i >= text.len() || s.cur().font >= s.fonts@.len() {
        Seq::empty()
    } else {
        let cp = text[i] as u32;
        let cs = s.cur().size;
        let cb = s.cur().blur;
        let pen2 = sat(pen + engine::spec_advance(cp, cs, cb) + s.cur().spacing);
        let rest = layout_rec(s, text, i + 1, pen2, peny, voff);
        match find_glyph(s.fonts@[s.cur().font as int].glyphs@, cp, cs, cb) {
            Some(gi) => seq![
                quad_of(s.fonts@[s.cur().font as int].glyphs@[gi], pen, peny, voff),
            ] + rest,
            None => rest,
        }
    }
}

/// The quads one codepoint contributes at pen `pen`: its glyph's quad when
/// it is cached, nothing otherwise.
pub open spec fn glyph_contribution(s: FontStash, c: char, pen: int, peny: int, voff: int) -> Seq<
    FonsQuad,
> {
    match find_glyph(s.fonts@[s.cur().font as int].glyphs@, c as u32, s.cur().size, s.cur().blur) {
        Some(gi) => seq![
            quad_of(s.fonts@[s.cur().font as int].glyphs@[gi], pen, peny, voff),
        ],
        None => Seq::empty(),
    }
}

/// Appending a glyph record leaves every hit of the old cache unchanged.
proof fn lemma_find_push_preserves(glyphs: Seq<Glyph>, g: Glyph, cp: u32, size: u32, blur: u32)
    requires
        find_glyph(glyphs, cp, size, blur) is Some,
    ensures
        find_glyph(glyphs.push(g), cp, size, blur) == find_glyph(glyphs, cp, size, blur),
    decreases glyphs.len(),
{
    if glyphs.len() == 0 {
    } else {
        assert(glyphs.push(g)[0] == glyphs[0]);
        if !crate::stash::glyph_key_is(glyphs[0], cp, size, blur) {
            assert(glyphs.push(g).drop_first() =~= glyphs.drop_first().push(g));
            lemma_find_push_preserves(glyphs.drop_first(), g, cp, size, blur);
        }
    }
}

/// Appending one codepoint to the text advances the run's end by that
/// codepoint's step.
proof fn lemma_run_width_snoc(
    t: Seq<char>,
    c: char,
    i: int,
    acc: int,
    size: u32,
    blur: u32,
    spacing: i32,
)
    requires
        0 <= i <= t.len(),
    ensures
        run_width(t.push(c), i, acc, size, blur, spacing) == sat(
            run_width(t, i, acc, size, blur, spacing) + engine::spec_advance(c as u32, size, blur)
                + spacing,
        ),
    decreases t.len() - i,
{
    let tc = t.push(c);
    if i == t.len() {
        assert(tc[i] == c);
        let acc2 = sat(acc + engine::spec_advance(c as u32, size, blur) + spacing);
        assert(run_width(tc, i + 1, acc2, size, blur, spacing) == acc2);
        assert(run_width(tc, i, acc, size, blur, spacing) == acc2);
        assert(run_width(t, i, acc, size, blur, spacing) == acc);
    } else {
        assert(tc[i] == t[i]);
        let acc2 = sat(acc + engine::spec_advance(t[i] as u32, size, blur) + spacing);
        lemma_run_width_snoc(t, c, i + 1, acc2, size, blur, spacing);
    }
}

/// Appending one codepoint to the text appends its contribution, at the
/// pen position the run reaches after the shorter text.
proof fn lemma_layout_snoc(
    s: FontStash,
    t: Seq<char>,
    c: char,
    i: int,
    pen: int,
    peny: int,
    voff: int,
)
    requires
        0 <= i <= t.len(),
        s.cur().font < s.fonts@.len(),
    ensures
        layout_rec(s, t.push(c), i, pen, peny, voff) =~= layout_rec(s, t, i, pen, peny, voff)
            + glyph_contribution(
            s,
            c,
            run_width(t, i, pen, s.cur().size, s.cur().blur, s.cur().spacing),
            peny,
            voff,
        ),
    decreases t.len() - i,
{
    let tc = t.push(c);
    if i == t.len() {
        assert(tc[i] == c);
        assert(layout_rec(s, tc, i + 1, sat(
            pen + engine::spec_advance(c as u32, s.cur().size, s.cur().blur) + s.cur().spacing,
        ), peny, voff) =~= Seq::<FonsQuad>::empty());
        assert(run_width(t, i, pen, s.cur().size, s.cur().blur, s.cur().spacing) == pen);
    } else {
        assert(tc[i] == t[i]);
        let pen2 = sat(
            pen + engine::spec_advance(t[i] as u32, s.cur().size, s.cur().blur) + s.cur().spacing,
        );
        lemma_layout_snoc(s, t, c, i + 1, pen2, peny, voff);
    }
}

/// Growing the current font's cache by one record changes nothing about
/// the layout of codepoints that were already cached.
proof fn lemma_layout_cache_grow(
    s: FontStash,
    s2: FontStash,
    g: Glyph,
    t: Seq<char>,
    i: int,
    pen: int,
    peny: int,
    voff: int,
)
    requires
        0 <= i <= t.len(),
        s.cur() == s2.cur(),
        s.cur().font < s.fonts@.len(),
        s2.fonts@.len() == s.fonts@.len(),
        s2.fonts@[s.cur().font as int].glyphs@ == s.fonts@[s.cur().font as int].glyphs@.push(g),
        forall|k: int|
            i <= k < t.len() ==> find_glyph(
                s.fonts@[s.cur().font as int].glyphs@,
                (#[trigger] t[k]) as u32,
                s.cur().size,
                s.cur().blur,
            ) is Some,
    ensures
        layout_rec(s2, t, i, pen, peny, voff) =~= layout_rec(s, t, i, pen, peny, voff),
    decreases t.len() - i,
{
    if i < t.len() {
        let f = s.cur().font as int;
        let cache = s.fonts@[f].glyphs@;
        let cp = t[i] as u32;
        lemma_find_push_preserves(cache, g, cp, s.cur().size, s.cur().blur);
        crate::stash::lemma_find_glyph(cache, cp, s.cur().size, s.cur().blur);
        let gi = find_glyph(cache, cp, s.cur().size, s.cur().blur).unwrap();
        assert(s2.fonts@[f].glyphs@[gi] == cache[gi]);
        let pen2 = sat(
            pen + engine::spec_advance(cp, s.cur().size, s.cur().blur) + s.cur().spacing,
        );
        lemma_layout_cache_grow(s, s2, g, t, i + 1, pen2, peny, voff);
    }
}

/// When every codepoint of the range is cached, layout emits exactly one
/// quad per codepoint.
proof fn lemma_layout_len(s: FontStash, t: Seq<char>, i: int, pen: int, peny: int, voff: int)
    requires
        0 <= i <= t.len(),
        s.cur().font < s.fonts@.len(),
        forall|k: int|
            i <= k < t.len() ==> find_glyph(
                s.fonts@[s.cur().font as int].glyphs@,
                (#[trigger] t[k]) as u32,
                s.cur().size,
                s.cur().blur,
            ) is Some,
    ensures
        layout_rec(s, t, i, pen, peny, voff).len() == t.len() - i,
    decreases t.len() - i,
{
    if i < t.len() {
        let cp = t[i] as u32;
        let pen2 = sat(
            pen + engine::spec_advance(cp, s.cur().size, s.cur().blur) + s.cur().spacing,
        );
        lemma_layout_len(s, t, i + 1, pen2, peny, voff);
    }
}

/// Every quad the layout of `text[i..]` emits lies inside the run's box:
/// its left and right edges between `run_min_x` and `run_max_x`, and its
/// top and bottom exactly one cell band below the shifted pen.
pub proof fn lemma_bounds_contain_quads(
    s: FontStash,
    text: Seq<char>,
    i: int,
    pen: int,
    peny: int,
    voff: int,
)
    requires
        s.wf(),
        s.cur().font < s.fonts@.len(),
        0 <= i <= text.len(),
        -PEN_LIMIT <= pen <= PEN_LIMIT,
    ensures
        forall|k: int|
            0 <= k < layout_rec(s, text, i, pen, peny, voff).len() ==> {
                let q = #[trigger] layout_rec(s, text, i, pen, peny, voff)[k];
                let cs = s.cur().size;
                let cb = s.cur().blur;
                &&& run_min_x(text, i, pen, cs, cb, s.cur().spacing) <= q.x0
                &&& q.x1 <= run_max_x(text, i, pen, cs, cb, s.cur().spacing)
                &&& q.y0 == (peny + voff + engine::spec_yoff(cs, cb)) as i64
                &&& q.y1 == (peny + voff + engine::spec_yoff(cs, cb) + engine::spec_cell_h(
                    cs,
                    cb,
                )) as i64
            },
    decreases text.len() - i,
{
    let cs = s.cur().size;
    let cb = s.cur().blur;
    let sp = s.cur().spacing;
    let quads = layout_rec(s, text, i, pen, peny, voff);
    if i < text.len() {
        let cp = text[i] as u32;
        let pen2 = sat(pen + engine::spec_advance(cp, cs, cb) + sp);
        lemma_bounds_contain_quads(s, text, i + 1, pen2, peny, voff);
        let rest = layout_rec(s, text, i + 1, pen2, peny, voff);
        assert(run_min_x(text, i, pen, cs, cb, sp) <= run_min_x(text, i + 1, pen2, cs, cb, sp));
        assert(run_max_x(text, i, pen, cs, cb, sp) >= run_max_x(text, i + 1, pen2, cs, cb, sp));
        match find_glyph(s.fonts@[s.cur().font as int].glyphs@, cp, cs, cb) {
            Some(gi) => {
                crate::stash::lemma_find_glyph(s.fonts@[s.cur().font as int].glyphs@, cp, cs, cb);
                let g = s.fonts@[s.cur().font as int].glyphs@[gi];
                assert(crate::stash::glyph_wf(g, s.atlas.width, s.atlas.height));
                assert(quads =~= seq![quad_of(g, pen, peny, voff)] + rest);
                assert forall|k: int| 0 <= k < quads.len() implies {
                    let q = #[trigger] quads[k];
                    &&& run_min_x(text, i, pen, cs, cb, sp) <= q.x0
                    &&& q.x1 <= run_max_x(text, i, pen, cs, cb, sp)
                    &&& q.y0 == (peny + voff + engine::spec_yoff(cs, cb)) as i64
                    &&& q.y1 == (peny + voff + engine::spec_yoff(cs, cb) + engine::spec_cell_h(
                        cs,
                        cb,
                    )) as i64
                } by {
                    if k == 0 {
                        assert(quads[0] == quad_of(g, pen, peny, voff));
                        engine::lemma_cell_bounds(cp, cs, cb);
                    } else {
                        assert(quads[k] == rest[k - 1]);
                    }
                }
            },
            None => {
                assert(quads =~= rest);
                assert forall|k: int| 0 <= k < quads.len() implies quads[k] == rest[k] by {}
            },
        }
    }
}

/// How many codepoints of the line were skipped: the `false` entries of an
/// emission record.
pub open spec fn count_false(em: Seq<bool>) -> int
    decreases em.len(),
{
    if em.len() == 0 {
        0
    } else {
        count_false(em.drop_last()) + if em.last() {
            0int
        } else {
            1int
        }
    }
}

/// The quads of `text[i..]` under an emission record `em`: codepoint `k`
/// contributes its cached glyph's quad when `em[k]` is true and nothing
/// when it is false; the pen advances either way.
pub open spec fn emitted_quads(
    s: FontStash,
    text: Seq<char>,
    em: Seq<bool>,
    i: int,
    pen: int,
    peny: int,
    voff: int,
) -> Seq<FonsQuad>
    decreases text.len() - i,
{
    if i < 0 || i >= text.len() || s.cur().font >= s.fonts@.len() {
        Seq::empty()
    } else {
        let cp = text[i] as u32;
        let pen2 = sat(pen + engine::spec_advance(cp, s.cur().size, s.cur().blur) + s.cur().spacing);
        let rest = emitted_quads(s, text, em, i + 1, pen2, peny, voff);
        if 0 <= i < em.len() && em[i] {
            glyph_contribution(s, text[i], pen, peny, voff) + rest
        } else {
            rest
        }
    }
}

/// The packer-and-cache state one layout call threads through its
/// codepoints: exactly what a `get_or_rasterize` step reads and writes,
/// plus a count of the codepoints skipped so far.
pub struct LayoutState {
    pub shelves: Seq<Shelf>,
    pub width: u32,
    pub height: u32,
    pub glyphs: Seq<Glyph>,
    pub skips: int,
}

/// The state a stash presents to the layout fold for font `f`.
pub open spec fn stash_state(s: FontStash, f: int, skips: int) -> LayoutState {
    LayoutState {
        shelves: s.atlas.shelves@,
        width: s.atlas.width,
        height: s.atlas.height,
        glyphs: s.fonts@[f].glyphs@,
        skips,
    }
}

/// One codepoint's transition: the fold of `get_or_rasterize`.  A cached
/// key leaves the state alone.  Otherwise the engine cell is placed — in
/// the atlas as it stands, or after the one height-doubling — at the
/// packer's position, and the glyph is cached.  A cell that cannot be
/// placed even after the doubling is skipped; the height still doubles
/// once if it can.  The boolean is the emission flag: true exactly when a
/// quad is owed for the codepoint.
pub open spec fn layout_step(st: LayoutState, cp: u32, cs: u32, cb: u32) -> (LayoutState, bool) {
    if find_glyph(st.glyphs, cp, cs, cb) is Some {
        (st, true)
    } else {
        let cw = engine::spec_cell_w(cp, cs, cb) as u32;
        let ch = engine::spec_cell_h(cs, cb) as u32;
        let grown = grown_height(st.height);
        if can_alloc_in(st.shelves, st.width, st.height, cw, ch) || (st.height < MAX_ATLAS_DIM
            && can_alloc_in(st.shelves, st.width, grown, cw, ch)) {
            let g = Glyph {
                codepoint: cp,
                size: cs,
                blur: cb,
                rect: alloc_rect_in(st.shelves, st.width, cw, ch),
                advance: engine::spec_advance(cp, cs, cb) as u32,
                yoff: engine::spec_yoff(cs, cb) as i32,
            };
            (
                LayoutState {
                    shelves: alloc_shelves(st.shelves, st.width, cw, ch),
                    height: if can_alloc_in(st.shelves, st.width, st.height, cw, ch) {
                        st.height
                    } else {
                        grown
                    },
                    glyphs: st.glyphs.push(g),
                    ..st
                },
                true,
            )
        } else {
            (
                LayoutState {
                    height: if st.height < MAX_ATLAS_DIM {
                        grown
                    } else {
                        st.height
                    },
                    skips: st.skips + 1,
                    ..st
                },
                false,
            )
        }
    }
}

/// The state after laying `text[i..]` out from `st`.
pub open spec fn run_fold(st: LayoutState, text: Seq<char>, i: int, cs: u32, cb: u32) -> LayoutState
    decreases text.len() - i,
{
    if i < 0 || i >= text.len() {
        st
    } else {
        run_fold(layout_step(st, text[i] as u32, cs, cb).0, text, i + 1, cs, cb)
    }
}

/// The emission record of laying `text[i..]` out from `st`: the step
/// flags, in order.
pub open spec fn run_fold_em(st: LayoutState, text: Seq<char>, i: int, cs: u32, cb: u32) -> Seq<
    bool,
>
    decreases text.len() - i,
{
    if i < 0 || i >= text.len() {
        Seq::empty()
    } else {
        let step = layout_step(st, text[i] as u32, cs, cb);
        seq![step.1] + run_fold_em(step.0, text, i + 1, cs, cb)
    }
}

/// What a layout call leaves behind, in terms of its emission record `em`:
/// one entry per codepoint; every emitted codepoint's glyph is in the
/// final cache; the quads are exactly the emitted codepoints' quads at the
/// run's pen positions; and exactly one `AtlasFull` event was recorded per
/// skipped codepoint, appended to the events that were already there.
pub open spec fn degraded_outcome(
    s: FontStash,
    text: Seq<char>,
    em: Seq<bool>,
    quads: Seq<FonsQuad>,
    x: int,
    y: int,
    old_events: Seq<ErrorEvent>,
) -> bool {
    let st = s.cur();
    let total = run_width(text, 0, 0, st.size, st.blur, st.spacing);
    let pen0 = sat(sat(x) + h_align_shift(st.align.horizontal, total));
    let peny = sat(y);
    let voff = v_align_shift(st.align.vertical, st.size);
    &&& em.len() == text.len()
    &&& (forall|k: int|
        0 <= k < em.len() && em[k] ==> find_glyph(
            s.fonts@[st.font as int].glyphs@,
            (#[trigger] text[k]) as u32,
            st.size,
            st.blur,
        ) is Some)
    &&& quads == emitted_quads(s, text, em, 0, pen0, peny, voff)
    &&& s.events@.len() == old_events.len() + count_false(em)
    &&& old_events.is_prefix_of(s.events@)
    &&& (forall|j: int|
        old_events.len() <= j < s.events@.len() ==> (#[trigger] s.events@[j]).code
            == ErrorCode::AtlasFull)
}

/// Appending one codepoint and its emission flag appends that codepoint's
/// contribution (or nothing), at the pen the run reaches after the
/// shorter text.
proof fn lemma_emitted_snoc(
    s: FontStash,
    t: Seq<char>,
    em: Seq<bool>,
    c: char,
    b: bool,
    i: int,
    pen: int,
    peny: int,
    voff: int,
)
    requires
        0 <= i <= t.len(),
        em.len() == t.len(),
        s.cur().font < s.fonts@.len(),
    ensures
        emitted_quads(s, t.push(c), em.push(b), i, pen, peny, voff) =~= emitted_quads(
            s,
            t,
            em,
            i,
            pen,
            peny,
            voff,
        ) + (if b {
            glyph_contribution(
                s,
                c,
                run_width(t, i, pen, s.cur().size, s.cur().blur, s.cur().spacing),
                peny,
                voff,
            )
        } else {
            Seq::<FonsQuad>::empty()
        }),
    decreases t.len() - i,
{
    let tc = t.push(c);
    let emc = em.push(b);
    if i == t.len() {
        assert(tc[i] == c);
        assert(emc[i] == b);
        let pen2 = sat(pen + engine::spec_advance(c as u32, s.cur().size, s.cur().blur) + s.cur().spacing);
        assert(emitted_quads(s, tc, emc, i + 1, pen2, peny, voff) =~= Seq::<FonsQuad>::empty());
        assert(run_width(t, i, pen, s.cur().size, s.cur().blur, s.cur().spacing) == pen);
    } else {
        assert(tc[i] == t[i]);
        assert(emc[i] == em[i]);
        let pen2 = sat(
            pen + engine::spec_advance(t[i] as u32, s.cur().size, s.cur().blur) + s.cur().spacing,
        );
        lemma_emitted_snoc(s, t, em, c, b, i + 1, pen2, peny, voff);
    }
}

/// Growing the current font's cache by one record changes nothing about
/// the quads of codepoints that were emitted before.
proof fn lemma_emitted_cache_grow(
    s: FontStash,
    s2: FontStash,
    g: Glyph,
    t: Seq<char>,
    em: Seq<bool>,
    i: int,
    pen: int,
    peny: int,
    voff: int,
)
    requires
        0 <= i <= t.len(),
        em.len() == t.len(),
        s.cur() == s2.cur(),
        s.cur().font < s.fonts@.len(),
        s2.fonts@.len() == s.fonts@.len(),
        s2.fonts@[s.cur().font as int].glyphs@ == s.fonts@[s.cur().font as int].glyphs@.push(g),
        forall|k: int|
            i <= k < t.len() && em[k] ==> find_glyph(
                s.fonts@[s.cur().font as int].glyphs@,
                (#[trigger] t[k]) as u32,
                s.cur().size,
                s.cur().blur,
            ) is Some,
    ensures
        emitted_quads(s2, t, em, i, pen, peny, voff) =~= emitted_quads(s, t, em, i, pen, peny, voff),
    decreases t.len() - i,
{
    if i < t.len() {
        let f = s.cur().font as int;
        let cache = s.fonts@[f].glyphs@;
        let cp = t[i] as u32;
        let pen2 = sat(
            pen + engine::spec_advance(cp, s.cur().size, s.cur().blur) + s.cur().spacing,
        );
        lemma_emitted_cache_grow(s, s2, g, t, em, i + 1, pen2, peny, voff);
        if em[i] {
            lemma_find_push_preserves(cache, g, cp, s.cur().size, s.cur().blur);
            crate::stash::lemma_find_glyph(cache, cp, s.cur().size, s.cur().blur);
            let gi = find_glyph(cache, cp, s.cur().size, s.cur().blur).unwrap();
            assert(s2.fonts@[f].glyphs@[gi] == cache[gi]);
        }
    }
}

/// `emitted_quads` reads only the current style and the font table: two
/// stashes that agree on those lay an emission record out identically.
proof fn lemma_emitted_same_view(
    s: FontStash,
    s2: FontStash,
    t: Seq<char>,
    em: Seq<bool>,
    i: int,
    pen: int,
    peny: int,
    voff: int,
)
    requires
        s.cur() == s2.cur(),
        s.fonts@ == s2.fonts@,
    ensures
        emitted_quads(s2, t, em, i, pen, peny, voff) =~= emitted_quads(s, t, em, i, pen, peny, voff),
    decreases t.len() - i,
{
    if 0 <= i < t.len() && s.cur().font < s.fonts@.len() {
        let pen2 = sat(
            pen + engine::spec_advance(t[i] as u32, s.cur().size, s.cur().blur) + s.cur().spacing,
        );
        lemma_emitted_same_view(s, s2, t, em, i + 1, pen2, peny, voff);
    }
}

/// The containment holds for degraded lines too: every quad that an
/// emission record emits lies inside the run's box, whichever codepoints
/// were skipped.
pub proof fn lemma_bounds_contain_emitted(
    s: FontStash,
    text: Seq<char>,
    em: Seq<bool>,
    i: int,
    pen: int,
    peny: int,
    voff: int,
)
    requires
        s.wf(),
        s.cur().font < s.fonts@.len(),
        0 <= i <= text.len(),
        -PEN_LIMIT <= pen <= PEN_LIMIT,
    ensures
        forall|k: int|
            0 <= k < emitted_quads(s, text, em, i, pen, peny, voff).len() ==> {
                let q = #[trigger] emitted_quads(s, text, em, i, pen, peny, voff)[k];
                let cs = s.cur().size;
                let cb = s.cur().blur;
                &&& run_min_x(text, i, pen, cs, cb, s.cur().spacing) <= q.x0
                &&& q.x1 <= run_max_x(text, i, pen, cs, cb, s.cur().spacing)
                &&& q.y0 == (peny + voff + engine::spec_yoff(cs, cb)) as i64
                &&& q.y1 == (peny + voff + engine::spec_yoff(cs, cb) + engine::spec_cell_h(
                    cs,
                    cb,
                )) as i64
            },
    decreases text.len() - i,
{
    let cs = s.cur().size;
    let cb = s.cur().blur;
    let sp = s.cur().spacing;
    let quads = emitted_quads(s, text, em, i, pen, peny, voff);
    if i < text.len() {
        let cp = text[i] as u32;
        let pen2 = sat(pen + engine::spec_advance(cp, cs, cb) + sp);
        lemma_bounds_contain_emitted(s, text, em, i + 1, pen2, peny, voff);
        let rest = emitted_quads(s, text, em, i + 1, pen2, peny, voff);
        assert(run_min_x(text, i, pen, cs, cb, sp) <= run_min_x(text, i + 1, pen2, cs, cb, sp));
        assert(run_max_x(text, i, pen, cs, cb, sp) >= run_max_x(text, i + 1, pen2, cs, cb, sp));
        if 0 <= i < em.len() && em[i] {
            match find_glyph(s.fonts@[s.cur().font as int].glyphs@, cp, cs, cb) {
                Some(gi) => {
                    crate::stash::lemma_find_glyph(
                        s.fonts@[s.cur().font as int].glyphs@,
                        cp,
                        cs,
                        cb,
                    );
                    let g = s.fonts@[s.cur().font as int].glyphs@[gi];
                    assert(crate::stash::glyph_wf(g, s.atlas.width, s.atlas.height));
                    assert(quads =~= seq![quad_of(g, pen, peny, voff)] + rest);
                    assert forall|k: int| 0 <= k < quads.len() implies {
                        let q = #[trigger] quads[k];
                        &&& run_min_x(text, i, pen, cs, cb, sp) <= q.x0
                        &&& q.x1 <= run_max_x(text, i, pen, cs, cb, sp)
                        &&& q.y0 == (peny + voff + engine::spec_yoff(cs, cb)) as i64
                        &&& q.y1 == (peny + voff + engine::spec_yoff(cs, cb)
                            + engine::spec_cell_h(cs, cb)) as i64
                    } by {
                        if k == 0 {
                            assert(quads[0] == quad_of(g, pen, peny, voff));
                            engine::lemma_cell_bounds(cp, cs, cb);
                        } else {
                            assert(quads[k] == rest[k - 1]);
                        }
                    }
                },
                None => {
                    assert(quads =~= rest);
                    assert forall|k: int| 0 <= k < quads.len() implies quads[k] == rest[k] by {}
                },
            }
        } else {
            assert(quads =~= rest);
            assert forall|k: int| 0 <= k < quads.len() implies quads[k] == rest[k] by {}
        }
    }
}

/// Every codepoint of `text` has a cached glyph in the current font of `s`.
pub open spec fn all_cached(s: FontStash, text: Seq<char>) -> bool {
    &&& s.cur().font < s.fonts@.len()
    &&& forall|i: int|
        0 <= i < text.len() ==> find_glyph(
            s.fonts@[s.cur().font as int].glyphs@,
            (#[trigger] text[i]) as u32,
            s.cur().size,
            s.cur().blur,
        ) is Some
}

/// The quads of `text` laid out at `(x, y)` under the current style of
/// `s`, when every glyph is cached: the pen starts at `x` shifted by the
/// alignment, and each cached glyph yields its quad.
pub open spec fn layout_quads(s: FontStash, x: int, y: int, text: Seq<char>) -> Seq<FonsQuad> {
    let st = s.cur();
    let total = run_width(text, 0, 0, st.size, st.blur, st.spacing);
    let pen0 = sat(sat(x) + h_align_shift(st.align.horizontal, total));
    let peny = sat(y);
    let voff = v_align_shift(st.align.vertical, st.size);
    layout_rec(s, text, 0, pen0, peny, voff)
}

/// Iterator over the quads of one laid-out line.  The whole line is laid
/// out at construction; the quads are handed out in order.  It is not
/// restartable: lay the line out again for a fresh iterator.
pub struct FonsTextIter {
    pub quads: Vec<FonsQuad>,
    pub next_ix: usize,
    /// The style's packed RGBA color at layout time, for the consumer of
    /// the quads; color is never baked into the atlas.
    pub color: u32,
    /// The emission record: one flag per codepoint of the laid-out text,
    /// true where a quad was emitted, false where the glyph was skipped
    /// because the atlas was full.
    pub em: Ghost<Seq<bool>>,
}

impl FonsTextIter {
    /// Lays `text` out as one line at pen position `(x, y)` under the
    /// stash's current style.
    ///
    /// Fails with `FoundNoFont`, mutating nothing, exactly when the
    /// current style's font index matches no registered font.  Otherwise
    /// each codepoint's glyph is taken from the cache or rasterized; a
    /// glyph that cannot be placed even after one atlas expansion is
    /// skipped (the pen still advances by its engine advance).  Nothing
    /// here is left open: the emission record and the final packer and
    /// cache state are exactly the fold of `layout_step` over the text
    /// (`run_fold_em`, `run_fold`), so a codepoint is skipped precisely
    /// when its cell cannot be placed even after the one height-doubling,
    /// and the quads are the emitted codepoints' quads at the run's pen
    /// positions (`degraded_outcome`).  When every glyph is already
    /// cached, nothing is mutated and the quads are exactly
    /// `layout_quads` of the starting state.
    #[verifier::rlimit(100)]
    #[verifier::spinoff_prover]
    pub fn from_text(stash: &mut FontStash, x: i64, y: i64, text: &str) -> (r: Result<
        FonsTextIter,
        FonsError,
    >)
        requires
            old(stash).wf(),
        ensures
            final(stash).wf(),
            final(stash).states@ == old(stash).states@,
            (old(stash).cur().font >= old(stash).fonts@.len()) <==> (r matches Err(e) && e
                == FonsError::FoundNoFont),
            old(stash).cur().font >= old(stash).fonts@.len() ==> *final(stash) == *old(stash),
            final(stash).fonts@.len() == old(stash).fonts@.len(),
            forall|k: int|
                0 <= k < old(stash).fonts@.len() ==> (#[trigger] final(stash).fonts@[k]).name@
                    == old(stash).fonts@[k].name@ && final(stash).fonts@[k].data@ == old(
                    stash,
                ).fonts@[k].data@,
            final(stash).atlas.width == old(stash).atlas.width,
            final(stash).atlas.height >= old(stash).atlas.height,
            match r {
                Ok(it) => {
                    &&& it.next_ix == 0
                    &&& it.color == old(stash).cur().color
                    &&& it.quads@.len() <= text@.len()
                    &&& (forall|k: int|
                        0 <= k < it.quads@.len() ==> (#[trigger] it.quads@[k]).s0
                            <= it.quads@[k].s1 <= final(stash).atlas.width && it.quads@[k].t0
                            <= it.quads@[k].t1 <= final(stash).atlas.height)
                    &&& (forall|k: int|
                        0 <= k < it.quads@.len() ==> (#[trigger] it.quads@[k]).x0
                            <= it.quads@[k].x1 && it.quads@[k].y0 <= it.quads@[k].y1)
                    &&& (all_cached(*old(stash), text@) ==> (*final(stash) == *old(stash)
                        && it.quads@ == layout_quads(*old(stash), x as int, y as int, text@)))
                    &&& (final(stash).events@ == old(stash).events@ ==> (all_cached(
                        *final(stash),
                        text@,
                    ) && it.quads@ == layout_quads(*final(stash), x as int, y as int, text@)
                        && it.quads@.len() == text@.len()))
                    &&& degraded_outcome(
                        *final(stash),
                        text@,
                        it.em@,
                        it.quads@,
                        x as int,
                        y as int,
                        old(stash).events@,
                    )
                    &&& ({
                        let f = old(stash).cur().font as int;
                        let st0 = stash_state(*old(stash), f, 0);
                        let cs = old(stash).cur().size;
                        let cb = old(stash).cur().blur;
                        &&& it.em@ == run_fold_em(st0, text@, 0, cs, cb)
                        &&& stash_state(*final(stash), f, count_false(it.em@)) == run_fold(
                            st0,
                            text@,
                            0,
                            cs,
                            cb,
                        )
                    })
                },
                Err(e) => e == FonsError::FoundNoFont,
            },
    {
        let ghost s0 = *old(stash);
        let st = stash.states[stash.states.len() - 1];
        let fu = st.font;
        if fu as usize >= stash.fonts.len() {
            return Err(FonsError::FoundNoFont);
        }
        let n = text.unicode_len();
        // Measure pass: the run's total advance, for the alignment shift.
        let mut total: i64 = 0;
        let mut i: usize = 0;
        while i < n
            invariant
                *stash == s0,
                s0.wf(),
                st == s0.cur(),
                st.wf(),
                n == text@.len(),
                0 <= i <= n,
                -PEN_LIMIT <= total <= PEN_LIMIT,
                run_width(text@, 0, 0, st.size, st.blur, st.spacing) == run_width(
                    text@,
                    i as int,
                    total as int,
                    st.size,
                    st.blur,
                    st.spacing,
                ),
            decreases n - i,
        {
            let c = text.get_char(i);
            proof {
                engine::lemma_cell_bounds(c as u32, st.size, st.blur);
            }
            let adv = engine::glyph_advance(c as u32, st.size, st.blur);
            total = sat_add(total, adv as i64 + st.spacing as i64);
            i += 1;
        }
        // Alignment shifts.
        let t: i64 = if total < 0 {
            0
        } else {
            total
        };
        let shift: i64 = match st.align.horizontal {
            AlignH::Left => 0,
            AlignH::Center => -(t / 2),
            AlignH::Right => -t,
        };
        proof {
            assert(shift == h_align_shift(st.align.horizontal, total as int));
            engine::lemma_cell_bounds(0u32, st.size, st.blur);
        }
        let voff: i64 = match st.align.vertical {
            AlignV::Top => engine::font_ascent(st.size) as i64,
            AlignV::Middle => engine::font_ascent(st.size) as i64 - (engine::font_line_height(
                st.size,
            ) / 2) as i64,
            AlignV::Bottom => -(engine::font_descent(st.size) as i64),
            AlignV::Baseline => 0,
        };
        proof {
            assert(voff == v_align_shift(st.align.vertical, st.size));
        }
        let mut pen: i64 = sat_add(sat_clamp(x), shift);
        let peny: i64 = sat_clamp(y);
        let ghost pen0 = pen as int;
        // Emit pass.  The ghost emission record keeps one flag per
        // codepoint: emitted, or skipped because the atlas was full.
        let ghost mut em: Seq<bool> = Seq::empty();
        let ghost fst0 = stash_state(s0, fu as int, 0);
        proof {
            assert(text@.take(0int) =~= Seq::<char>::empty());
            assert(count_false(Seq::<bool>::empty()) == 0);
            assert(stash_state(*stash, fu as int, 0) == fst0);
        }
        let mut quads: Vec<FonsQuad> = Vec::new();
        let mut j: usize = 0;
        while j < n
            invariant
                s0.wf(),
                stash.wf(),
                st == s0.cur(),
                st.wf(),
                fu == st.font,
                (fu as usize) < stash.fonts@.len(),
                stash.states@ == s0.states@,
                stash.fonts@.len() == s0.fonts@.len(),
                forall|k: int|
                    0 <= k < s0.fonts@.len() ==> (#[trigger] stash.fonts@[k]).name@
                        == s0.fonts@[k].name@ && stash.fonts@[k].data@ == s0.fonts@[k].data@,
                stash.atlas.width == s0.atlas.width,
                stash.atlas.height >= s0.atlas.height,
                n == text@.len(),
                0 <= j <= n,
                -PEN_LIMIT <= pen <= PEN_LIMIT,
                -PEN_LIMIT <= peny <= PEN_LIMIT,
                voff == v_align_shift(st.align.vertical, st.size),
                -1024 <= voff <= 1024,
                quads@.len() <= j,
                forall|k: int|
                    0 <= k < quads@.len() ==> (#[trigger] quads@[k]).s0 <= quads@[k].s1
                        <= stash.atlas.width && quads@[k].t0 <= quads@[k].t1
                        <= stash.atlas.height,
                forall|k: int|
                    0 <= k < quads@.len() ==> (#[trigger] quads@[k]).x0 <= quads@[k].x1
                        && quads@[k].y0 <= quads@[k].y1,
                all_cached(s0, text@) ==> (*stash == s0 && layout_rec(
                    s0,
                    text@,
                    0,
                    pen0,
                    peny as int,
                    voff as int,
                ) == quads@ + layout_rec(
                    s0,
                    text@,
                    j as int,
                    pen as int,
                    peny as int,
                    voff as int,
                )),
                s0.events@.is_prefix_of(stash.events@),
                em.len() == j as int,
                forall|k: int|
                    0 <= k < j && em[k] ==> find_glyph(
                        stash.fonts@[fu as int].glyphs@,
                        (#[trigger] text@[k]) as u32,
                        st.size,
                        st.blur,
                    ) is Some,
                quads@ =~= emitted_quads(
                    *stash,
                    text@.take(j as int),
                    em,
                    0,
                    pen0,
                    peny as int,
                    voff as int,
                ),
                pen as int == run_width(
                    text@.take(j as int),
                    0,
                    pen0,
                    st.size,
                    st.blur,
                    st.spacing,
                ),
                stash.events@.len() == s0.events@.len() + count_false(em),
                forall|jj: int|
                    s0.events@.len() <= jj < stash.events@.len() ==> (
                    #[trigger] stash.events@[jj]).code == ErrorCode::AtlasFull,
                run_fold(fst0, text@, 0, st.size, st.blur) == run_fold(
                    stash_state(*stash, fu as int, count_false(em)),
                    text@,
                    j as int,
                    st.size,
                    st.blur,
                ),
                run_fold_em(fst0, text@, 0, st.size, st.blur) =~= em + run_fold_em(
                    stash_state(*stash, fu as int, count_false(em)),
                    text@,
                    j as int,
                    st.size,
                    st.blur,
                ),
                stash.events@ == s0.events@ ==> ({
                    &&& (forall|k: int|
                        0 <= k < j ==> find_glyph(
                            stash.fonts@[fu as int].glyphs@,
                            (#[trigger] text@[k]) as u32,
                            st.size,
                            st.blur,
                        ) is Some)
                    &&& pen as int == run_width(
                        text@.take(j as int),
                        0,
                        pen0,
                        st.size,
                        st.blur,
                        st.spacing,
                    )
                    &&& quads@ =~= layout_rec(
                        *stash,
                        text@.take(j as int),
                        0,
                        pen0,
                        peny as int,
                        voff as int,
                    )
                }),
            decreases n - j,
        {
            let c = text.get_char(j);
            let cp = c as u32;
            proof {
                engine::lemma_cell_bounds(cp, st.size, st.blur);
            }
            let adv = engine::glyph_advance(cp, st.size, st.blur);
            let ghost pre = *stash;
            let ghost pen_pre = pen as int;
            let res = stash.get_or_rasterize(FontIx(fu), c, st.size, st.blur);
            proof {
                assert(crate::state::clamp_size(st.size) == st.size);
                assert(crate::state::clamp_blur(st.blur) == st.blur);
            }
            match res {
                Ok(g) => {
                    proof {
                        engine::lemma_cell_bounds(g.codepoint, g.size, g.blur);
                    }
                    let q = FonsQuad {
                        x0: pen,
                        y0: peny + voff + g.yoff as i64,
                        x1: pen + g.rect.w as i64,
                        y1: peny + voff + g.yoff as i64 + g.rect.h as i64,
                        s0: g.rect.x,
                        t0: g.rect.y,
                        s1: g.rect.x + g.rect.w,
                        t1: g.rect.y + g.rect.h,
                    };
                    quads.push(q);
                },
                Err(_) => {},
            }
            pen = sat_add(pen, adv as i64 + st.spacing as i64);
            j += 1;
            proof {
                if all_cached(s0, text@) {
                    let f = fu as int;
                    let gix = find_glyph(
                        s0.fonts@[f].glyphs@,
                        cp,
                        st.size,
                        st.blur,
                    ).unwrap();
                    crate::stash::lemma_find_glyph(s0.fonts@[f].glyphs@, cp, st.size, st.blur);
                    let gg = s0.fonts@[f].glyphs@[gix];
                    assert(pre.glyph_hit(f, cp, st.size, st.blur) == Some(gg));
                    assert(res == Ok::<Glyph, FonsError>(gg));
                    assert(*stash == s0);
                    let restq = layout_rec(
                        s0,
                        text@,
                        j as int,
                        pen as int,
                        peny as int,
                        voff as int,
                    );
                    assert(layout_rec(s0, text@, j - 1, pen_pre, peny as int, voff as int)
                        =~= seq![quad_of(gg, pen_pre, peny as int, voff as int)] + restq);
                    assert(quads@.last() == quad_of(gg, pen_pre, peny as int, voff as int));
                    assert(quads@.drop_last() + (seq![
                        quad_of(gg, pen_pre, peny as int, voff as int),
                    ] + restq) =~= quads@ + restq);
                }
                if stash.events@ == s0.events@ {
                    // Events only grow; equality now means they were equal
                    // before this iteration as well, and this glyph was
                    // not skipped.
                    assert(pre.events@ =~= s0.events@);
                    let f = fu as int;
                    let cache_pre = pre.fonts@[f].glyphs@;
                    let pk = text@.take(j - 1);
                    let tk = text@.take(j as int);
                    assert(tk =~= pk.push(text@[j - 1]));
                    assert(text@[j - 1] == c);
                    lemma_run_width_snoc(pk, c, 0, pen0, st.size, st.blur, st.spacing);
                    assert(stash.cur() == st);
                    match find_glyph(cache_pre, cp, st.size, st.blur) {
                        Some(gix) => {
                            // A hit: nothing changed.
                            crate::stash::lemma_find_glyph(cache_pre, cp, st.size, st.blur);
                            let gg = cache_pre[gix];
                            assert(pre.glyph_hit(f, cp, st.size, st.blur) == Some(gg));
                            assert(res == Ok::<Glyph, FonsError>(gg));
                            assert(*stash == pre);
                            lemma_layout_snoc(*stash, pk, c, 0, pen0, peny as int, voff as int);
                            assert(glyph_contribution(*stash, c, pen_pre, peny as int, voff as int)
                                =~= seq![quad_of(gg, pen_pre, peny as int, voff as int)]);
                            assert(quads@.last() == quad_of(gg, pen_pre, peny as int, voff as int));
                            assert(quads@.drop_last() + glyph_contribution(
                                *stash,
                                c,
                                pen_pre,
                                peny as int,
                                voff as int,
                            ) =~= quads@);
                        },
                        None => {
                            // A miss that succeeded: the cache grew by one.
                            assert(pre.glyph_hit(f, cp, st.size, st.blur) is None);
                            let g = res.unwrap();
                            assert(stash.fonts@[f].glyphs@ == cache_pre.push(g));
                            assert forall|k: int| 0 <= k < pk.len() implies find_glyph(
                                cache_pre,
                                (#[trigger] pk[k]) as u32,
                                st.size,
                                st.blur,
                            ) is Some by {
                                assert(pk[k] == text@[k]);
                            }
                            lemma_layout_cache_grow(
                                pre,
                                *stash,
                                g,
                                pk,
                                0,
                                pen0,
                                peny as int,
                                voff as int,
                            );
                            lemma_layout_snoc(*stash, pk, c, 0, pen0, peny as int, voff as int);
                            crate::stash::lemma_find_glyph_push(
                                cache_pre,
                                g,
                                cp,
                                st.size,
                                st.blur,
                            );
                            assert(glyph_contribution(*stash, c, pen_pre, peny as int, voff as int)
                                =~= seq![quad_of(g, pen_pre, peny as int, voff as int)]);
                            assert(quads@.last() == quad_of(g, pen_pre, peny as int, voff as int));
                            assert(quads@.drop_last() + glyph_contribution(
                                *stash,
                                c,
                                pen_pre,
                                peny as int,
                                voff as int,
                            ) =~= quads@);
                            // Hits of the old cache survive the append.
                            assert forall|k: int| 0 <= k < j implies find_glyph(
                                stash.fonts@[f].glyphs@,
                                (#[trigger] text@[k]) as u32,
                                st.size,
                                st.blur,
                            ) is Some by {
                                if k < j - 1 {
                                    lemma_find_push_preserves(
                                        cache_pre,
                                        g,
                                        text@[k] as u32,
                                        st.size,
                                        st.blur,
                                    );
                                }
                            }
                        },
                    }
                }
                {
                    // Emission-record bookkeeping: this codepoint's flag.
                    let f = fu as int;
                    let pk = text@.take(j - 1);
                    let tk = text@.take(j as int);
                    assert(tk =~= pk.push(c));
                    lemma_run_width_snoc(pk, c, 0, pen0, st.size, st.blur, st.spacing);
                    assert(stash.cur() == st);
                    let ghost em_old = em;
                    em = em.push(res is Ok);
                    assert(em.drop_last() =~= em_old);
                    assert(count_false(em) == count_false(em_old) + (if res is Ok {
                        0int
                    } else {
                        1int
                    }));
                    let cache_pre = pre.fonts@[f].glyphs@;
                    match res {
                        Ok(g) => {
                            assert(stash.glyph_hit(f, cp, st.size, st.blur) == Some(g));
                            if find_glyph(cache_pre, cp, st.size, st.blur) is Some {
                                assert(*stash == pre);
                            } else {
                                assert(stash.fonts@[f].glyphs@ == cache_pre.push(g));
                                assert forall|k: int|
                                    0 <= k < pk.len() && em_old[k] implies find_glyph(
                                    cache_pre,
                                    (#[trigger] pk[k]) as u32,
                                    st.size,
                                    st.blur,
                                ) is Some by {
                                    assert(pk[k] == text@[k]);
                                }
                                lemma_emitted_cache_grow(
                                    pre,
                                    *stash,
                                    g,
                                    pk,
                                    em_old,
                                    0,
                                    pen0,
                                    peny as int,
                                    voff as int,
                                );
                            }
                            lemma_emitted_snoc(
                                *stash,
                                pk,
                                em_old,
                                c,
                                true,
                                0,
                                pen0,
                                peny as int,
                                voff as int,
                            );
                            assert(glyph_contribution(*stash, c, pen_pre, peny as int, voff as int)
                                =~= seq![quad_of(g, pen_pre, peny as int, voff as int)]);
                            assert(quads@.last() == quad_of(g, pen_pre, peny as int, voff as int));
                            assert(quads@.drop_last() + glyph_contribution(
                                *stash,
                                c,
                                pen_pre,
                                peny as int,
                                voff as int,
                            ) =~= quads@);
                            assert forall|k: int| 0 <= k < j && em[k] implies find_glyph(
                                stash.fonts@[f].glyphs@,
                                (#[trigger] text@[k]) as u32,
                                st.size,
                                st.blur,
                            ) is Some by {
                                if k < j - 1 {
                                    assert(em_old[k]);
                                    if find_glyph(cache_pre, cp, st.size, st.blur) is None {
                                        lemma_find_push_preserves(
                                            cache_pre,
                                            g,
                                            text@[k] as u32,
                                            st.size,
                                            st.blur,
                                        );
                                    }
                                }
                            }
                        },
                        Err(_) => {
                            assert(stash.fonts@ == pre.fonts@);
                            lemma_emitted_same_view(
                                pre,
                                *stash,
                                pk,
                                em_old,
                                0,
                                pen0,
                                peny as int,
                                voff as int,
                            );
                            lemma_emitted_snoc(
                                *stash,
                                pk,
                                em_old,
                                c,
                                false,
                                0,
                                pen0,
                                peny as int,
                                voff as int,
                            );
                            assert(quads@ + Seq::<FonsQuad>::empty() =~= quads@);
                        },
                    }
                    // The fold advances by exactly this call's transition.
                    let cur_pre = stash_state(pre, f, count_false(em_old));
                    let cur_post = stash_state(*stash, f, count_false(em));
                    let step = layout_step(cur_pre, cp, st.size, st.blur);
                    match res {
                        Ok(g) => {
                            if find_glyph(cache_pre, cp, st.size, st.blur) is Some {
                                assert(step == (cur_pre, true));
                                assert(cur_post == cur_pre);
                            } else {
                                let cw = engine::spec_cell_w(cp, st.size, st.blur) as u32;
                                let ch = engine::spec_cell_h(st.size, st.blur) as u32;
                                assert(crate::stash::fit_possible(pre.atlas, cw, ch));
                                assert(crate::stash::glyph_wf(
                                    g,
                                    stash.atlas.width,
                                    stash.atlas.height,
                                ));
                                assert(g == (Glyph {
                                    codepoint: cp,
                                    size: st.size,
                                    blur: st.blur,
                                    rect: alloc_rect_in(cur_pre.shelves, cur_pre.width, cw, ch),
                                    advance: engine::spec_advance(cp, st.size, st.blur) as u32,
                                    yoff: engine::spec_yoff(st.size, st.blur) as i32,
                                }));
                                assert(step.1);
                                assert(step.0 == cur_post);
                            }
                        },
                        Err(_) => {
                            let cw = engine::spec_cell_w(cp, st.size, st.blur) as u32;
                            let ch = engine::spec_cell_h(st.size, st.blur) as u32;
                            assert(!crate::stash::fit_possible(pre.atlas, cw, ch));
                            assert(!step.1);
                            assert(step.0 == cur_post);
                        },
                    }
                    assert(step == (cur_post, res is Ok));
                    assert(run_fold(cur_pre, text@, j - 1, st.size, st.blur) == run_fold(
                        cur_post,
                        text@,
                        j as int,
                        st.size,
                        st.blur,
                    ));
                    assert(run_fold_em(cur_pre, text@, j - 1, st.size, st.blur) =~= seq![
                        res is Ok,
                    ] + run_fold_em(cur_post, text@, j as int, st.size, st.blur));
                    assert(em_old + (seq![res is Ok] + run_fold_em(
                        cur_post,
                        text@,
                        j as int,
                        st.size,
                        st.blur,
                    )) =~= em + run_fold_em(cur_post, text@, j as int, st.size, st.blur));
                }
            }
        }
        proof {
            assert(total as int == run_width(text@, 0, 0, st.size, st.blur, st.spacing));
            if all_cached(s0, text@) {
                assert(layout_rec(s0, text@, n as int, pen as int, peny as int, voff as int)
                    =~= Seq::<FonsQuad>::empty());
                assert(quads@ + Seq::<FonsQuad>::empty() =~= quads@);
                assert(quads@ == layout_quads(s0, x as int, y as int, text@));
            }
            if stash.events@ == s0.events@ {
                assert(text@.take(n as int) =~= text@);
                assert(stash.cur() == st);
                assert(all_cached(*stash, text@));
                assert(quads@ == layout_quads(*stash, x as int, y as int, text@));
                lemma_layout_len(*stash, text@, 0, pen0, peny as int, voff as int);
            }
            assert(text@.take(n as int) =~= text@);
            assert(stash.cur() == st);
            assert(degraded_outcome(*stash, text@, em, quads@, x as int, y as int, s0.events@));
            assert(run_fold(stash_state(*stash, fu as int, count_false(em)), text@, n as int,
                st.size, st.blur) == stash_state(*stash, fu as int, count_false(em)));
            assert(run_fold_em(stash_state(*stash, fu as int, count_false(em)), text@, n as int,
                st.size, st.blur) =~= Seq::<bool>::empty());
            assert(em + Seq::<bool>::empty() =~= em);
            assert(em == run_fold_em(fst0, text@, 0, st.size, st.blur));
            assert(stash_state(*stash, fu as int, count_false(em)) == run_fold(
                fst0,
                text@,
                0,
                st.size,
                st.blur,
            ));
        }
        Ok(FonsTextIter { quads, next_ix: 0, color: st.color, em: Ghost(em) })
    }

    /// The next quad, or `None` when the line is exhausted.
    pub fn next(&mut self) -> (r: Option<FonsQuad>)
        ensures
            old(self).next_ix < old(self).quads@.len() ==> (r == Some(
                old(self).quads@[old(self).next_ix as int],
            ) && final(self).next_ix == old(self).next_ix + 1),
            old(self).next_ix >= old(self).quads@.len() ==> (r is None && *final(self) == *old(
                self,
            )),
            final(self).quads@ == old(self).quads@,
            final(self).color == old(self).color,
            final(self).em == old(self).em,
    {
        if self.next_ix < self.quads.len() {
            let q = self.quads[self.next_ix];
            self.next_ix += 1;
            Some(q)
        } else {
            None
        }
    }

    /// How many quads the line produced in all.
    pub fn len(&self) -> (r: usize)
        ensures
            r == self.quads@.len(),
    {
        self.quads.len()
    }
}

impl FontStash {
    /// Lays `text` out as one line at the origin under the current style
    /// and returns the iterator over its quads.  See
    /// `FonsTextIter::from_text`.
    pub fn text_iter(&mut self, text: &str) -> (r: Result<FonsTextIter, FonsError>)
        requires
            old(self).wf(),
        ensures
            final(self).wf(),
            final(self).states@ == old(self).states@,
            (old(self).cur().font >= old(self).fonts@.len()) <==> (r matches Err(e) && e
                == FonsError::FoundNoFont),
            old(self).cur().font >= old(self).fonts@.len() ==> *final(self) == *old(self),
            match r {
                Ok(it) => {
                    &&& it.next_ix == 0
                    &&& it.quads@.len() <= text@.len()
                    &&& (forall|k: int|
                        0 <= k < it.quads@.len() ==> (#[trigger] it.quads@[k]).s0
                            <= it.quads@[k].s1 <= final(self).atlas.width && it.quads@[k].t0
                            <= it.quads@[k].t1 <= final(self).atlas.height)
                    &&& (forall|k: int|
                        0 <= k < it.quads@.len() ==> (#[trigger] it.quads@[k]).x0
                            <= it.quads@[k].x1 && it.quads@[k].y0 <= it.quads@[k].y1)
                    &&& (all_cached(*old(self), text@) ==> (*final(self) == *old(self)
                        && it.quads@ == layout_quads(*old(self), 0, 0, text@)))
                    &&& (final(self).events@ == old(self).events@ ==> (all_cached(
                        *final(self),
                        text@,
                    ) && it.quads@ == layout_quads(*final(self), 0, 0, text@)
                        && it.quads@.len() == text@.len()))
                    &&& degraded_outcome(
                        *final(self),
                        text@,
                        it.em@,
                        it.quads@,
                        0,
                        0,
                        old(self).events@,
                    )
                    &&& ({
                        let f = old(self).cur().font as int;
                        let st0 = stash_state(*old(self), f, 0);
                        let cs = old(self).cur().size;
                        let cb = old(self).cur().blur;
                        &&& it.em@ == run_fold_em(st0, text@, 0, cs, cb)
                        &&& stash_state(*final(self), f, count_false(it.em@)) == run_fold(
                            st0,
                            text@,
                            0,
                            cs,
                            cb,
                        )
                    })
                },
                Err(e) => e == FonsError::FoundNoFont,
            },
    {
        FonsTextIter::from_text(self, 0, 0, text)
    }
}

impl FontStash {
    /// The box of `text` laid out as one line at `pos`:
    /// `[left_x, top_y, right_x, bottom_y]`.  The horizontal edges are the
    /// leftmost pen position and the rightmost cell edge of the run; the
    /// vertical band is the cell band of the current style (ink plus blur
    /// padding below and above).  Every quad a layout of the same text
    /// under the same state produces lies inside this box (see
    /// `lemma_bounds_contain_layout`).  Nothing is rasterized or mutated.
    /// With no valid current font the box collapses to the (clamped) pen
    /// position.  Multiple lines are not handled: a caller that wants them
    /// splits the text first.
    pub fn text_bounds_oneline(&self, pos: [i64; 2], text: &str) -> (r: [i64; 4])
        requires
            self.wf(),
        ensures
            ({
                let st = self.cur();
                let px = sat(pos[0] as int);
                let py = sat(pos[1] as int);
                if st.font >= self.fonts@.len() {
                    r[0] == px && r[1] == py && r[2] == px && r[3] == py
                } else {
                    let total = run_width(text@, 0, 0, st.size, st.blur, st.spacing);
                    let pen0 = sat(px + h_align_shift(st.align.horizontal, total));
                    let voff = v_align_shift(st.align.vertical, st.size);
                    let top = py + voff + engine::spec_yoff(st.size, st.blur);
                    &&& r[0] == run_min_x(text@, 0, pen0, st.size, st.blur, st.spacing)
                    &&& r[1] == top
                    &&& r[2] == run_max_x(text@, 0, pen0, st.size, st.blur, st.spacing)
                    &&& r[3] == top + engine::spec_cell_h(st.size, st.blur)
                }
            }),
    {
        let st = self.states[self.states.len() - 1];
        let px = sat_clamp(pos[0]);
        let py = sat_clamp(pos[1]);
        if st.font as usize >= self.fonts.len() {
            return [px, py, px, py];
        }
        let n = text.unicode_len();
        // Total advance, for the alignment shift.
        let mut total: i64 = 0;
        let mut i: usize = 0;
        while i < n
            invariant
                self.wf(),
                st == self.cur(),
                st.wf(),
                n == text@.len(),
                0 <= i <= n,
                -PEN_LIMIT <= total <= PEN_LIMIT,
                run_width(text@, 0, 0, st.size, st.blur, st.spacing) == run_width(
                    text@,
                    i as int,
                    total as int,
                    st.size,
                    st.blur,
                    st.spacing,
                ),
            decreases n - i,
        {
            let c = text.get_char(i);
            proof {
                engine::lemma_cell_bounds(c as u32, st.size, st.blur);
            }
            let adv = engine::glyph_advance(c as u32, st.size, st.blur);
            total = sat_add(total, adv as i64 + st.spacing as i64);
            i += 1;
        }
        let t: i64 = if total < 0 {
            0
        } else {
            total
        };
        let shift: i64 = match st.align.horizontal {
            AlignH::Left => 0,
            AlignH::Center => -(t / 2),
            AlignH::Right => -t,
        };
        proof {
            engine::lemma_cell_bounds(0u32, st.size, st.blur);
        }
        let voff: i64 = match st.align.vertical {
            AlignV::Top => engine::font_ascent(st.size) as i64,
            AlignV::Middle => engine::font_ascent(st.size) as i64 - (engine::font_line_height(
                st.size,
            ) / 2) as i64,
            AlignV::Bottom => -(engine::font_descent(st.size) as i64),
            AlignV::Baseline => 0,
        };
        let pen0: i64 = sat_add(px, shift);
        let (left, right) = self.run_extent(text, pen0, st);
        let yo = engine::glyph_yoff(st.size, st.blur);
        let ch = engine::glyph_cell_h(st.size, st.blur);
        let top: i64 = py + voff + yo as i64;
        [left, top, right, top + ch as i64]
    }

    /// The horizontal extent `[left, right]` of the run of `text` started
    /// at pen `pen0` under style `st`.
    fn run_extent(&self, text: &str, pen0: i64, st: crate::state::FonsState) -> (r: (i64, i64))
        requires
            self.wf(),
            st == self.cur(),
            -PEN_LIMIT <= pen0 <= PEN_LIMIT,
        ensures
            r.0 == run_min_x(text@, 0, pen0 as int, st.size, st.blur, st.spacing),
            r.1 == run_max_x(text@, 0, pen0 as int, st.size, st.blur, st.spacing),
            -PEN_LIMIT <= r.0 <= PEN_LIMIT,
            -PEN_LIMIT <= r.1 <= PEN_LIMIT + 303,
    {
        let ghost tgt_min = run_min_x(text@, 0, pen0 as int, st.size, st.blur, st.spacing);
        let ghost tgt_max = run_max_x(text@, 0, pen0 as int, st.size, st.blur, st.spacing);
        let n = text.unicode_len();
        let mut pen: i64 = pen0;
        let mut mn: i64 = pen0;
        let mut mx: i64 = pen0;
        let mut k: usize = 0;
        while k < n
            invariant
                self.wf(),
                st == self.cur(),
                st.wf(),
                n == text@.len(),
                0 <= k <= n,
                -PEN_LIMIT <= pen <= PEN_LIMIT,
                -PEN_LIMIT <= mn,
                mn as int <= pen as int,
                mx <= PEN_LIMIT + 303,
                tgt_min == run_min_x(text@, 0, pen0 as int, st.size, st.blur, st.spacing),
                tgt_max == run_max_x(text@, 0, pen0 as int, st.size, st.blur, st.spacing),
                imin(mn as int, run_min_x(text@, k as int, pen as int, st.size, st.blur, st.spacing))
                    == tgt_min,
                imax(mx as int, run_max_x(text@, k as int, pen as int, st.size, st.blur, st.spacing))
                    == tgt_max,
            decreases n - k,
        {
            let c = text.get_char(k);
            proof {
                engine::lemma_cell_bounds(c as u32, st.size, st.blur);
            }
            let cw = engine::glyph_cell_w(c as u32, st.size, st.blur);
            let adv = engine::glyph_advance(c as u32, st.size, st.blur);
            let edge: i64 = pen + cw as i64;
            if edge > mx {
                mx = edge;
            }
            let ghost pen_old = pen as int;
            pen = sat_add(pen, adv as i64 + st.spacing as i64);
            if pen < mn {
                mn = pen;
            }
            proof {
                assert(run_min_x(text@, k + 1, pen as int, st.size, st.blur, st.spacing)
                    <= pen as int);
            }
            k += 1;
        }
        proof {
            assert(run_min_x(text@, n as int, pen as int, st.size, st.blur, st.spacing)
                == pen as int);
            assert(run_max_x(text@, n as int, pen as int, st.size, st.blur, st.spacing)
                == pen as int);
        }
        let right: i64 = if mx >= pen {
            mx
        } else {
            pen
        };
        (mn, right)
    }

    /// The size `[width, height]` of `text` laid out as one line: the
    /// width of the run's box (rightmost cell edge minus leftmost pen) and
    /// the height of the current style's cell band (ink plus blur
    /// padding).  With no valid current font, `[0, 0]`.
    pub fn text_size_oneline(&self, text: &str) -> (r: [i64; 2])
        requires
            self.wf(),
        ensures
            ({
                let st = self.cur();
                if st.font >= self.fonts@.len() {
                    r[0] == 0 && r[1] == 0
                } else {
                    &&& r[0] == run_max_x(text@, 0, 0, st.size, st.blur, st.spacing) - run_min_x(
                        text@,
                        0,
                        0,
                        st.size,
                        st.blur,
                        st.spacing,
                    )
                    &&& r[1] == engine::spec_cell_h(st.size, st.blur)
                }
            }),
    {
        let st = self.states[self.states.len() - 1];
        if st.font as usize >= self.fonts.len() {
            return [0, 0];
        }
        let (left, right) = self.run_extent(text, 0, st);
        proof {
            engine::lemma_cell_bounds(0u32, st.size, st.blur);
        }
        let ch = engine::glyph_cell_h(st.size, st.blur);
        [right - left, ch as i64]
    }
}

/// Measurement is consistent with layout: every quad that laying `text`
/// out at `(x, y)` would emit (with its glyphs cached) lies inside the box
/// `text_bounds_oneline([x, y], text)` reports for the same state — its
/// horizontal edges between the box's left and right, its vertical band
/// exactly the box's top and bottom — and the box is well formed (left at
/// most right, top strictly above bottom).
pub proof fn lemma_bounds_contain_layout(s: FontStash, x: int, y: int, text: Seq<char>)
    requires
        s.wf(),
        s.cur().font < s.fonts@.len(),
    ensures
        ({
            let st = s.cur();
            let total = run_width(text, 0, 0, st.size, st.blur, st.spacing);
            let pen0 = sat(sat(x) + h_align_shift(st.align.horizontal, total));
            let top = sat(y) + v_align_shift(st.align.vertical, st.size) + engine::spec_yoff(
                st.size,
                st.blur,
            );
            &&& run_min_x(text, 0, pen0, st.size, st.blur, st.spacing) <= run_max_x(
                text,
                0,
                pen0,
                st.size,
                st.blur,
                st.spacing,
            )
            &&& top < top + engine::spec_cell_h(st.size, st.blur)
            &&& forall|k: int|
                0 <= k < layout_quads(s, x, y, text).len() ==> {
                    let q = #[trigger] layout_quads(s, x, y, text)[k];
                    &&& run_min_x(text, 0, pen0, st.size, st.blur, st.spacing) <= q.x0
                    &&& q.x1 <= run_max_x(text, 0, pen0, st.size, st.blur, st.spacing)
                    &&& q.y0 == top as i64
                    &&& q.y1 == (top + engine::spec_cell_h(st.size, st.blur)) as i64
                }
        }),
{
    let st = s.cur();
    let total = run_width(text, 0, 0, st.size, st.blur, st.spacing);
    let pen0 = sat(sat(x) + h_align_shift(st.align.horizontal, total));
    let peny = sat(y);
    let voff = v_align_shift(st.align.vertical, st.size);
    engine::lemma_cell_bounds(0u32, st.size, st.blur);
    assert(run_min_x(text, 0, pen0, st.size, st.blur, st.spacing) <= pen0);
    assert(run_max_x(text, 0, pen0, st.size, st.blur, st.spacing) >= pen0);
    lemma_bounds_contain_quads(s, text, 0, pen0, peny, voff);
}

/// Laying out the same text twice, from the same state and position, gives
/// identical quad sequences: layout is a pure function of the style
/// snapshot, the cache and atlas state, the position, and the text.
pub proof fn lemma_layout_deterministic(
    s: FontStash,
    x: int,
    y: int,
    text: Seq<char>,
    q1: Seq<FonsQuad>,
    q2: Seq<FonsQuad>,
)
    requires
        q1 == layout_quads(s, x, y, text),
        q2 == layout_quads(s, x, y, text),
    ensures
        q1 == q2,
{
}


} // verus!
