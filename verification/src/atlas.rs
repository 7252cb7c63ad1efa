//! The atlas: a shelf bin-packer over a growable 8-bit alpha pixel buffer.
//!
//! Glyph bitmaps are packed into horizontal shelves.  A shelf is a band of
//! rows; rectangles are placed left to right on a shelf, and a new shelf is
//! opened below the last one when no existing shelf can take a rectangle.
//! The packer chooses the lowest shelf that fits, so placement is the
//! lowest-y position available under this policy, and it is deterministic.
//!
//! The atlas keeps, as ghost state, the sequence of every rectangle it has
//! handed out since the last reset.  Its well-formedness invariant says that
//! those rectangles lie inside the texture and are pairwise disjoint.

use vstd::prelude::*;

verus! {

/// Largest texture dimension the engine supports (a common host limit).
pub const MAX_ATLAS_DIM: u32 = 8192;

/// An axis-aligned rectangle of texels inside the atlas.
#[derive(Debug, Clone, Copy, PartialEq, Eq, Structural)]
pub struct Rect {
    pub x: u32,
    pub y: u32,
    pub w: u32,
    pub h: u32,
}

impl Rect {
    /// Two rectangles share no texel.
    pub open spec fn disjoint(self, o: Rect) -> bool {
        self.x + self.w <= o.x || o.x + o.w <= self.x || self.y + self.h <= o.y || o.y + o.h
            <= self.y
    }

    /// The rectangle is non-empty and lies inside a `w` by `h` texture.
    pub open spec fn inside(self, w: u32, h: u32) -> bool {
        1 <= self.w && 1 <= self.h && self.x + self.w <= w && self.y + self.h <= h
    }

    /// The texel at column `x` and row `y` lies in this rectangle.
    pub open spec fn contains(self, x: int, y: int) -> bool {
        self.x <= x < self.x + self.w && self.y <= y < self.y + self.h
    }
}

/// One shelf: a band of rows starting at `y`, `h` rows tall, filled left to
/// right up to the cursor `x` (the first free column).
#[derive(Debug, Clone, Copy, PartialEq, Eq, Structural)]
pub struct Shelf {
    pub y: u32,
    pub h: u32,
    pub x: u32,
}

/// The atlas texture: packer state plus the pixel buffer, one byte of alpha
/// per texel, row-major with the origin in the top-left corner.
#[derive(Clone)]
pub struct Atlas {
    pub width: u32,
    pub height: u32,
    pub shelves: Vec<Shelf>,
    pub data: Vec<u8>,
    pub dirty: Option<Rect>,
    pub placed: Ghost<Seq<Rect>>,
}

/// A `w` by `h` rectangle fits on shelf `s` of a texture `width` wide.
pub open spec fn fits_on_shelf(s: Shelf, width: u32, w: u32, h: u32) -> bool {
    h <= s.h && s.x + w <= width
}

/// The index of the lowest shelf that fits a `w` by `h` rectangle, if any.
/// Shelves are kept in increasing `y` order, so the first fit is the lowest.
pub open spec fn first_fit(shelves: Seq<Shelf>, width: u32, w: u32, h: u32) -> Option<int>
    decreases shelves.len(),
{
    if shelves.len() == 0 {
        None
    } else if fits_on_shelf(shelves[0], width, w, h) {
        Some(0int)
    } else {
        match first_fit(shelves.drop_first(), width, w, h) {
            Some(i) => Some(i + 1),
            None => None,
        }
    }
}

/// The row where a new shelf would start: just below the last shelf.
pub open spec fn next_shelf_y(shelves: Seq<Shelf>) -> int {
    if shelves.len() == 0 {
        0
    } else {
        shelves.last().y + shelves.last().h
    }
}

/// The packer can place a `w` by `h` rectangle in a texture with these
/// shelves and dimensions: some shelf fits it, or there is room to open a
/// new shelf below the last one.
pub open spec fn can_alloc_in(shelves: Seq<Shelf>, width: u32, height: u32, w: u32, h: u32) -> bool {
    first_fit(shelves, width, w, h) is Some || (w <= width && next_shelf_y(shelves) + h <= height)
}

/// The rectangle the packer hands out for a `w` by `h` request, assuming
/// it can be placed: on the lowest shelf that fits, at its cursor;
/// otherwise at the left edge of a new shelf.  It does not depend on the
/// texture height.
pub open spec fn alloc_rect_in(shelves: Seq<Shelf>, width: u32, w: u32, h: u32) -> Rect {
    match first_fit(shelves, width, w, h) {
        Some(i) => Rect { x: shelves[i].x, y: shelves[i].y, w, h },
        None => Rect { x: 0, y: next_shelf_y(shelves) as u32, w, h },
    }
}

/// The shelves after the packer places a `w` by `h` rectangle: the chosen
/// shelf's cursor advances, or a new shelf opens below the last one.
pub open spec fn alloc_shelves(shelves: Seq<Shelf>, width: u32, w: u32, h: u32) -> Seq<Shelf> {
    match first_fit(shelves, width, w, h) {
        Some(i) => shelves.update(
            i,
            Shelf { y: shelves[i].y, h: shelves[i].h, x: (shelves[i].x + w) as u32 },
        ),
        None => shelves.push(Shelf { y: next_shelf_y(shelves) as u32, h, x: w }),
    }
}

impl Atlas {
    /// The packer can place a `w` by `h` rectangle: some shelf fits it, or
    /// there is room to open a new shelf below the last one.
    pub open spec fn can_alloc(self, w: u32, h: u32) -> bool {
        can_alloc_in(self.shelves@, self.width, self.height, w, h)
    }

    /// The rectangle `allocate` hands out for a `w` by `h` request,
    /// assuming `can_alloc`.
    pub open spec fn alloc_rect(self, w: u32, h: u32) -> Rect {
        alloc_rect_in(self.shelves@, self.width, w, h)
    }

    /// Shelves lie inside the texture, in increasing `y` order, without
    /// overlapping bands.
    pub open spec fn shelves_wf(self) -> bool {
        &&& forall|i: int|
            0 <= i < self.shelves@.len() ==> {
                &&& 1 <= (#[trigger] self.shelves@[i]).h
                &&& self.shelves@[i].x <= self.width
                &&& self.shelves@[i].y + self.shelves@[i].h <= self.height
            }
        &&& forall|i: int, j: int|
            0 <= i < j < self.shelves@.len() ==> (#[trigger] self.shelves@[i]).y
                + self.shelves@[i].h <= (#[trigger] self.shelves@[j]).y
    }

    /// Every placed rectangle sits on one of the shelves, to the left of its
    /// cursor and within its band.
    pub open spec fn placed_on_shelves(self) -> bool {
        forall|k: int|
            0 <= k < self.placed@.len() ==> rect_on_some_shelf(
                #[trigger] self.placed@[k],
                self.shelves@,
            )
    }

    /// Well-formedness: sound dimensions, a pixel buffer of the right size,
    /// ordered shelves, and placed rectangles that lie inside the texture,
    /// on their shelves, and pairwise disjoint.
    pub open spec fn wf(self) -> bool {
        &&& 1 <= self.width <= MAX_ATLAS_DIM
        &&& 1 <= self.height <= MAX_ATLAS_DIM
        &&& self.data@.len() == self.width * self.height
        &&& self.shelves_wf()
        &&& forall|k: int|
            0 <= k < self.placed@.len() ==> (#[trigger] self.placed@[k]).inside(
                self.width,
                self.height,
            )
        &&& self.placed_on_shelves()
        &&& forall|k1: int, k2: int|
            0 <= k1 < self.placed@.len() && 0 <= k2 < self.placed@.len() && k1 != k2 ==> (
            #[trigger] self.placed@[k1]).disjoint(#[trigger] self.placed@[k2])
        &&& match self.dirty {
            Some(r) => r.inside(self.width, self.height),
            None => true,
        }
    }

    /// The alpha value of the texel at column `x`, row `y`.
    pub open spec fn texel(self, x: int, y: int) -> u8 {
        buf_texel(self.data@, self.width, x, y)
    }
}

/// Rectangle `r` sits on shelf `s`: in its band, left of its cursor.
pub open spec fn on_shelf(r: Rect, s: Shelf) -> bool {
    r.y == s.y && r.h <= s.h && r.x + r.w <= s.x
}

/// Rectangle `r` sits on one of the shelves.
pub open spec fn rect_on_some_shelf(r: Rect, shelves: Seq<Shelf>) -> bool {
    exists|j: int| 0 <= j < shelves.len() && on_shelf(r, #[trigger] shelves[j])
}

/// `first_fit` returns the least index whose shelf fits the rectangle.
proof fn lemma_first_fit(shelves: Seq<Shelf>, width: u32, w: u32, h: u32)
    ensures
        match first_fit(shelves, width, w, h) {
            Some(i) => 0 <= i < shelves.len() && fits_on_shelf(shelves[i], width, w, h) && forall|
                k: int,
            |
                0 <= k < i ==> !fits_on_shelf(#[trigger] shelves[k], width, w, h),
            None => forall|k: int|
                0 <= k < shelves.len() ==> !fits_on_shelf(#[trigger] shelves[k], width, w, h),
        },
    decreases shelves.len(),
{
    if shelves.len() == 0 {
    } else if fits_on_shelf(shelves[0], width, w, h) {
    } else {
        let rest = shelves.drop_first();
        lemma_first_fit(rest, width, w, h);
        match first_fit(rest, width, w, h) {
            Some(i) => {
                assert(rest[i] == shelves[i + 1]);
                assert forall|k: int| 0 <= k < i + 1 implies !fits_on_shelf(
                    #[trigger] shelves[k],
                    width,
                    w,
                    h,
                ) by {
                    if k > 0 {
                        assert(rest[k - 1] == shelves[k]);
                        assert(!fits_on_shelf(rest[k - 1], width, w, h));
                    }
                }
            },
            None => {
                assert forall|k: int| 0 <= k < shelves.len() implies !fits_on_shelf(
                    #[trigger] shelves[k],
                    width,
                    w,
                    h,
                ) by {
                    if k > 0 {
                        assert(rest[k - 1] == shelves[k]);
                        assert(!fits_on_shelf(rest[k - 1], width, w, h));
                    }
                }
            },
        }
    }
}

impl Atlas {
    /// Creates an atlas of the given dimensions with an all-zero pixel
    /// buffer, no shelves, and nothing placed.
    pub fn new(width: u32, height: u32) -> (r: Atlas)
        requires
            1 <= width <= MAX_ATLAS_DIM,
            1 <= height <= MAX_ATLAS_DIM,
        ensures
            r.wf(),
            r.width == width,
            r.height == height,
            r.shelves@ =~= Seq::<Shelf>::empty(),
            r.placed@ =~= Seq::<Rect>::empty(),
            forall|i: int| 0 <= i < r.data@.len() ==> r.data@[i] == 0u8,
            r.dirty is None,
    {
        proof {
            assert(width * height <= 8192 * 8192) by (nonlinear_arith)
                requires
                    1 <= width <= 8192,
                    1 <= height <= 8192,
            ;
        }
        let n: usize = (width as usize) * (height as usize);
        let data: Vec<u8> = zero_pixels(n);
        Atlas {
            width,
            height,
            shelves: Vec::new(),
            data,
            dirty: None,
            placed: Ghost(Seq::empty()),
        }
    }

    /// Places a `w` by `h` rectangle if the packer has room, at the position
    /// `alloc_rect` describes; the pixel buffer is not touched.  Returns
    /// `None` exactly when no shelf fits the rectangle and there is no room
    /// for a new shelf.
    pub fn allocate(&mut self, w: u32, h: u32) -> (r: Option<Rect>)
        requires
            old(self).wf(),
            1 <= w,
            1 <= h,
        ensures
            final(self).wf(),
            final(self).width == old(self).width,
            final(self).height == old(self).height,
            final(self).data@ == old(self).data@,
            final(self).dirty == old(self).dirty,
            forall|x: int, y: int|
                (#[trigger] final(self).texel(x, y)) == old(self).texel(x, y),
            r is Some <==> old(self).can_alloc(w, h),
            match r {
                Some(rect) => {
                    &&& rect == old(self).alloc_rect(w, h)
                    &&& rect.inside(old(self).width, old(self).height)
                    &&& final(self).placed@ =~= old(self).placed@.push(rect)
                    &&& final(self).shelves@ == alloc_shelves(
                        old(self).shelves@,
                        old(self).width,
                        w,
                        h,
                    )
                },
                None => {
                    &&& final(self).shelves@ == old(self).shelves@
                    &&& final(self).placed@ == old(self).placed@
                },
            },
    {
        proof {
            lemma_first_fit(old(self).shelves@, old(self).width, w, h);
        }
        let ghost fit = first_fit(old(self).shelves@, old(self).width, w, h);
        let n: usize = self.shelves.len();
        let mut i: usize = 0;
        while i < n
            invariant
                *self == *old(self),
                old(self).wf(),
                1 <= w,
                1 <= h,
                fit == first_fit(old(self).shelves@, old(self).width, w, h),
                n == self.shelves@.len(),
                0 <= i <= n,
                forall|k: int|
                    0 <= k < i ==> !fits_on_shelf(
                        #[trigger] self.shelves@[k],
                        self.width,
                        w,
                        h,
                    ),
            decreases n - i,
        {
            let s = self.shelves[i];
            if h <= s.h && s.x <= self.width && w <= self.width - s.x {
                proof {
                    assert(fits_on_shelf(old(self).shelves@[i as int], old(self).width, w, h));
                    lemma_first_fit(old(self).shelves@, old(self).width, w, h);
                    assert(fit == Some(i as int));
                }
                let rect = Rect { x: s.x, y: s.y, w, h };
                self.shelves[i] = Shelf { y: s.y, h: s.h, x: s.x + w };
                proof {
                    self.placed@ = self.placed@.push(rect);
                    lemma_allocate_on_shelf_ok(*old(self), *self, rect, i as int);
                }
                return Some(rect);
            }
            i += 1;
        }
        proof {
            assert(fit is None);
        }
        // No shelf fits: try to open a new one below the last shelf.
        let bottom: u32 = if self.shelves.len() == 0 {
            0
        } else {
            let m = self.shelves.len() - 1;
            let last = self.shelves[m];
            proof {
                assert(self.shelves@[m as int].y + self.shelves@[m as int].h <= self.height);
            }
            last.y + last.h
        };
        proof {
            assert(bottom == next_shelf_y(self.shelves@));
        }
        if w <= self.width && bottom <= self.height && h <= self.height - bottom {
            let rect = Rect { x: 0, y: bottom, w, h };
            self.shelves.push(Shelf { y: bottom, h, x: w });
            proof {
                self.placed@ = self.placed@.push(rect);
                lemma_allocate_new_shelf_ok(*old(self), *self, rect);
            }
            Some(rect)
        } else {
            None
        }
    }
}

/// Placing a rectangle at the cursor of shelf `j` keeps the atlas invariant:
/// the new rectangle is disjoint from everything placed before it, because
/// rectangles on the same shelf end at or before the old cursor and
/// rectangles on other shelves lie in disjoint bands of rows.
proof fn lemma_allocate_on_shelf_ok(pre: Atlas, post: Atlas, rect: Rect, j: int)
    requires
        pre.wf(),
        0 <= j < pre.shelves@.len(),
        fits_on_shelf(pre.shelves@[j], pre.width, rect.w, rect.h),
        1 <= rect.w,
        1 <= rect.h,
        rect.x == pre.shelves@[j].x,
        rect.y == pre.shelves@[j].y,
        post.width == pre.width,
        post.height == pre.height,
        post.data@ == pre.data@,
        post.dirty == pre.dirty,
        post.shelves@ =~= pre.shelves@.update(
            j,
            Shelf {
                y: pre.shelves@[j].y,
                h: pre.shelves@[j].h,
                x: (pre.shelves@[j].x + rect.w) as u32,
            },
        ),
        post.placed@ =~= pre.placed@.push(rect),
    ensures
        post.wf(),
        rect.inside(pre.width, pre.height),
{
    let s = pre.shelves@[j];
    assert(rect.inside(pre.width, pre.height));
    // Shelves stay well formed: only the cursor of shelf `j` moved.
    assert(post.shelves_wf());
    // Every old rectangle still sits on its (possibly cursor-advanced) shelf.
    assert forall|k: int| 0 <= k < pre.placed@.len() implies rect_on_some_shelf(
        #[trigger] post.placed@[k],
        post.shelves@,
    ) by {
        let m = choose|m: int|
            0 <= m < pre.shelves@.len() && on_shelf(pre.placed@[k], #[trigger] pre.shelves@[m]);
        assert(on_shelf(post.placed@[k], post.shelves@[m]));
    }
    // The new rectangle sits on shelf `j`.
    assert(on_shelf(rect, post.shelves@[j]));
    assert(rect_on_some_shelf(rect, post.shelves@));
    // Disjointness of the new rectangle from each old one.
    assert forall|k: int| 0 <= k < pre.placed@.len() implies (#[trigger] pre.placed@[k]).disjoint(
        rect,
    ) by {
        let r = pre.placed@[k];
        assert(rect_on_some_shelf(r, pre.shelves@));
        let m = choose|m: int| 0 <= m < pre.shelves@.len() && on_shelf(r, #[trigger] pre.shelves@[m]);
        if m == j {
            // Same shelf: the old rectangle ends at or before the old cursor.
            assert(r.x + r.w <= rect.x);
        } else if m < j {
            // A lower-index shelf lies strictly above shelf `j`.
            assert(pre.shelves@[m].y + pre.shelves@[m].h <= pre.shelves@[j].y);
            assert(r.y + r.h <= rect.y);
        } else {
            assert(pre.shelves@[j].y + pre.shelves@[j].h <= pre.shelves@[m].y);
            assert(rect.y + rect.h <= r.y);
        }
    }
    lemma_push_disjoint(pre.placed@, rect);
}

/// If every rectangle of `s` is disjoint from `r` and `s` is pairwise
/// disjoint, then `s.push(r)` is pairwise disjoint.
proof fn lemma_push_disjoint(s: Seq<Rect>, r: Rect)
    requires
        forall|k1: int, k2: int|
            0 <= k1 < s.len() && 0 <= k2 < s.len() && k1 != k2 ==> (#[trigger] s[k1]).disjoint(
                #[trigger] s[k2],
            ),
        forall|k: int| 0 <= k < s.len() ==> (#[trigger] s[k]).disjoint(r),
    ensures
        forall|k1: int, k2: int|
            0 <= k1 < s.push(r).len() && 0 <= k2 < s.push(r).len() && k1 != k2 ==> (
            #[trigger] s.push(r)[k1]).disjoint(#[trigger] s.push(r)[k2]),
{
    let t = s.push(r);
    assert forall|k1: int, k2: int|
        0 <= k1 < t.len() && 0 <= k2 < t.len() && k1 != k2 implies (#[trigger] t[k1]).disjoint(
        #[trigger] t[k2],
    ) by {
        let n = s.len() as int;
        if k1 < n && k2 < n {
            assert(s[k1].disjoint(s[k2]));
        } else if k1 == n {
            assert(s[k2].disjoint(r));
        } else {
            assert(s[k1].disjoint(r));
        }
    }
}

/// Opening a new shelf below the last one keeps the atlas invariant: the new
/// band lies strictly below every existing shelf, hence below everything
/// placed so far.
proof fn lemma_allocate_new_shelf_ok(pre: Atlas, post: Atlas, rect: Rect)
    requires
        pre.wf(),
        first_fit(pre.shelves@, pre.width, rect.w, rect.h) is None,
        1 <= rect.w,
        1 <= rect.h,
        rect.x == 0,
        rect.y == next_shelf_y(pre.shelves@),
        rect.w <= pre.width,
        rect.y + rect.h <= pre.height,
        post.width == pre.width,
        post.height == pre.height,
        post.data@ == pre.data@,
        post.dirty == pre.dirty,
        post.shelves@ =~= pre.shelves@.push(Shelf { y: rect.y, h: rect.h, x: rect.w }),
        post.placed@ =~= pre.placed@.push(rect),
    ensures
        post.wf(),
        rect.inside(pre.width, pre.height),
{
    let n = pre.shelves@.len() as int;
    // The new shelf starts at or below the end of every existing band.
    assert forall|i: int| 0 <= i < n implies (#[trigger] pre.shelves@[i]).y + pre.shelves@[i].h
        <= rect.y by {
        if i < n - 1 {
            assert(pre.shelves@[i].y + pre.shelves@[i].h <= pre.shelves@[n - 1].y);
        }
    }
    assert(post.shelves_wf());
    assert forall|k: int| 0 <= k < pre.placed@.len() implies rect_on_some_shelf(
        #[trigger] post.placed@[k],
        post.shelves@,
    ) by {
        let m = choose|m: int|
            0 <= m < pre.shelves@.len() && on_shelf(pre.placed@[k], #[trigger] pre.shelves@[m]);
        assert(on_shelf(post.placed@[k], post.shelves@[m]));
    }
    assert(on_shelf(rect, post.shelves@[n]));
    assert(rect_on_some_shelf(rect, post.shelves@));
    assert forall|k: int| 0 <= k < pre.placed@.len() implies (#[trigger] pre.placed@[k]).disjoint(
        rect,
    ) by {
        let r = pre.placed@[k];
        assert(rect_on_some_shelf(r, pre.shelves@));
        let m = choose|m: int| 0 <= m < pre.shelves@.len() && on_shelf(r, #[trigger] pre.shelves@[m]);
        assert(r.y + r.h <= pre.shelves@[m].y + pre.shelves@[m].h);
        assert(pre.shelves@[m].y + pre.shelves@[m].h <= rect.y);
    }
    lemma_push_disjoint(pre.placed@, rect);
}

/// Row-major indexing is injective: distinct texels have distinct indices.
pub proof fn lemma_index_inj(width: int, x1: int, y1: int, x2: int, y2: int)
    by (nonlinear_arith)
    requires
        0 <= x1 < width,
        0 <= x2 < width,
        y1 * width + x1 == y2 * width + x2,
    ensures
        x1 == x2,
        y1 == y2,
{
}

/// A texel's row-major index lies inside the buffer.
pub proof fn lemma_index_bound(width: int, height: int, x: int, y: int)
    by (nonlinear_arith)
    requires
        0 <= x < width,
        0 <= y < height,
    ensures
        0 <= y * width + x < width * height,
{
}

/// The dirty region grown to cover `r` as well: a bounding box.
pub open spec fn dirty_union(d: Option<Rect>, r: Rect) -> Option<Rect> {
    match d {
        None => Some(r),
        Some(e) => {
            let x0 = if e.x <= r.x {
                e.x
            } else {
                r.x
            };
            let y0 = if e.y <= r.y {
                e.y
            } else {
                r.y
            };
            let x1 = if e.x + e.w >= r.x + r.w {
                e.x + e.w
            } else {
                r.x + r.w
            };
            let y1 = if e.y + e.h >= r.y + r.h {
                e.y + e.h
            } else {
                r.y + r.h
            };
            Some(Rect { x: x0, y: y0, w: (x1 - x0) as u32, h: (y1 - y0) as u32 })
        },
    }
}

/// Well-formedness does not depend on the pixel values or the dirty region:
/// it carries over to an atlas with the same packer state, a buffer of the
/// same size, and any dirty region inside the texture.
proof fn lemma_wf_transfer(a: Atlas, b: Atlas)
    requires
        a.wf(),
        b.width == a.width,
        b.height == a.height,
        b.data@.len() == a.data@.len(),
        b.shelves@ == a.shelves@,
        b.placed@ == a.placed@,
        match b.dirty {
            Some(r) => r.inside(b.width, b.height),
            None => true,
        },
    ensures
        b.wf(),
{
    assert forall|k: int| 0 <= k < b.placed@.len() implies rect_on_some_shelf(
        #[trigger] b.placed@[k],
        b.shelves@,
    ) by {
        assert(rect_on_some_shelf(a.placed@[k], a.shelves@));
    }
}

impl Atlas {
    /// Grows the dirty region to cover `r`.
    fn mark_dirty(&mut self, r: Rect)
        requires
            old(self).wf(),
            r.inside(old(self).width, old(self).height),
        ensures
            final(self).wf(),
            *final(self) == (Atlas { dirty: dirty_union(old(self).dirty, r), ..*old(self) }),
            forall|x: int, y: int|
                (#[trigger] final(self).texel(x, y)) == old(self).texel(x, y),
    {
        let d = match self.dirty {
            None => r,
            Some(e) => {
                let x0 = if e.x <= r.x {
                    e.x
                } else {
                    r.x
                };
                let y0 = if e.y <= r.y {
                    e.y
                } else {
                    r.y
                };
                let ex1 = e.x + e.w;
                let rx1 = r.x + r.w;
                let x1 = if ex1 >= rx1 {
                    ex1
                } else {
                    rx1
                };
                let ey1 = e.y + e.h;
                let ry1 = r.y + r.h;
                let y1 = if ey1 >= ry1 {
                    ey1
                } else {
                    ry1
                };
                Rect { x: x0, y: y0, w: x1 - x0, h: y1 - y0 }
            },
        };
        self.dirty = Some(d);
        proof {
            lemma_wf_transfer(*old(self), *self);
        }
    }

    /// Copies a `rect.w` by `rect.h` bitmap into the atlas at `rect` and
    /// marks the area dirty.  Texels outside `rect` keep their value.
    pub fn blit(&mut self, rect: Rect, src: &Vec<u8>)
        requires
            old(self).wf(),
            rect.inside(old(self).width, old(self).height),
            src@.len() == rect.w * rect.h,
        ensures
            final(self).wf(),
            final(self).width == old(self).width,
            final(self).height == old(self).height,
            final(self).shelves@ == old(self).shelves@,
            final(self).placed@ == old(self).placed@,
            final(self).dirty == dirty_union(old(self).dirty, rect),
            forall|x: int, y: int|
                rect.contains(x, y) ==> (#[trigger] final(self).texel(x, y)) == src@[(y - rect.y)
                    * rect.w + (x - rect.x)],
            forall|x: int, y: int|
                0 <= x < old(self).width && 0 <= y < old(self).height && !rect.contains(x, y)
                    ==> (#[trigger] final(self).texel(x, y)) == old(self).texel(x, y),
    {
        let ghost pre = *old(self);
        let mut dy: u32 = 0;
        while dy < rect.h
            invariant
                pre.wf(),
                rect.inside(pre.width, pre.height),
                src@.len() == rect.w * rect.h,
                0 <= dy <= rect.h,
                self.width == pre.width,
                self.height == pre.height,
                self.shelves@ == pre.shelves@,
                self.placed@ == pre.placed@,
                self.dirty == pre.dirty,
                self.data@.len() == pre.data@.len(),
                forall|x: int, y: int|
                    rect.contains(x, y) && y < rect.y + dy ==> (#[trigger] self.texel(x, y))
                        == src@[(y - rect.y) * rect.w + (x - rect.x)],
                forall|x: int, y: int|
                    0 <= x < pre.width && 0 <= y < pre.height && !(rect.contains(x, y) && y
                        < rect.y + dy) ==> (#[trigger] self.texel(x, y)) == pre.texel(x, y),
            decreases rect.h - dy,
        {
            let mut dx: u32 = 0;
            while dx < rect.w
                invariant
                    pre.wf(),
                    rect.inside(pre.width, pre.height),
                    src@.len() == rect.w * rect.h,
                    0 <= dy < rect.h,
                    0 <= dx <= rect.w,
                    self.width == pre.width,
                    self.height == pre.height,
                    self.shelves@ == pre.shelves@,
                    self.placed@ == pre.placed@,
                    self.dirty == pre.dirty,
                    self.data@.len() == pre.data@.len(),
                    forall|x: int, y: int|
                        rect.contains(x, y) && (y < rect.y + dy || (y == rect.y + dy && x < rect.x
                            + dx)) ==> (#[trigger] self.texel(x, y)) == src@[(y - rect.y) * rect.w
                            + (x - rect.x)],
                    forall|x: int, y: int|
                        0 <= x < pre.width && 0 <= y < pre.height && !(rect.contains(x, y) && (y
                            < rect.y + dy || (y == rect.y + dy && x < rect.x + dx))) ==> (
                        #[trigger] self.texel(x, y)) == pre.texel(x, y),
                decreases rect.w - dx,
            {
                let x: u32 = rect.x + dx;
                let y: u32 = rect.y + dy;
                proof {
                    lemma_index_bound(self.width as int, self.height as int, x as int, y as int);
                    lemma_index_bound(rect.w as int, rect.h as int, dx as int, dy as int);
                    assert((y as int) * (self.width as int) + (x as int) <= (MAX_ATLAS_DIM as int)
                        * (MAX_ATLAS_DIM as int)) by (nonlinear_arith)
                        requires
                            0 <= y as int,
                            0 <= x as int <= MAX_ATLAS_DIM as int,
                            (y as int) + 1 <= MAX_ATLAS_DIM as int,
                            self.width as int <= MAX_ATLAS_DIM as int,
                    ;
                }
                let idx: usize = (y as usize) * (self.width as usize) + (x as usize);
                proof {
                    assert(rect.w * rect.h <= 8192 * 8192) by (nonlinear_arith)
                        requires
                            rect.w <= 8192,
                            rect.h <= 8192,
                    ;
                    assert((dy as int) * (rect.w as int) + (dx as int) < rect.w * rect.h);
                    assert(rect.w * rect.h == src@.len());
                }
                let sidx: usize = (dy as usize) * (rect.w as usize) + (dx as usize);
                let ghost head = *self;
                self.data[idx] = src[sidx];
                proof {
                    assert(idx as int == (y as int) * (self.width as int) + (x as int));
                    assert(self.data@ == head.data@.update(idx as int, src@[sidx as int]));
                    assert(self.texel(x as int, y as int) == src@[(dy as int) * (rect.w as int)
                        + (dx as int)]);
                    assert forall|px: int, py: int|
                        0 <= px < pre.width && 0 <= py < pre.height && !(px == x as int && py
                            == y as int) implies (#[trigger] self.texel(px, py)) == head.texel(
                        px,
                        py,
                    ) by {
                        lemma_index_bound(pre.width as int, pre.height as int, px, py);
                        if py * pre.width + px == idx as int {
                            lemma_index_inj(pre.width as int, px, py, x as int, y as int);
                        }
                    }
                }
                dx += 1;
            }
            dy += 1;
        }
        proof {
            lemma_wf_transfer(pre, *self);
        }
        self.mark_dirty(rect);
    }
}

impl Atlas {
    /// Grows the texture to `w2` by `h2` texels.  The packer state and every
    /// placed rectangle survive, the old pixel content keeps its position
    /// (the origin stays in the top-left corner), and the new area is zero.
    /// The whole texture is left dirty, since the host must re-create it.
    pub fn expand(&mut self, w2: u32, h2: u32)
        requires
            old(self).wf(),
            old(self).width <= w2 <= MAX_ATLAS_DIM,
            old(self).height <= h2 <= MAX_ATLAS_DIM,
        ensures
            final(self).wf(),
            final(self).width == w2,
            final(self).height == h2,
            final(self).shelves@ == old(self).shelves@,
            final(self).placed@ == old(self).placed@,
            forall|x: int, y: int|
                0 <= x < old(self).width && 0 <= y < old(self).height ==> (#[trigger] final(self)
                    .texel(x, y)) == old(self).texel(x, y),
            forall|x: int, y: int|
                0 <= x < w2 && 0 <= y < h2 && !(x < old(self).width && y < old(self).height)
                    ==> (#[trigger] final(self).texel(x, y)) == 0u8,
            final(self).dirty == Some(Rect { x: 0u32, y: 0u32, w: w2, h: h2 }),
    {
        let ghost pre = *old(self);
        proof {
            assert(w2 * h2 <= 8192 * 8192) by (nonlinear_arith)
                requires
                    1 <= w2 <= 8192,
                    1 <= h2 <= 8192,
            ;
        }
        let n: usize = (w2 as usize) * (h2 as usize);
        let mut nd: Vec<u8> = zero_pixels(n);
        proof {
            assert forall|px: int, py: int| 0 <= px < w2 && 0 <= py < h2 implies (
            #[trigger] buf_texel(nd@, w2, px, py)) == 0u8 by {
                lemma_index_bound(w2 as int, h2 as int, px, py);
            }
        }
        let mut y: u32 = 0;
        while y < self.height
            invariant
                *self == pre,
                pre.wf(),
                pre.width <= w2 <= MAX_ATLAS_DIM,
                pre.height <= h2 <= MAX_ATLAS_DIM,
                0 <= y <= pre.height,
                nd@.len() == w2 * h2,
                forall|px: int, py: int|
                    0 <= px < pre.width && 0 <= py < y ==> (#[trigger] buf_texel(
                        nd@,
                        w2,
                        px,
                        py,
                    )) == pre.texel(px, py),
                forall|px: int, py: int|
                    0 <= px < w2 && 0 <= py < h2 && !(px < pre.width && py < y) ==> (
                    #[trigger] buf_texel(nd@, w2, px, py)) == 0u8,
            decreases pre.height - y,
        {
            let mut x: u32 = 0;
            while x < self.width
                invariant
                    *self == pre,
                    pre.wf(),
                    pre.width <= w2 <= MAX_ATLAS_DIM,
                    pre.height <= h2 <= MAX_ATLAS_DIM,
                    0 <= y < pre.height,
                    0 <= x <= pre.width,
                    nd@.len() == w2 * h2,
                    forall|px: int, py: int|
                        0 <= px < pre.width && 0 <= py < y ==> (#[trigger] buf_texel(
                            nd@,
                            w2,
                            px,
                            py,
                        )) == pre.texel(px, py),
                    forall|px: int|
                        0 <= px < x ==> (#[trigger] buf_texel(nd@, w2, px, y as int))
                            == pre.texel(px, y as int),
                    forall|px: int, py: int|
                        0 <= px < w2 && 0 <= py < h2 && !(px < pre.width && py < y) && !(px < x
                            && py == y) ==> (#[trigger] buf_texel(nd@, w2, px, py)) == 0u8,
                decreases pre.width - x,
            {
                proof {
                    lemma_index_bound(pre.width as int, pre.height as int, x as int, y as int);
                    lemma_index_bound(w2 as int, h2 as int, x as int, y as int);
                    assert((y as int) * (pre.width as int) + (x as int) <= 8192 * 8192)
                        by (nonlinear_arith)
                        requires
                            0 <= x as int <= 8192,
                            0 <= (y as int) + 1 <= 8192,
                            0 <= pre.width as int <= 8192,
                    ;
                    assert((y as int) * (w2 as int) + (x as int) <= 8192 * 8192)
                        by (nonlinear_arith)
                        requires
                            0 <= x as int <= 8192,
                            0 <= (y as int) + 1 <= 8192,
                            0 <= w2 as int <= 8192,
                    ;
                }
                let iold: usize = (y as usize) * (self.width as usize) + (x as usize);
                let inew: usize = (y as usize) * (w2 as usize) + (x as usize);
                let ghost ndpre = nd@;
                let v: u8 = self.data[iold];
                nd[inew] = v;
                proof {
                    assert(v == pre.texel(x as int, y as int));
                    assert(buf_texel(nd@, w2, x as int, y as int) == v);
                    assert forall|px: int, py: int|
                        0 <= px < w2 && 0 <= py < h2 && !(px == x as int && py == y as int)
                            implies (#[trigger] buf_texel(nd@, w2, px, py)) == buf_texel(
                        ndpre,
                        w2,
                        px,
                        py,
                    ) by {
                        lemma_index_bound(w2 as int, h2 as int, px, py);
                        if py * w2 + px == inew as int {
                            lemma_index_inj(w2 as int, px, py, x as int, y as int);
                        }
                    }
                }
                x += 1;
            }
            y += 1;
        }
        self.data = nd;
        self.width = w2;
        self.height = h2;
        self.dirty = Some(Rect { x: 0, y: 0, w: w2, h: h2 });
        proof {
            assert forall|k: int| 0 <= k < self.placed@.len() implies (
            #[trigger] self.placed@[k]).inside(w2, h2) by {
                assert(pre.placed@[k].inside(pre.width, pre.height));
            }
            assert forall|k: int| 0 <= k < self.placed@.len() implies rect_on_some_shelf(
                #[trigger] self.placed@[k],
                self.shelves@,
            ) by {
                assert(rect_on_some_shelf(pre.placed@[k], pre.shelves@));
            }
            assert forall|x: int, y: int|
                0 <= x < pre.width && 0 <= y < pre.height implies (#[trigger] self.texel(x, y))
                == pre.texel(x, y) by {
                assert(buf_texel(self.data@, w2, x, y) == pre.texel(x, y));
            }
            assert forall|x: int, y: int|
                0 <= x < w2 && 0 <= y < h2 && !(x < pre.width && y < pre.height) implies (
            #[trigger] self.texel(x, y)) == 0u8 by {
                assert(buf_texel(self.data@, w2, x, y) == 0u8);
            }
        }
    }

    /// Clears the atlas to a `w2` by `h2` all-zero texture.  Every placed
    /// rectangle and every shelf is discarded; whoever caches rectangles
    /// handed out before the reset must invalidate them.
    pub fn reset(&mut self, w2: u32, h2: u32)
        requires
            old(self).wf(),
            1 <= w2 <= MAX_ATLAS_DIM,
            1 <= h2 <= MAX_ATLAS_DIM,
        ensures
            final(self).wf(),
            final(self).width == w2,
            final(self).height == h2,
            final(self).shelves@ =~= Seq::<Shelf>::empty(),
            final(self).placed@ =~= Seq::<Rect>::empty(),
            final(self).data@.len() == w2 * h2,
            forall|i: int| 0 <= i < final(self).data@.len() ==> final(self).data@[i] == 0u8,
            final(self).dirty == Some(Rect { x: 0u32, y: 0u32, w: w2, h: h2 }),
    {
        proof {
            assert(w2 * h2 <= 8192 * 8192) by (nonlinear_arith)
                requires
                    1 <= w2 <= 8192,
                    1 <= h2 <= 8192,
            ;
        }
        let n: usize = (w2 as usize) * (h2 as usize);
        self.data = zero_pixels(n);
        self.shelves = Vec::new();
        self.width = w2;
        self.height = h2;
        self.dirty = Some(Rect { x: 0, y: 0, w: w2, h: h2 });
        proof {
            self.placed@ = Seq::empty();
        }
    }

    /// Hands back the dirty region accumulated since the last call and
    /// clears it; `None` when nothing changed.
    pub fn validate(&mut self) -> (r: Option<Rect>)
        requires
            old(self).wf(),
        ensures
            final(self).wf(),
            *final(self) == (Atlas { dirty: None, ..*old(self) }),
            r == old(self).dirty,
    {
        let d = self.dirty;
        self.dirty = None;
        proof {
            lemma_wf_transfer(*old(self), *self);
        }
        d
    }
}

/// The alpha value at column `x`, row `y` of a row-major buffer of rows
/// `width` texels wide.
pub open spec fn buf_texel(buf: Seq<u8>, width: u32, x: int, y: int) -> u8 {
    buf[y * width + x]
}

/// A buffer of `n` zero alpha texels.
fn zero_pixels(n: usize) -> (r: Vec<u8>)
    ensures
        r@.len() == n,
        forall|i: int| 0 <= i < n ==> r@[i] == 0u8,
{
    let mut v: Vec<u8> = Vec::new();
    let mut i: usize = 0;
    while i < n
        invariant
            0 <= i <= n,
            v@.len() == i,
            forall|k: int| 0 <= k < i ==> v@[k] == 0u8,
        decreases n - i,
    {
        v.push(0u8);
        i += 1;
    }
    v
}

/// No two rectangles the packer has handed out since the last reset overlap.
pub proof fn lemma_atlas_no_overlap(a: Atlas)
    requires
        a.wf(),
    ensures
        forall|i: int, j: int|
            0 <= i < a.placed@.len() && 0 <= j < a.placed@.len() && i != j ==> (
            #[trigger] a.placed@[i]).disjoint(#[trigger] a.placed@[j]),
{
}

} // verus!
