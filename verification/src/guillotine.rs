//! Guillotine allocator: keeps a set of free rectangles, initially the whole
//! canvas, and serves a request from the free rectangle with the least spare
//! area, splitting the leftover with one straight cut.

use crate::geom::{
    all_in_canvas, nonempty_rect, pairwise_disjoint, rect_bottom, rect_contains, rect_in_canvas,
    rect_right, rects_disjoint, valid_extent, Extent, Rect,
};
use crate::AllocError;
use vstd::prelude::*;

verus! {

/// Ghost model of a guillotine allocator: the canvas size, the free
/// rectangles, and every rectangle handed out and not yet freed.
#[verifier::ext_equal]
pub struct GuillotineView {
    pub width: u32,
    pub height: u32,
    pub free: Seq<Rect>,
    pub live: Seq<Rect>,
}

pub open spec fn rect_area(r: Rect) -> int {
    r.width * r.height
}

/// The free rectangle is large enough for the extent in both dimensions.
pub open spec fn free_fits(f: Rect, e: Extent) -> bool {
    f.width >= e.width && f.height >= e.height
}

/// `f` is a strictly better fit than `g`: smaller spare area, or equal spare
/// area and smaller spare width.
pub open spec fn better_fit(f: Rect, g: Rect) -> bool {
    ||| rect_area(f) < rect_area(g)
    ||| (rect_area(f) == rect_area(g) && f.width < g.width)
}

/// Index of the best-area-fit free rectangle among the first `n`: one that
/// fits, minimizing spare area then spare width, the earliest one on a tie.
pub open spec fn best_free_upto(free: Seq<Rect>, e: Extent, n: int) -> Option<int>
    decreases n,
{
    if n <= 0 {
        Option::None
    } else {
        let prev = best_free_upto(free, e, n - 1);
        if free_fits(free[n - 1], e) {
            match prev {
                Option::None => Option::Some(n - 1),
                Option::Some(j) => if better_fit(free[n - 1], free[j]) {
                    Option::Some(n - 1)
                } else {
                    Option::Some(j)
                },
            }
        } else {
            prev
        }
    }
}

/// The one or two rectangles left over after placing `e` in the top-left
/// corner of `f`, split by one straight cut along the shorter leftover axis;
/// zero-area pieces are dropped.
pub open spec fn split_pieces(f: Rect, e: Extent) -> Seq<Rect> {
    let dw = f.width - e.width;
    let dh = f.height - e.height;
    let right = Rect {
        x: (f.x + e.width) as u32,
        y: f.y,
        width: dw as u32,
        height: if dw <= dh {
            e.height
        } else {
            f.height
        },
    };
    let bottom = Rect {
        x: f.x,
        y: (f.y + e.height) as u32,
        width: if dw <= dh {
            f.width
        } else {
            e.width
        },
        height: dh as u32,
    };
    if dw > 0 && dh > 0 {
        seq![right, bottom]
    } else if dw > 0 {
        seq![right]
    } else if dh > 0 {
        seq![bottom]
    } else {
        Seq::empty()
    }
}

/// The free set of a fresh allocator: one rectangle covering the whole
/// canvas, or nothing at all when the canvas has no area.
pub open spec fn initial_free(width: u32, height: u32) -> Seq<Rect> {
    if width >= 1 && height >= 1 {
        seq![Rect { x: 0, y: 0, width, height }]
    } else {
        Seq::empty()
    }
}

/// The exact outcome of `GuillotineAllocator::allocate` on a given state.
pub open spec fn guillotine_alloc_result(v: GuillotineView, e: Extent) -> Result<Rect, AllocError> {
    if !valid_extent(e) {
        Result::Err(AllocError::InvalidExtent)
    } else {
        match best_free_upto(v.free, e, v.free.len() as int) {
            Option::Some(i) => Result::Ok(
                Rect { x: v.free[i].x, y: v.free[i].y, width: e.width, height: e.height },
            ),
            Option::None => Result::Err(AllocError::OutOfSpace),
        }
    }
}

/// The exact state of the allocator after `allocate` on a given state.
pub open spec fn guillotine_alloc_next(v: GuillotineView, e: Extent) -> GuillotineView {
    match guillotine_alloc_result(v, e) {
        Result::Err(_) => v,
        Result::Ok(r) => match best_free_upto(v.free, e, v.free.len() as int) {
            Option::Some(i) => GuillotineView {
                width: v.width,
                height: v.height,
                free: v.free.remove(i) + split_pieces(v.free[i], e),
                live: v.live.push(r),
            },
            Option::None => v,
        },
    }
}

/// Free-rectangle-set packer using recursive binary splits.
pub struct GuillotineAllocator {
    width: u32,
    height: u32,
    free: Vec<Rect>,
    /// Rectangles returned by `allocate` and not yet freed.
    live: Ghost<Seq<Rect>>,
}

impl View for GuillotineAllocator {
    type V = GuillotineView;

    closed spec fn view(&self) -> GuillotineView {
        GuillotineView {
            width: self.width,
            height: self.height,
            free: self.free@,
            live: self.live@,
        }
    }
}

/// What `best_free_upto` returns: `None` means nothing among the first `n`
/// fits; `Some(j)` is a fitting rectangle no other fitting one beats.
pub proof fn lemma_best_free_upto(free: Seq<Rect>, e: Extent, n: int)
    requires
        0 <= n <= free.len(),
    ensures
        match best_free_upto(free, e, n) {
            Option::None => forall|i: int| 0 <= i < n ==> !free_fits(#[trigger] free[i], e),
            Option::Some(j) => {
                &&& 0 <= j < n
                &&& free_fits(free[j], e)
                &&& forall|i: int|
                    0 <= i < n && free_fits(#[trigger] free[i], e) ==> !better_fit(free[i], free[j])
            },
        },
    decreases n,
{
    if n > 0 {
        lemma_best_free_upto(free, e, n - 1);
    }
}

/// A product of two `u32` values fits in a `u64`.
proof fn lemma_area_fits_u64(a: u32, b: u32)
    ensures
        a * b <= 0xffff_ffff_ffff_ffff,
{
    assert(a * b <= 0xffff_ffffu64 * 0xffff_ffffu64) by (nonlinear_arith)
        requires
            a <= 0xffff_ffffu64,
            b <= 0xffff_ffffu64,
    ;
}

impl GuillotineAllocator {
    /// The allocator's internal invariant: free rectangles are nonempty,
    /// inside the canvas and pairwise disjoint; live rectangles likewise; and
    /// nothing live overlaps anything free.
    pub closed spec fn wf(&self) -> bool {
        &&& forall|i: int|
            0 <= i < self.free@.len() ==> rect_in_canvas(
                #[trigger] self.free@[i],
                self.width as int,
                self.height as int,
            ) && nonempty_rect(self.free@[i])
        &&& pairwise_disjoint(self.free@)
        &&& forall|k: int|
            0 <= k < self.live@.len() ==> nonempty_rect(#[trigger] self.live@[k])
        &&& pairwise_disjoint(self.live@)
        &&& all_in_canvas(self.live@, self.width as int, self.height as int)
        &&& forall|k: int, i: int|
            #![trigger self.live@[k], self.free@[i]]
            0 <= k < self.live@.len() && 0 <= i < self.free@.len() ==> rects_disjoint(
                self.live@[k],
                self.free@[i],
            )
    }

    /// A fresh allocator whose free space is the whole canvas.
    pub fn new(width: u32, height: u32) -> (a: GuillotineAllocator)
        ensures
            a.wf(),
            a@ == (GuillotineView {
                width,
                height,
                free: initial_free(width, height),
                live: Seq::<Rect>::empty(),
            }),
    {
        let mut free: Vec<Rect> = Vec::new();
        if width >= 1 && height >= 1 {
            free.push(Rect { x: 0, y: 0, width, height });
        }
        let a = GuillotineAllocator { width, height, free, live: Ghost(Seq::empty()) };
        proof {
            assert(a@ =~= (GuillotineView {
                width,
                height,
                free: initial_free(width, height),
                live: Seq::<Rect>::empty(),
            }));
        }
        a
    }

    /// Every rectangle this allocator has handed out (and not freed) lies
    /// within the canvas, and no two of them overlap.
    pub proof fn lemma_live_disjoint(&self)
        requires
            self.wf(),
        ensures
            pairwise_disjoint(self@.live),
            all_in_canvas(self@.live, self@.width as int, self@.height as int),
    {
    }

    /// Place `e` in the top-left corner of the best-area-fit free rectangle,
    /// splitting the leftover with one straight cut; report `InvalidExtent`
    /// for a zero-sized request and `OutOfSpace` when no free rectangle can
    /// contain the extent.  On failure the allocator is left exactly as it
    /// was.
    #[verifier::rlimit(60)]
    pub fn allocate(&mut self, e: Extent) -> (r: Result<Rect, AllocError>)
        requires
            old(self).wf(),
        ensures
            final(self).wf(),
            r == guillotine_alloc_result(old(self)@, e),
            final(self)@ == guillotine_alloc_next(old(self)@, e),
            r is Err ==> *final(self) == *old(self),
            r is Ok ==> final(self)@.live == old(self)@.live.push(r->Ok_0),
    {
        if e.width == 0 || e.height == 0 {
            return Result::Err(AllocError::InvalidExtent);
        }
        let ghost v0 = self@;
        let mut best: Option<usize> = Option::None;
        let mut idx: usize = 0;
        while idx < self.free.len()
            invariant
                *self == *old(self),
                old(self).wf(),
                idx <= self.free.len(),
                match best {
                    Option::None => best_free_upto(self.free@, e, idx as int) is None,
                    Option::Some(b) => b < idx && best_free_upto(self.free@, e, idx as int)
                        == Option::Some(b as int),
                },
            decreases self.free.len() - idx,
        {
            let f = self.free[idx];
            if f.width >= e.width && f.height >= e.height {
                match best {
                    Option::None => {
                        best = Option::Some(idx);
                    },
                    Option::Some(j) => {
                        let g = self.free[j];
                        proof {
                            lemma_area_fits_u64(f.width, f.height);
                            lemma_area_fits_u64(g.width, g.height);
                        }
                        let fa = (f.width as u64) * (f.height as u64);
                        let ga = (g.width as u64) * (g.height as u64);
                        if fa < ga || (fa == ga && f.width < g.width) {
                            best = Option::Some(idx);
                        }
                    },
                }
            }
            idx += 1;
        }
        match best {
            Option::Some(i) => {
                proof {
                    lemma_best_free_upto(self.free@, e, self.free@.len() as int);
                }
                let f = self.free[i];
                let rect = Rect { x: f.x, y: f.y, width: e.width, height: e.height };
                let _ = self.free.remove(i);
                let dw = f.width - e.width;
                let dh = f.height - e.height;
                if dw <= dh {
                    if dw > 0 {
                        self.free.push(
                            Rect { x: f.x + e.width, y: f.y, width: dw, height: e.height },
                        );
                    }
                    if dh > 0 {
                        self.free.push(
                            Rect { x: f.x, y: f.y + e.height, width: f.width, height: dh },
                        );
                    }
                } else {
                    self.free.push(Rect { x: f.x + e.width, y: f.y, width: dw, height: f.height });
                    if dh > 0 {
                        self.free.push(
                            Rect { x: f.x, y: f.y + e.height, width: e.width, height: dh },
                        );
                    }
                }
                proof {
                    self.live@ = self.live@.push(rect);
                    assert(self.free@ =~= v0.free.remove(i as int) + split_pieces(f, e));
                    self.lemma_allocate_ok(v0, e, i as int, rect);
                }
                Result::Ok(rect)
            },
            Option::None => Result::Err(AllocError::OutOfSpace),
        }
    }

    /// Re-establish the invariant and the exact-next-state claims after a
    /// placement into free rectangle `i`.
    #[verifier::rlimit(100)]
    proof fn lemma_allocate_ok(&self, v0: GuillotineView, e: Extent, i: int, rect: Rect)
        requires
            valid_extent(e),
            best_free_upto(v0.free, e, v0.free.len() as int) == Option::Some(i),
            0 <= i < v0.free.len(),
            free_fits(v0.free[i], e),
            forall|j: int|
                0 <= j < v0.free.len() ==> rect_in_canvas(
                    #[trigger] v0.free[j],
                    v0.width as int,
                    v0.height as int,
                ) && nonempty_rect(v0.free[j]),
            pairwise_disjoint(v0.free),
            forall|k: int| 0 <= k < v0.live.len() ==> nonempty_rect(#[trigger] v0.live[k]),
            pairwise_disjoint(v0.live),
            all_in_canvas(v0.live, v0.width as int, v0.height as int),
            forall|k: int, j: int|
                #![trigger v0.live[k], v0.free[j]]
                0 <= k < v0.live.len() && 0 <= j < v0.free.len() ==> rects_disjoint(
                    v0.live[k],
                    v0.free[j],
                ),
            rect == (Rect { x: v0.free[i].x, y: v0.free[i].y, width: e.width, height: e.height }),
            self.width == v0.width,
            self.height == v0.height,
            self.free@ == v0.free.remove(i) + split_pieces(v0.free[i], e),
            self.live@ == v0.live.push(rect),
        ensures
            self.wf(),
            self@ == guillotine_alloc_next(v0, e),
    {
        let f = v0.free[i];
        let rem = v0.free.remove(i);
        let pieces = split_pieces(f, e);
        let n = v0.free.len() as int;
        // the placed rectangle and both pieces lie inside `f` and are
        // pairwise disjoint
        assert(rect_contains(f, rect));
        assert(forall|m: int|
            0 <= m < pieces.len() ==> rect_contains(f, #[trigger] pieces[m]) && nonempty_rect(
                pieces[m],
            ));
        assert(forall|m: int| 0 <= m < pieces.len() ==> rects_disjoint(rect, #[trigger] pieces[m]));
        assert(pieces.len() == 2 ==> rects_disjoint(pieces[0], pieces[1]));
        // everything inside `f` is inside the canvas and disjoint from every
        // other free rectangle and from everything live
        assert forall|m: int| 0 <= m < pieces.len() implies rect_in_canvas(
            #[trigger] pieces[m],
            v0.width as int,
            v0.height as int,
        ) by {
            assert(rect_in_canvas(f, v0.width as int, v0.height as int));
        }
        assert(rect_in_canvas(rect, v0.width as int, v0.height as int));
        // free set after the call: the old rectangles except `f`, then the pieces
        assert forall|a: int, b: int| 0 <= a < b < self.free@.len() implies rects_disjoint(
            self.free@[a],
            self.free@[b],
        ) by {
            if b < rem.len() {
                let a0 = if a < i { a } else { a + 1 };
                let b0 = if b < i { b } else { b + 1 };
                assert(self.free@[a] == v0.free[a0]);
                assert(self.free@[b] == v0.free[b0]);
                assert(rects_disjoint(v0.free[a0], v0.free[b0]));
            } else if a < rem.len() {
                let a0 = if a < i { a } else { a + 1 };
                assert(self.free@[a] == v0.free[a0]);
                assert(self.free@[b] == pieces[b - rem.len()]);
                if a0 < i {
                    assert(rects_disjoint(v0.free[a0], v0.free[i]));
                } else {
                    assert(rects_disjoint(v0.free[i], v0.free[a0]));
                }
                assert(rects_disjoint(f, v0.free[a0]));
                crate::geom::lemma_contained_disjoint(pieces[b - rem.len()], f, v0.free[a0]);
            } else {
                assert(self.free@[a] == pieces[a - rem.len()]);
                assert(self.free@[b] == pieces[b - rem.len()]);
            }
        }
        assert forall|j: int| 0 <= j < self.free@.len() implies rect_in_canvas(
            #[trigger] self.free@[j],
            self.width as int,
            self.height as int,
        ) && nonempty_rect(self.free@[j]) by {
            if j < rem.len() {
                let j0 = if j < i { j } else { j + 1 };
                assert(self.free@[j] == v0.free[j0]);
                assert(rect_in_canvas(v0.free[j0], v0.width as int, v0.height as int));
            } else {
                assert(self.free@[j] == pieces[j - rem.len()]);
            }
        }
        // the new rectangle does not overlap anything live
        assert forall|k: int| 0 <= k < v0.live.len() implies rects_disjoint(v0.live[k], rect) by {
            assert(rects_disjoint(v0.live[k], f));
            crate::geom::lemma_contained_disjoint(rect, f, v0.live[k]);
        }
        assert(pairwise_disjoint(self.live@));
        assert(all_in_canvas(self.live@, self.width as int, self.height as int));
        // nothing live overlaps anything free
        assert forall|k: int, j: int|
            #![trigger self.live@[k], self.free@[j]]
            0 <= k < self.live@.len() && 0 <= j < self.free@.len() implies rects_disjoint(
            self.live@[k],
            self.free@[j],
        ) by {
            if k < v0.live.len() {
                assert(rects_disjoint(v0.live[k], f));
                if j < rem.len() {
                    let j0 = if j < i { j } else { j + 1 };
                    assert(self.free@[j] == v0.free[j0]);
                    assert(rects_disjoint(v0.live[k], v0.free[j0]));
                } else {
                    assert(self.free@[j] == pieces[j - rem.len()]);
                    crate::geom::lemma_contained_disjoint(pieces[j - rem.len()], f, v0.live[k]);
                }
            } else {
                assert(self.live@[k] == rect);
                if j < rem.len() {
                    let j0 = if j < i { j } else { j + 1 };
                    assert(self.free@[j] == v0.free[j0]);
                    if j0 < i {
                        assert(rects_disjoint(v0.free[j0], v0.free[i]));
                    } else {
                        assert(rects_disjoint(v0.free[i], v0.free[j0]));
                    }
                    assert(rects_disjoint(f, v0.free[j0]));
                    crate::geom::lemma_contained_disjoint(rect, f, v0.free[j0]);
                } else {
                    assert(self.free@[j] == pieces[j - rem.len()]);
                }
            }
        }
        assert(self@ =~= guillotine_alloc_next(v0, e));
    }

    /// Return a previously allocated rectangle to the free set as one new
    /// free rectangle; no merging with neighbours is attempted.
    pub fn deallocate(&mut self, rect: Rect)
        requires
            old(self).wf(),
            old(self)@.live.contains(rect),
        ensures
            final(self).wf(),
            final(self)@.width == old(self)@.width,
            final(self)@.height == old(self)@.height,
            final(self)@.free == old(self)@.free.push(rect),
            exists|k: int|
                0 <= k < old(self)@.live.len() && old(self)@.live[k] == rect && final(self)@.live
                    == old(self)@.live.remove(k),
    {
        self.free.push(rect);
        proof {
            assert(self.live@ == old(self)@.live);
            assert(self.live@.contains(rect));
            let k = choose|k: int| 0 <= k < self.live@.len() && self.live@[k] == rect;
            let l0 = self.live@;
            self.live@ = self.live@.remove(k);
            assert forall|a: int, b: int| 0 <= a < b < self.live@.len() implies rects_disjoint(
                self.live@[a],
                self.live@[b],
            ) by {
                let a0 = if a < k { a } else { a + 1 };
                let b0 = if b < k { b } else { b + 1 };
                assert(rects_disjoint(l0[a0], l0[b0]));
            }
            assert(pairwise_disjoint(self.live@));
            assert forall|m: int| 0 <= m < self.live@.len() implies nonempty_rect(
                #[trigger] self.live@[m],
            ) && rect_in_canvas(self.live@[m], self.width as int, self.height as int) by {
                let m0 = if m < k { m } else { m + 1 };
                assert(self.live@[m] == l0[m0]);
                assert(nonempty_rect(l0[m0]));
                assert(rect_in_canvas(l0[m0], self.width as int, self.height as int));
            }
            assert forall|m: int, j: int|
                #![trigger self.live@[m], self.free@[j]]
                0 <= m < self.live@.len() && 0 <= j < self.free@.len() implies rects_disjoint(
                self.live@[m],
                self.free@[j],
            ) by {
                let m0 = if m < k { m } else { m + 1 };
                assert(self.live@[m] == l0[m0]);
                if j < old(self)@.free.len() {
                    assert(rects_disjoint(l0[m0], old(self)@.free[j]));
                } else {
                    assert(self.free@[j] == rect);
                    if m0 < k {
                        assert(rects_disjoint(l0[m0], l0[k]));
                    } else {
                        assert(rects_disjoint(l0[k], l0[m0]));
                    }
                }
            }
            assert(0 <= k < l0.len() && l0[k] == rect && self.live@ == l0.remove(k));
        }
    }
}

} // verus!
