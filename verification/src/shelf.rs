//! Shelf allocator: packs rectangles into horizontal rows ("shelves").
//!
//! Each shelf has a fixed height, a baseline `y`, and a cursor marking the
//! used width.  A request is served by the fitting shelf that wastes the
//! least vertical space (earliest shelf on a tie), or by opening a new shelf
//! below the existing ones.

use crate::geom::{
    all_in_canvas, nonempty_rect, pairwise_disjoint, rect_bottom, rect_in_canvas, rect_right,
    rects_disjoint, valid_extent, Extent, Rect,
};
use crate::AllocError;
use vstd::prelude::*;

verus! {

/// One horizontal row of the canvas.
#[derive(Clone, Copy, PartialEq, Eq, Structural, Debug)]
pub struct Shelf {
    /// Baseline: the y coordinate of the shelf's top edge.
    pub y: u32,
    /// Fixed height, chosen when the shelf is opened.
    pub height: u32,
    /// Used width: the next rectangle on this shelf starts at `x == cursor`.
    pub cursor: u32,
}

/// Ghost model of a shelf allocator: the canvas size, the shelves, and every
/// rectangle handed out and not yet freed.
#[verifier::ext_equal]
pub struct ShelfView {
    pub width: u32,
    pub height: u32,
    pub shelves: Seq<Shelf>,
    pub live: Seq<Rect>,
}

/// Sum of the heights of the first `n` shelves.
pub open spec fn used_height(shelves: Seq<Shelf>, n: int) -> int
    decreases n,
{
    if n <= 0 {
        0
    } else {
        used_height(shelves, n - 1) + shelves[n - 1].height
    }
}

/// Shelves are stacked downwards from the top of the canvas, each baseline
/// sitting at the sum of the heights above it.
pub open spec fn shelves_stacked(shelves: Seq<Shelf>) -> bool {
    forall|i: int| 0 <= i < shelves.len() ==> (#[trigger] shelves[i]).y == used_height(shelves, i)
}

/// The shelf can take the extent: tall enough, and enough width is left.
pub open spec fn shelf_fits(s: Shelf, e: Extent, canvas_width: int) -> bool {
    s.height >= e.height && s.cursor + e.width <= canvas_width
}

/// Index of the best-fit shelf among the first `n`: a fitting shelf of
/// minimal height (least wasted vertical space), the earliest one on a tie.
pub open spec fn best_shelf_upto(
    shelves: Seq<Shelf>,
    e: Extent,
    canvas_width: int,
    n: int,
) -> Option<int>
    decreases n,
{
    if n <= 0 {
        Option::None
    } else {
        let prev = best_shelf_upto(shelves, e, canvas_width, n - 1);
        if shelf_fits(shelves[n - 1], e, canvas_width) {
            match prev {
                Option::None => Option::Some(n - 1),
                Option::Some(j) => if shelves[n - 1].height < shelves[j].height {
                    Option::Some(n - 1)
                } else {
                    Option::Some(j)
                },
            }
        } else {
            prev
        }
    }
}

/// A new shelf of the extent's height fits under the existing ones.
pub open spec fn can_open_shelf(v: ShelfView, e: Extent) -> bool {
    e.width <= v.width && used_height(v.shelves, v.shelves.len() as int) + e.height <= v.height
}

/// The exact outcome of `ShelfAllocator::allocate` on a given state.
pub open spec fn shelf_alloc_result(v: ShelfView, e: Extent) -> Result<Rect, AllocError> {
    if !valid_extent(e) {
        Result::Err(AllocError::InvalidExtent)
    } else {
        match best_shelf_upto(v.shelves, e, v.width as int, v.shelves.len() as int) {
            Option::Some(i) => Result::Ok(
                Rect { x: v.shelves[i].cursor, y: v.shelves[i].y, width: e.width, height: e.height },
            ),
            Option::None => if can_open_shelf(v, e) {
                Result::Ok(
                    Rect {
                        x: 0,
                        y: used_height(v.shelves, v.shelves.len() as int) as u32,
                        width: e.width,
                        height: e.height,
                    },
                )
            } else {
                Result::Err(AllocError::OutOfSpace)
            },
        }
    }
}

/// The exact state of the allocator after `allocate` on a given state.
pub open spec fn shelf_alloc_next(v: ShelfView, e: Extent) -> ShelfView {
    match shelf_alloc_result(v, e) {
        Result::Err(_) => v,
        Result::Ok(r) => match best_shelf_upto(v.shelves, e, v.width as int, v.shelves.len() as int) {
            Option::Some(i) => ShelfView {
                width: v.width,
                height: v.height,
                shelves: v.shelves.update(
                    i,
                    Shelf {
                        y: v.shelves[i].y,
                        height: v.shelves[i].height,
                        cursor: (v.shelves[i].cursor + e.width) as u32,
                    },
                ),
                live: v.live.push(r),
            },
            Option::None => ShelfView {
                width: v.width,
                height: v.height,
                shelves: v.shelves.push(
                    Shelf {
                        y: used_height(v.shelves, v.shelves.len() as int) as u32,
                        height: e.height,
                        cursor: e.width,
                    },
                ),
                live: v.live.push(r),
            },
        },
    }
}

/// The rectangle sits on shelf `i`: inside the shelf's band, left of its cursor.
pub open spec fn rect_on_shelf(r: Rect, i: int, shelves: Seq<Shelf>) -> bool {
    &&& 0 <= i < shelves.len()
    &&& shelves[i].y <= r.y
    &&& rect_bottom(r) <= shelves[i].y + shelves[i].height
    &&& rect_right(r) <= shelves[i].cursor
    &&& nonempty_rect(r)
}

/// Row-based packer maintaining an ordered stack of shelves.
pub struct ShelfAllocator {
    width: u32,
    height: u32,
    shelves: Vec<Shelf>,
    /// Rectangles returned by `allocate` and not yet freed.
    live: Ghost<Seq<Rect>>,
    /// For each live rectangle, the shelf it was placed on.
    shelf_of: Ghost<Seq<int>>,
}

impl View for ShelfAllocator {
    type V = ShelfView;

    closed spec fn view(&self) -> ShelfView {
        ShelfView {
            width: self.width,
            height: self.height,
            shelves: self.shelves@,
            live: self.live@,
        }
    }
}

/// `used_height` only grows as more shelves are counted.
pub proof fn lemma_used_height_mono(shelves: Seq<Shelf>, a: int, b: int)
    requires
        0 <= a <= b <= shelves.len(),
    ensures
        used_height(shelves, a) <= used_height(shelves, b),
    decreases b,
{
    if a < b {
        lemma_used_height_mono(shelves, a, b - 1);
    }
}

/// `used_height` over a prefix ignores shelves appended after it.
pub proof fn lemma_used_height_push(shelves: Seq<Shelf>, s: Shelf, n: int)
    requires
        0 <= n <= shelves.len(),
    ensures
        used_height(shelves.push(s), n) == used_height(shelves, n),
    decreases n,
{
    if n > 0 {
        lemma_used_height_push(shelves, s, n - 1);
    }
}

/// `used_height` depends only on the shelves' heights.
pub proof fn lemma_used_height_agree(a: Seq<Shelf>, b: Seq<Shelf>, n: int)
    requires
        a.len() == b.len(),
        0 <= n <= a.len(),
        forall|i: int| 0 <= i < a.len() ==> (#[trigger] a[i]).height == b[i].height,
    ensures
        used_height(a, n) == used_height(b, n),
    decreases n,
{
    if n > 0 {
        lemma_used_height_agree(a, b, n - 1);
    }
}

/// Distinct shelves occupy disjoint horizontal bands of the canvas.
pub proof fn lemma_shelf_bands(shelves: Seq<Shelf>, i: int, j: int)
    requires
        shelves_stacked(shelves),
        0 <= i < j < shelves.len(),
    ensures
        shelves[i].y + shelves[i].height <= shelves[j].y,
{
    lemma_used_height_mono(shelves, i + 1, j);
}

/// What `best_shelf_upto` returns: `None` means no shelf among the first `n`
/// fits; `Some(j)` is a fitting shelf of minimal height, earliest on a tie.
pub proof fn lemma_best_shelf_upto(shelves: Seq<Shelf>, e: Extent, canvas_width: int, n: int)
    requires
        0 <= n <= shelves.len(),
    ensures
        match best_shelf_upto(shelves, e, canvas_width, n) {
            Option::None => forall|i: int|
                0 <= i < n ==> !shelf_fits(#[trigger] shelves[i], e, canvas_width),
            Option::Some(j) => {
                &&& 0 <= j < n
                &&& shelf_fits(shelves[j], e, canvas_width)
                &&& forall|i: int|
                    0 <= i < n && shelf_fits(#[trigger] shelves[i], e, canvas_width)
                        ==> shelves[j].height <= shelves[i].height
                &&& forall|i: int|
                    0 <= i < j ==> !(shelf_fits(#[trigger] shelves[i], e, canvas_width)
                        && shelves[i].height <= shelves[j].height)
            },
        },
    decreases n,
{
    if n > 0 {
        lemma_best_shelf_upto(shelves, e, canvas_width, n - 1);
    }
}

impl ShelfAllocator {
    /// The allocator's internal invariant: shelves are stacked within the
    /// canvas, and every live rectangle sits on one shelf, left of its
    /// cursor; live rectangles are pairwise disjoint and inside the canvas.
    pub closed spec fn wf(&self) -> bool {
        &&& shelves_stacked(self.shelves@)
        &&& used_height(self.shelves@, self.shelves@.len() as int) <= self.height
        &&& forall|i: int|
            0 <= i < self.shelves@.len() ==> (#[trigger] self.shelves@[i]).cursor <= self.width
                && self.shelves@[i].height >= 1
        &&& self.shelf_of@.len() == self.live@.len()
        &&& forall|k: int|
            0 <= k < self.live@.len() ==> rect_on_shelf(
                #[trigger] self.live@[k],
                self.shelf_of@[k],
                self.shelves@,
            )
        &&& pairwise_disjoint(self.live@)
        &&& all_in_canvas(self.live@, self.width as int, self.height as int)
    }

    /// A fresh allocator over an empty canvas of the given size.
    pub fn new(width: u32, height: u32) -> (a: ShelfAllocator)
        ensures
            a.wf(),
            a@ == (ShelfView {
                width,
                height,
                shelves: Seq::<Shelf>::empty(),
                live: Seq::<Rect>::empty(),
            }),
    {
        let a = ShelfAllocator {
            width,
            height,
            shelves: Vec::new(),
            live: Ghost(Seq::empty()),
            shelf_of: Ghost(Seq::empty()),
        };
        proof {
            assert(a@ =~= (ShelfView {
                width,
                height,
                shelves: Seq::<Shelf>::empty(),
                live: Seq::<Rect>::empty(),
            }));
        }
        a
    }

    /// Every rectangle this allocator has handed out (and not freed) lies
    /// within the canvas, and no two of them overlap.
    pub proof fn lemma_live_disjoint(&self)
        requires
            self.wf(),
        ensures
            pairwise_disjoint(self@.live),
            all_in_canvas(self@.live, self@.width as int, self@.height as int),
    {
    }

    /// Place `e` on the best-fit shelf, or else on a newly opened shelf;
    /// report `InvalidExtent` for a zero-sized request and `OutOfSpace` when
    /// no shelf fits and there is no vertical room for a new one.  On failure
    /// the allocator is left exactly as it was.
    #[verifier::rlimit(60)]
    pub fn allocate(&mut self, e: Extent) -> (r: Result<Rect, AllocError>)
        requires
            old(self).wf(),
        ensures
            final(self).wf(),
            r == shelf_alloc_result(old(self)@, e),
            final(self)@ == shelf_alloc_next(old(self)@, e),
            r is Err ==> *final(self) == *old(self),
            r is Ok ==> final(self)@.live == old(self)@.live.push(r->Ok_0),
    {
        if e.width == 0 || e.height == 0 {
            return Result::Err(AllocError::InvalidExtent);
        }
        let ghost v0 = self@;
        let mut best: Option<usize> = Option::None;
        let mut idx: usize = 0;
        while idx < self.shelves.len()
            invariant
                *self == *old(self),
                old(self).wf(),
                idx <= self.shelves.len(),
                match best {
                    Option::None => best_shelf_upto(
                        self.shelves@,
                        e,
                        self.width as int,
                        idx as int,
                    ) is None,
                    Option::Some(b) => b < idx && best_shelf_upto(
                        self.shelves@,
                        e,
                        self.width as int,
                        idx as int,
                    ) == Option::Some(b as int),
                },
            decreases self.shelves.len() - idx,
        {
            let s = self.shelves[idx];
            if s.height >= e.height && e.width <= self.width - s.cursor {
                match best {
                    Option::None => {
                        best = Option::Some(idx);
                    },
                    Option::Some(j) => {
                        if s.height < self.shelves[j].height {
                            best = Option::Some(idx);
                        }
                    },
                }
            }
            idx += 1;
        }
        match best {
            Option::Some(i) => {
                proof {
                    lemma_best_shelf_upto(
                        self.shelves@,
                        e,
                        self.width as int,
                        self.shelves@.len() as int,
                    );
                }
                let s = self.shelves[i];
                let rect = Rect { x: s.cursor, y: s.y, width: e.width, height: e.height };
                self.shelves[i] = Shelf { y: s.y, height: s.height, cursor: s.cursor + e.width };
                proof {
                    self.live@ = self.live@.push(rect);
                    self.shelf_of@ = self.shelf_of@.push(i as int);
                    self.lemma_allocate_on_shelf_ok(v0, e, i as int, rect);
                }
                Result::Ok(rect)
            },
            Option::None => {
                let used: u32 = if self.shelves.len() == 0 {
                    0
                } else {
                    let m = self.shelves.len() - 1;
                    let last = self.shelves[m];
                    proof {
                        assert(self.shelves@[m as int].y == used_height(self.shelves@, m as int));
                        assert(used_height(self.shelves@, m + 1 as int) == used_height(
                            self.shelves@,
                            m as int,
                        ) + self.shelves@[m as int].height);
                    }
                    last.y + last.height
                };
                proof {
                    assert(used == used_height(self.shelves@, self.shelves@.len() as int));
                }
                if e.width <= self.width && e.height <= self.height - used {
                    let rect = Rect { x: 0, y: used, width: e.width, height: e.height };
                    let ghost i = self.shelves@.len() as int;
                    self.shelves.push(Shelf { y: used, height: e.height, cursor: e.width });
                    proof {
                        self.live@ = self.live@.push(rect);
                        self.shelf_of@ = self.shelf_of@.push(i);
                        self.lemma_allocate_new_shelf_ok(v0, e, rect);
                    }
                    Result::Ok(rect)
                } else {
                    Result::Err(AllocError::OutOfSpace)
                }
            },
        }
    }

    /// Re-establish the invariant and the exact-next-state claims after a
    /// placement on existing shelf `i`.
    proof fn lemma_allocate_on_shelf_ok(&self, v0: ShelfView, e: Extent, i: int, rect: Rect)
        requires
            valid_extent(e),
            best_shelf_upto(v0.shelves, e, v0.width as int, v0.shelves.len() as int)
                == Option::Some(i),
            0 <= i < v0.shelves.len(),
            shelf_fits(v0.shelves[i], e, v0.width as int),
            shelves_stacked(v0.shelves),
            used_height(v0.shelves, v0.shelves.len() as int) <= v0.height,
            forall|k: int|
                0 <= k < v0.shelves.len() ==> (#[trigger] v0.shelves[k]).cursor <= v0.width
                    && v0.shelves[k].height >= 1,
            pairwise_disjoint(v0.live),
            all_in_canvas(v0.live, v0.width as int, v0.height as int),
            rect == (Rect {
                x: v0.shelves[i].cursor,
                y: v0.shelves[i].y,
                width: e.width,
                height: e.height,
            }),
            self.width == v0.width,
            self.height == v0.height,
            self.shelves@ == v0.shelves.update(
                i,
                Shelf {
                    y: v0.shelves[i].y,
                    height: v0.shelves[i].height,
                    cursor: (v0.shelves[i].cursor + e.width) as u32,
                },
            ),
            self.live@ == v0.live.push(rect),
            self.shelf_of@.len() == self.live@.len(),
            forall|k: int|
                0 <= k < v0.live.len() ==> rect_on_shelf(
                    #[trigger] v0.live[k],
                    self.shelf_of@[k],
                    v0.shelves,
                ),
            self.shelf_of@.last() == i,
        ensures
            self.wf(),
            self@ == shelf_alloc_next(v0, e),
    {
        let sh1 = self.shelves@;
        let n = v0.shelves.len() as int;
        assert forall|k: int| 0 <= k <= n implies used_height(sh1, k) == used_height(
            v0.shelves,
            k,
        ) by {
            lemma_used_height_agree(v0.shelves, sh1, k);
        }
        assert(shelves_stacked(sh1));
        // the new rectangle lies in the canvas
        lemma_used_height_mono(v0.shelves, i + 1, n);
        assert(v0.shelves[i].y + v0.shelves[i].height == used_height(v0.shelves, i + 1));
        assert(rect_in_canvas(rect, v0.width as int, v0.height as int));
        // the new rectangle is disjoint from every live one
        assert forall|k: int| 0 <= k < v0.live.len() implies rects_disjoint(v0.live[k], rect) by {
            let j = self.shelf_of@[k];
            assert(rect_on_shelf(v0.live[k], j, v0.shelves));
            if j == i {
                assert(rect_right(v0.live[k]) <= v0.shelves[i].cursor);
            } else if j < i {
                lemma_shelf_bands(v0.shelves, j, i);
            } else {
                lemma_shelf_bands(v0.shelves, i, j);
            }
        }
        assert(pairwise_disjoint(self.live@));
        assert(all_in_canvas(self.live@, self.width as int, self.height as int));
        assert forall|k: int| 0 <= k < self.live@.len() implies rect_on_shelf(
            #[trigger] self.live@[k],
            self.shelf_of@[k],
            sh1,
        ) by {
            if k < v0.live.len() {
                assert(rect_on_shelf(v0.live[k], self.shelf_of@[k], v0.shelves));
            }
        }
        assert(self@ =~= shelf_alloc_next(v0, e));
    }

    /// Re-establish the invariant and the exact-next-state claims after a
    /// placement on a newly opened shelf.
    proof fn lemma_allocate_new_shelf_ok(&self, v0: ShelfView, e: Extent, rect: Rect)
        requires
            valid_extent(e),
            best_shelf_upto(v0.shelves, e, v0.width as int, v0.shelves.len() as int) is None,
            can_open_shelf(v0, e),
            shelves_stacked(v0.shelves),
            used_height(v0.shelves, v0.shelves.len() as int) <= v0.height,
            forall|k: int|
                0 <= k < v0.shelves.len() ==> (#[trigger] v0.shelves[k]).cursor <= v0.width
                    && v0.shelves[k].height >= 1,
            pairwise_disjoint(v0.live),
            all_in_canvas(v0.live, v0.width as int, v0.height as int),
            rect == (Rect {
                x: 0,
                y: used_height(v0.shelves, v0.shelves.len() as int) as u32,
                width: e.width,
                height: e.height,
            }),
            self.width == v0.width,
            self.height == v0.height,
            self.shelves@ == v0.shelves.push(
                Shelf {
                    y: used_height(v0.shelves, v0.shelves.len() as int) as u32,
                    height: e.height,
                    cursor: e.width,
                },
            ),
            self.live@ == v0.live.push(rect),
            self.shelf_of@.len() == self.live@.len(),
            forall|k: int|
                0 <= k < v0.live.len() ==> rect_on_shelf(
                    #[trigger] v0.live[k],
                    self.shelf_of@[k],
                    v0.shelves,
                ),
            self.shelf_of@.last() == v0.shelves.len() as int,
        ensures
            self.wf(),
            self@ == shelf_alloc_next(v0, e),
    {
        let sh1 = self.shelves@;
        let n = v0.shelves.len() as int;
        let used = used_height(v0.shelves, n);
        assert forall|k: int| 0 <= k <= n implies used_height(sh1, k) == used_height(
            v0.shelves,
            k,
        ) by {
            lemma_used_height_push(v0.shelves, sh1[n], k);
        }
        assert(sh1[n].height == e.height);
        assert(used_height(sh1, n) == used);
        assert(used_height(sh1, n + 1) == used_height(sh1, n) + sh1[n].height);
        assert(shelves_stacked(sh1));
        // every live rectangle lies in a band that ends at or above `used`,
        // and the new rectangle starts at `used`
        assert forall|k: int| 0 <= k < v0.live.len() implies rects_disjoint(v0.live[k], rect) by {
            let j = self.shelf_of@[k];
            assert(rect_on_shelf(v0.live[k], j, v0.shelves));
            assert(v0.shelves[j].y + v0.shelves[j].height == used_height(v0.shelves, j + 1));
            lemma_used_height_mono(v0.shelves, j + 1, n);
        }
        assert(pairwise_disjoint(self.live@));
        assert(all_in_canvas(self.live@, self.width as int, self.height as int));
        assert forall|k: int| 0 <= k < self.live@.len() implies rect_on_shelf(
            #[trigger] self.live@[k],
            self.shelf_of@[k],
            sh1,
        ) by {
            if k < v0.live.len() {
                assert(rect_on_shelf(v0.live[k], self.shelf_of@[k], v0.shelves));
            }
        }
        assert(self@ =~= shelf_alloc_next(v0, e));
    }

    /// Mark a previously returned rectangle as freed.  The shelf cursor does
    /// not retract: freed width inside a shelf is not reclaimed, so the
    /// visible shelf state is unchanged.
    pub fn deallocate(&mut self, rect: Rect)
        requires
            old(self).wf(),
            old(self)@.live.contains(rect),
        ensures
            final(self).wf(),
            final(self)@.width == old(self)@.width,
            final(self)@.height == old(self)@.height,
            final(self)@.shelves == old(self)@.shelves,
            exists|k: int|
                0 <= k < old(self)@.live.len() && old(self)@.live[k] == rect && final(self)@.live
                    == old(self)@.live.remove(k),
    {
        proof {
            let k = choose|k: int| 0 <= k < self.live@.len() && self.live@[k] == rect;
            let l0 = self.live@;
            let s0 = self.shelf_of@;
            self.live@ = self.live@.remove(k);
            self.shelf_of@ = self.shelf_of@.remove(k);
            assert forall|m: int| 0 <= m < self.live@.len() implies rect_on_shelf(
                #[trigger] self.live@[m],
                self.shelf_of@[m],
                self.shelves@,
            ) by {
                if m < k {
                    assert(rect_on_shelf(l0[m], s0[m], self.shelves@));
                } else {
                    assert(rect_on_shelf(l0[m + 1], s0[m + 1], self.shelves@));
                }
            }
            assert forall|a: int, b: int| 0 <= a < b < self.live@.len() implies rects_disjoint(
                self.live@[a],
                self.live@[b],
            ) by {
                let a0 = if a < k { a } else { a + 1 };
                let b0 = if b < k { b } else { b + 1 };
                assert(rects_disjoint(l0[a0], l0[b0]));
            }
            assert(pairwise_disjoint(self.live@));
            assert forall|m: int| 0 <= m < self.live@.len() implies rect_in_canvas(
                #[trigger] self.live@[m],
                self.width as int,
                self.height as int,
            ) by {
                if m < k {
                    assert(rect_in_canvas(l0[m], self.width as int, self.height as int));
                } else {
                    assert(rect_in_canvas(l0[m + 1], self.width as int, self.height as int));
                }
            }
            assert(0 <= k < l0.len() && l0[k] == rect && self.live@ == l0.remove(k));
        }
    }
}

} // verus!
