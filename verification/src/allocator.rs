//! A single allocator capability over the two packing strategies, so the
//! orchestrator can be written once.

use crate::geom::{all_in_canvas, pairwise_disjoint, rect_in_canvas, rects_disjoint, Extent, Rect};
use crate::guillotine::{
    guillotine_alloc_next, guillotine_alloc_result, initial_free, GuillotineAllocator,
    GuillotineView,
};
use crate::shelf::{shelf_alloc_next, shelf_alloc_result, Shelf, ShelfAllocator, ShelfView};
use crate::{AllocError, Strategy};
use vstd::prelude::*;

verus! {

/// Ghost model of an allocator of either strategy.
#[verifier::ext_equal]
pub enum AllocatorView {
    Shelf(ShelfView),
    Guillotine(GuillotineView),
}

impl AllocatorView {
    pub open spec fn width(self) -> u32 {
        match self {
            AllocatorView::Shelf(v) => v.width,
            AllocatorView::Guillotine(v) => v.width,
        }
    }

    pub open spec fn height(self) -> u32 {
        match self {
            AllocatorView::Shelf(v) => v.height,
            AllocatorView::Guillotine(v) => v.height,
        }
    }

    /// Every rectangle handed out by the allocator and not yet freed.
    pub open spec fn live(self) -> Seq<Rect> {
        match self {
            AllocatorView::Shelf(v) => v.live,
            AllocatorView::Guillotine(v) => v.live,
        }
    }
}

/// The exact outcome of `Allocator::allocate` on a given state.
pub open spec fn alloc_result(v: AllocatorView, e: Extent) -> Result<Rect, AllocError> {
    match v {
        AllocatorView::Shelf(sv) => shelf_alloc_result(sv, e),
        AllocatorView::Guillotine(gv) => guillotine_alloc_result(gv, e),
    }
}

/// The exact state of the allocator after `allocate` on a given state.
pub open spec fn alloc_next(v: AllocatorView, e: Extent) -> AllocatorView {
    match v {
        AllocatorView::Shelf(sv) => AllocatorView::Shelf(shelf_alloc_next(sv, e)),
        AllocatorView::Guillotine(gv) => AllocatorView::Guillotine(guillotine_alloc_next(gv, e)),
    }
}

/// The exact state of the allocator after `deallocate` frees the rectangle
/// standing at index `k` of the live set: a shelf allocator keeps its shelves
/// as they are (cursors never retract), a guillotine allocator gains the
/// rectangle back as one new free rectangle.
pub open spec fn dealloc_next(v: AllocatorView, rect: Rect, k: int) -> AllocatorView {
    match v {
        AllocatorView::Shelf(sv) => AllocatorView::Shelf(
            ShelfView {
                width: sv.width,
                height: sv.height,
                shelves: sv.shelves,
                live: sv.live.remove(k),
            },
        ),
        AllocatorView::Guillotine(gv) => AllocatorView::Guillotine(
            GuillotineView {
                width: gv.width,
                height: gv.height,
                free: gv.free.push(rect),
                live: gv.live.remove(k),
            },
        ),
    }
}

/// The model of a freshly constructed allocator.
pub open spec fn initial_view(width: u32, height: u32, strategy: Strategy) -> AllocatorView {
    match strategy {
        Strategy::Shelf => AllocatorView::Shelf(
            ShelfView { width, height, shelves: Seq::<Shelf>::empty(), live: Seq::<Rect>::empty() },
        ),
        Strategy::Guillotine => AllocatorView::Guillotine(
            GuillotineView {
                width,
                height,
                free: initial_free(width, height),
                live: Seq::<Rect>::empty(),
            },
        ),
    }
}

/// A rectangle-packing allocator over a fixed canvas, using the strategy
/// chosen at construction.
pub enum Allocator {
    Shelf(ShelfAllocator),
    Guillotine(GuillotineAllocator),
}

impl View for Allocator {
    type V = AllocatorView;

    closed spec fn view(&self) -> AllocatorView {
        match self {
            Allocator::Shelf(a) => AllocatorView::Shelf(a@),
            Allocator::Guillotine(a) => AllocatorView::Guillotine(a@),
        }
    }
}

impl Allocator {
    /// The chosen strategy's internal invariant.
    pub closed spec fn wf(&self) -> bool {
        match self {
            Allocator::Shelf(a) => a.wf(),
            Allocator::Guillotine(a) => a.wf(),
        }
    }

    /// A fresh allocator over an empty canvas of the given size.
    pub fn new(width: u32, height: u32, strategy: Strategy) -> (a: Allocator)
        ensures
            a.wf(),
            a@ == initial_view(width, height, strategy),
    {
        match strategy {
            Strategy::Shelf => Allocator::Shelf(ShelfAllocator::new(width, height)),
            Strategy::Guillotine => Allocator::Guillotine(GuillotineAllocator::new(width, height)),
        }
    }

    /// Every rectangle this allocator has handed out (and not freed) lies
    /// within the canvas, and no two of them overlap.
    pub proof fn lemma_live_disjoint(&self)
        requires
            self.wf(),
        ensures
            pairwise_disjoint(self@.live()),
            all_in_canvas(self@.live(), self@.width() as int, self@.height() as int),
    {
        match self {
            Allocator::Shelf(a) => a.lemma_live_disjoint(),
            Allocator::Guillotine(a) => a.lemma_live_disjoint(),
        }
    }

    /// Serve one request with the chosen strategy.  The result and the next
    /// state are exactly those of `alloc_result` / `alloc_next`; a failed
    /// call leaves the allocator untouched.
    pub fn allocate(&mut self, e: Extent) -> (r: Result<Rect, AllocError>)
        requires
            old(self).wf(),
        ensures
            final(self).wf(),
            r == alloc_result(old(self)@, e),
            final(self)@ == alloc_next(old(self)@, e),
            r is Err ==> *final(self) == *old(self),
            r is Ok ==> final(self)@.live() == old(self)@.live().push(r->Ok_0),
    {
        match self {
            Allocator::Shelf(a) => a.allocate(e),
            Allocator::Guillotine(a) => a.allocate(e),
        }
    }

    /// Free a previously returned rectangle: it leaves the live set, and the
    /// free-space structure becomes exactly `dealloc_next` of the old state —
    /// shelves unchanged for the shelf strategy, the rectangle reinserted as
    /// a new free rectangle for the guillotine strategy.
    pub fn deallocate(&mut self, rect: Rect)
        requires
            old(self).wf(),
            old(self)@.live().contains(rect),
        ensures
            final(self).wf(),
            exists|k: int|
                0 <= k < old(self)@.live().len() && old(self)@.live()[k] == rect && final(self)@
                    == dealloc_next(old(self)@, rect, k),
    {
        match self {
            Allocator::Shelf(a) => {
                let ghost pre = a@;
                a.deallocate(rect);
                proof {
                    let k = choose|k: int|
                        0 <= k < pre.live.len() && pre.live[k] == rect && a@.live == pre.live.remove(
                            k,
                        );
                    assert(a@ =~= (ShelfView {
                        width: pre.width,
                        height: pre.height,
                        shelves: pre.shelves,
                        live: pre.live.remove(k),
                    }));
                }
            },
            Allocator::Guillotine(a) => {
                let ghost pre = a@;
                a.deallocate(rect);
                proof {
                    let k = choose|k: int|
                        0 <= k < pre.live.len() && pre.live[k] == rect && a@.live == pre.live.remove(
                            k,
                        );
                    assert(a@ =~= (GuillotineView {
                        width: pre.width,
                        height: pre.height,
                        free: pre.free.push(rect),
                        live: pre.live.remove(k),
                    }));
                }
            },
        }
    }
}

/// Non-overlap and containment of a whole run's rectangles: whenever the
/// allocator's live set consists of what was live before the run followed by
/// the rectangles the run returned, those rectangles have pairwise empty
/// intersection and each lies within the canvas.
pub proof fn lemma_returned_disjoint(a: &Allocator, prefix: Seq<Rect>, rects: Seq<Rect>)
    requires
        a.wf(),
        a@.live() == prefix + rects,
    ensures
        pairwise_disjoint(rects),
        all_in_canvas(rects, a@.width() as int, a@.height() as int),
{
    a.lemma_live_disjoint();
    let live = a@.live();
    assert forall|i: int, j: int| 0 <= i < j < rects.len() implies rects_disjoint(
        rects[i],
        rects[j],
    ) by {
        assert(live[prefix.len() + i] == rects[i]);
        assert(live[prefix.len() + j] == rects[j]);
        assert(rects_disjoint(live[prefix.len() + i], live[prefix.len() + j]));
    }
    assert forall|k: int| 0 <= k < rects.len() implies rect_in_canvas(
        rects[k],
        a@.width() as int,
        a@.height() as int,
    ) by {
        assert(live[prefix.len() + k] == rects[k]);
        assert(rect_in_canvas(live[prefix.len() + k], a@.width() as int, a@.height() as int));
    }
}

/// A rectangle returned by `allocate` has exactly the requested size, and
/// the request was nonzero in both dimensions.
pub proof fn lemma_alloc_result_ok(v: AllocatorView, e: Extent, rect: Rect)
    requires
        alloc_result(v, e) == Result::<Rect, AllocError>::Ok(rect),
    ensures
        rect.width == e.width,
        rect.height == e.height,
        crate::geom::valid_extent(e),
{
}

} // verus!
