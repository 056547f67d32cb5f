//! Orchestrator: drives an ordered sequence of allocation requests through a
//! chosen allocator and records one placement per request, in input order.
//! The first failure aborts the whole run.

use crate::allocator::{alloc_next, alloc_result, lemma_alloc_result_ok, Allocator, AllocatorView};
use crate::geom::{rect_in_canvas, Extent, Rect};
use crate::AllocError;
use vstd::prelude::*;

verus! {

/// One allocation request: an identifier and the extent to place.
pub struct Request {
    pub id: String,
    pub extent: Extent,
}

/// Placement metadata handed to collaborators: the geometric center of the
/// placed content, and its originally requested size.
#[derive(Clone, Copy, PartialEq, Eq, Structural, Debug)]
pub struct Fragment {
    pub center_x: u32,
    pub center_y: u32,
    pub width: u32,
    pub height: u32,
}

/// The record of one successful allocation.
pub struct Placement {
    pub id: String,
    pub rect: Rect,
    pub extent: Extent,
    pub fragment: Fragment,
}

/// The fragment for a rectangle allocated for extent `e`: its size is the
/// requested extent, and its center is the rectangle's center shifted back
/// by half of whatever the allocator added to each dimension.
pub open spec fn fragment_spec(rect: Rect, e: Extent) -> Fragment {
    Fragment {
        center_x: (rect.x + rect.width / 2 - (rect.width - e.width) / 2) as u32,
        center_y: (rect.y + rect.height / 2 - (rect.height - e.height) / 2) as u32,
        width: e.width,
        height: e.height,
    }
}

/// A fragment's size equals the originally requested extent, never the
/// allocated rectangle's (possibly larger) size.
pub proof fn lemma_fragment_size(rect: Rect, e: Extent)
    ensures
        fragment_spec(rect, e).width == e.width,
        fragment_spec(rect, e).height == e.height,
{
}

/// Build the fragment for a successful placement.
pub fn fragment_for(rect: Rect, e: Extent) -> (f: Fragment)
    requires
        e.width <= rect.width,
        e.height <= rect.height,
        rect.x + rect.width <= u32::MAX,
        rect.y + rect.height <= u32::MAX,
    ensures
        f == fragment_spec(rect, e),
{
    Fragment {
        center_x: rect.x + rect.width / 2 - (rect.width - e.width) / 2,
        center_y: rect.y + rect.height / 2 - (rect.height - e.height) / 2,
        width: e.width,
        height: e.height,
    }
}

/// The extents of a request sequence, in order.
pub open spec fn extents_of(reqs: Seq<Request>) -> Seq<Extent> {
    reqs.map_values(|r: Request| r.extent)
}

/// The rectangles of a placement sequence, in order.
pub open spec fn rects_of(ps: Seq<Placement>) -> Seq<Rect> {
    ps.map_values(|p: Placement| p.rect)
}

/// The exact outcome of a whole run: the allocator state after processing
/// the extents in order, and either every placed rectangle (in order) or the
/// first failure.  The state on failure is the state after the successful
/// prefix, since a failed call leaves the allocator untouched.
pub open spec fn run_spec(v: AllocatorView, extents: Seq<Extent>) -> (AllocatorView, Result<
    Seq<Rect>,
    AllocError,
>)
    decreases extents.len(),
{
    if extents.len() == 0 {
        (v, Result::Ok(Seq::<Rect>::empty()))
    } else {
        match alloc_result(v, extents[0]) {
            Result::Err(err) => (v, Result::Err(err)),
            Result::Ok(rect) => {
                let rec = run_spec(alloc_next(v, extents[0]), extents.drop_first());
                match rec.1 {
                    Result::Err(err) => (rec.0, Result::Err(err)),
                    Result::Ok(rest) => (rec.0, Result::Ok(seq![rect] + rest)),
                }
            },
        }
    }
}

/// Determinism: an identical initial allocator state and an identical
/// request sequence yield an identical sequence of returned rectangles and
/// an identical final state, however often the run is repeated.
pub proof fn lemma_run_deterministic(
    v1: AllocatorView,
    v2: AllocatorView,
    e1: Seq<Extent>,
    e2: Seq<Extent>,
)
    requires
        v1 == v2,
        e1 == e2,
    ensures
        run_spec(v1, e1) == run_spec(v2, e2),
{
}

/// Drive every request, in the given input order, through the allocator.
/// On success the placements carry the requests' identifiers and extents in
/// input order, the allocated rectangles are exactly those of `run_spec`,
/// and each fragment is `fragment_spec` of its rectangle and request.  The
/// first allocation failure aborts the run and is returned unchanged.
pub fn generate(allocator: &mut Allocator, requests: &Vec<Request>) -> (r: Result<
    Vec<Placement>,
    AllocError,
>)
    requires
        old(allocator).wf(),
    ensures
        final(allocator).wf(),
        final(allocator)@ == run_spec(old(allocator)@, extents_of(requests@)).0,
        match r {
            Result::Ok(out) => {
                &&& run_spec(old(allocator)@, extents_of(requests@)).1 == Result::<
                    Seq<Rect>,
                    AllocError,
                >::Ok(rects_of(out@))
                &&& out@.len() == requests@.len()
                &&& forall|k: int|
                    0 <= k < out@.len() ==> {
                        &&& (#[trigger] out@[k]).id == requests@[k].id
                        &&& out@[k].extent == requests@[k].extent
                        &&& out@[k].fragment == fragment_spec(out@[k].rect, requests@[k].extent)
                    }
                &&& final(allocator)@.live() == old(allocator)@.live() + rects_of(out@)
            },
            Result::Err(err) => run_spec(old(allocator)@, extents_of(requests@)).1 == Result::<
                Seq<Rect>,
                AllocError,
            >::Err(err),
        },
{
    let ghost v0 = allocator@;
    let ghost es = extents_of(requests@);
    let mut out: Vec<Placement> = Vec::new();
    let mut i: usize = 0;
    proof {
        assert(es.skip(0) =~= es);
        assert(rects_of(out@) =~= Seq::<Rect>::empty());
        assert(allocator@.live() =~= v0.live() + rects_of(out@));
    }
    while i < requests.len()
        invariant
            allocator.wf(),
            v0 == old(allocator)@,
            i <= requests@.len(),
            out@.len() == i,
            es == extents_of(requests@),
            forall|k: int|
                0 <= k < out@.len() ==> {
                    &&& (#[trigger] out@[k]).id == requests@[k].id
                    &&& out@[k].extent == requests@[k].extent
                    &&& out@[k].fragment == fragment_spec(out@[k].rect, requests@[k].extent)
                },
            allocator@.live() == v0.live() + rects_of(out@),
            run_spec(v0, es).0 == run_spec(allocator@, es.skip(i as int)).0,
            run_spec(v0, es).1 == (match run_spec(allocator@, es.skip(i as int)).1 {
                Result::Ok(rest) => Result::<Seq<Rect>, AllocError>::Ok(rects_of(out@) + rest),
                Result::Err(err) => Result::<Seq<Rect>, AllocError>::Err(err),
            }),
        decreases requests@.len() - i,
    {
        let ghost pre = allocator@;
        let req_extent = requests[i].extent;
        proof {
            assert(es[i as int] == req_extent);
            assert(es.skip(i as int)[0] == es[i as int]);
            assert(es.skip(i as int).drop_first() =~= es.skip(i as int + 1));
        }
        let res = allocator.allocate(req_extent);
        match res {
            Result::Ok(rect) => {
                proof {
                    lemma_alloc_result_ok(pre, req_extent, rect);
                    allocator.lemma_live_disjoint();
                    assert(allocator@.live().last() == rect);
                    assert(rect_in_canvas(
                        rect,
                        allocator@.width() as int,
                        allocator@.height() as int,
                    ));
                }
                let frag = fragment_for(rect, req_extent);
                let id = requests[i].id.clone();
                let ghost out_pre = out@;
                out.push(Placement { id, rect, extent: req_extent, fragment: frag });
                i = i + 1;
                proof {
                    assert(rects_of(out@) =~= rects_of(out_pre).push(rect));
                    assert(allocator@.live() =~= v0.live() + rects_of(out@));
                    // unfold one step of the run on the pre-call state
                    let tail = run_spec(allocator@, es.skip(i as int)).1;
                    assert(run_spec(pre, es.skip(i as int - 1)).0 == run_spec(
                        allocator@,
                        es.skip(i as int),
                    ).0);
                    if tail is Ok {
                        let rest = tail->Ok_0;
                        assert(run_spec(pre, es.skip(i as int - 1)).1 == Result::<
                            Seq<Rect>,
                            AllocError,
                        >::Ok(seq![rect] + rest));
                        assert(rects_of(out_pre) + (seq![rect] + rest) =~= rects_of(out@) + rest);
                    }
                }
            },
            Result::Err(err) => {
                proof {
                    let rem = es.skip(i as int);
                    assert(rem.len() > 0);
                    assert(alloc_result(pre, rem[0]) == Result::<Rect, AllocError>::Err(err));
                    assert(run_spec(pre, rem).1 == Result::<Seq<Rect>, AllocError>::Err(err));
                    assert(run_spec(pre, rem).0 == pre);
                }
                return Result::Err(err);
            },
        }
    }
    proof {
        assert(es.skip(i as int).len() == 0);
        assert(run_spec(allocator@, es.skip(i as int)).1 == Result::<Seq<Rect>, AllocError>::Ok(
            Seq::<Rect>::empty(),
        ));
        assert(rects_of(out@) + Seq::<Rect>::empty() =~= rects_of(out@));
    }
    Result::Ok(out)
}

} // verus!
