//! Geometric value types and the overlap / containment predicates that the
//! allocators' contracts are stated over.

use vstd::prelude::*;

verus! {

/// A requested size: width and height in pixels.
#[derive(Clone, Copy, PartialEq, Eq, Structural, Debug)]
pub struct Extent {
    pub width: u32,
    pub height: u32,
}

/// An axis-aligned rectangle with its top-left corner at `(x, y)`.
#[derive(Clone, Copy, PartialEq, Eq, Structural, Debug)]
pub struct Rect {
    pub x: u32,
    pub y: u32,
    pub width: u32,
    pub height: u32,
}

impl Extent {
    pub fn new(width: u32, height: u32) -> (e: Extent)
        ensures
            e == (Extent { width, height }),
    {
        Extent { width, height }
    }
}

impl Rect {
    pub fn new(x: u32, y: u32, width: u32, height: u32) -> (r: Rect)
        ensures
            r == (Rect { x, y, width, height }),
    {
        Rect { x, y, width, height }
    }
}

/// An extent is accepted only when both dimensions are nonzero.
pub open spec fn valid_extent(e: Extent) -> bool {
    e.width >= 1 && e.height >= 1
}

pub open spec fn rect_right(r: Rect) -> int {
    r.x + r.width
}

pub open spec fn rect_bottom(r: Rect) -> int {
    r.y + r.height
}

/// The two rectangles have empty intersection.
pub open spec fn rects_disjoint(a: Rect, b: Rect) -> bool {
    ||| rect_right(a) <= b.x
    ||| rect_right(b) <= a.x
    ||| rect_bottom(a) <= b.y
    ||| rect_bottom(b) <= a.y
}

/// `inner` lies entirely within `outer`.
pub open spec fn rect_contains(outer: Rect, inner: Rect) -> bool {
    &&& outer.x <= inner.x
    &&& rect_right(inner) <= rect_right(outer)
    &&& outer.y <= inner.y
    &&& rect_bottom(inner) <= rect_bottom(outer)
}

/// The rectangle lies within the canvas `[0, w) x [0, h)`.
pub open spec fn rect_in_canvas(r: Rect, w: int, h: int) -> bool {
    rect_right(r) <= w && rect_bottom(r) <= h
}

pub open spec fn nonempty_rect(r: Rect) -> bool {
    r.width >= 1 && r.height >= 1
}

/// Every pair of rectangles in the sequence has empty intersection.
pub open spec fn pairwise_disjoint(s: Seq<Rect>) -> bool {
    forall|i: int, j: int| 0 <= i < j < s.len() ==> rects_disjoint(s[i], s[j])
}

pub open spec fn all_in_canvas(s: Seq<Rect>, w: int, h: int) -> bool {
    forall|k: int| 0 <= k < s.len() ==> rect_in_canvas(s[k], w, h)
}

/// A rectangle disjoint from `b` is disjoint from anything `b` contains.
pub proof fn lemma_contained_disjoint(a: Rect, b: Rect, c: Rect)
    requires
        rect_contains(b, a),
        rects_disjoint(b, c),
    ensures
        rects_disjoint(a, c),
{
}

} // verus!
