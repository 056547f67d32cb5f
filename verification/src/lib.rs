//! Rectangle-packing allocators for building texture atlases.
//!
//! A fixed-size canvas is filled with non-overlapping rectangles, one per
//! request, using either a shelf (row-based) or a guillotine (binary-split)
//! strategy.  The orchestrator drives a sequence of requests through a chosen
//! allocator and records each placement.

pub mod allocator;
pub mod geom;
pub mod guillotine;
pub mod orchestrator;
pub mod shelf;

pub use allocator::Allocator;
pub use geom::{Extent, Rect};
pub use orchestrator::{generate, Fragment, Placement, Request};

use vstd::prelude::*;

verus! {

/// Why an allocation request was rejected.
#[derive(Clone, Copy, PartialEq, Eq, Structural, Debug)]
pub enum AllocError {
    /// No region of the canvas can accommodate the requested extent.
    OutOfSpace,
    /// The requested width or height is zero.
    InvalidExtent,
}

/// Which packing algorithm an allocator uses.
#[derive(Clone, Copy, PartialEq, Eq, Structural, Debug)]
pub enum Strategy {
    Shelf,
    Guillotine,
}

} // verus!
