use atlas_packer::{AllocError, Allocator, Extent, Rect, Strategy};

fn rects_overlap(a: &Rect, b: &Rect) -> bool {
    a.x < b.x + b.width && b.x < a.x + a.width && a.y < b.y + b.height && b.y < a.y + a.height
}

#[test]
fn single_request_shelf() {
    let mut a = Allocator::new(100, 100, Strategy::Shelf);
    let r = a.allocate(Extent::new(50, 50)).unwrap();
    assert_eq!(r, Rect::new(0, 0, 50, 50));
}

#[test]
fn single_request_guillotine() {
    let mut a = Allocator::new(100, 100, Strategy::Guillotine);
    let r = a.allocate(Extent::new(50, 50)).unwrap();
    assert_eq!(r, Rect::new(0, 0, 50, 50));
}

#[test]
fn shelf_two_on_one_shelf() {
    let mut a = Allocator::new(100, 50, Strategy::Shelf);
    let first = a.allocate(Extent::new(40, 20)).unwrap();
    let second = a.allocate(Extent::new(40, 20)).unwrap();
    assert_eq!(first, Rect::new(0, 0, 40, 20));
    assert_eq!(second, Rect::new(40, 0, 40, 20));
}

#[test]
fn guillotine_exact_fill_then_out_of_space() {
    let mut a = Allocator::new(64, 64, Strategy::Guillotine);
    let first = a.allocate(Extent::new(64, 64)).unwrap();
    assert_eq!(first, Rect::new(0, 0, 64, 64));
    let second = a.allocate(Extent::new(64, 64));
    assert_eq!(second, Err(AllocError::OutOfSpace));
}

#[test]
fn oversize_request_is_immediate_out_of_space() {
    let mut shelf = Allocator::new(100, 100, Strategy::Shelf);
    assert_eq!(shelf.allocate(Extent::new(200, 50)), Err(AllocError::OutOfSpace));
    let mut guillotine = Allocator::new(100, 100, Strategy::Guillotine);
    assert_eq!(guillotine.allocate(Extent::new(200, 50)), Err(AllocError::OutOfSpace));
}

#[test]
fn zero_extent_is_invalid() {
    let mut shelf = Allocator::new(100, 100, Strategy::Shelf);
    assert_eq!(shelf.allocate(Extent::new(0, 10)), Err(AllocError::InvalidExtent));
    let mut guillotine = Allocator::new(100, 100, Strategy::Guillotine);
    assert_eq!(guillotine.allocate(Extent::new(10, 0)), Err(AllocError::InvalidExtent));
}

#[test]
fn failed_call_leaves_allocator_usable_and_unchanged() {
    let mut a = Allocator::new(100, 50, Strategy::Shelf);
    let first = a.allocate(Extent::new(40, 20)).unwrap();
    assert_eq!(a.allocate(Extent::new(200, 10)), Err(AllocError::OutOfSpace));
    // the next placement is exactly what it would have been without the failure
    let second = a.allocate(Extent::new(40, 20)).unwrap();
    assert_eq!(first, Rect::new(0, 0, 40, 20));
    assert_eq!(second, Rect::new(40, 0, 40, 20));
}

#[test]
fn shelf_best_fit_prefers_least_wasted_height() {
    let mut a = Allocator::new(100, 100, Strategy::Shelf);
    assert_eq!(a.allocate(Extent::new(50, 30)).unwrap(), Rect::new(0, 0, 50, 30));
    // the 30-high shelf still fits a 10-high request, so no new shelf opens
    assert_eq!(a.allocate(Extent::new(50, 10)).unwrap(), Rect::new(50, 0, 50, 10));
    // the first shelf is full now; a new shelf opens at y == 30
    assert_eq!(a.allocate(Extent::new(100, 10)).unwrap(), Rect::new(0, 30, 100, 10));
    assert_eq!(a.allocate(Extent::new(60, 10)).unwrap(), Rect::new(0, 40, 60, 10));
    // both 10-high shelves fit, the later one wastes less than the 30-high one
    assert_eq!(a.allocate(Extent::new(40, 10)).unwrap(), Rect::new(60, 40, 40, 10));
}

#[test]
fn shelf_tie_breaks_on_earliest_shelf() {
    let mut a = Allocator::new(100, 100, Strategy::Shelf);
    assert_eq!(a.allocate(Extent::new(90, 10)).unwrap(), Rect::new(0, 0, 90, 10));
    assert_eq!(a.allocate(Extent::new(90, 10)).unwrap(), Rect::new(0, 10, 90, 10));
    // both shelves have height 10 and room for 5; the earliest one wins
    assert_eq!(a.allocate(Extent::new(5, 10)).unwrap(), Rect::new(90, 0, 5, 10));
}

#[test]
fn guillotine_split_covers_the_leftover_exactly() {
    let mut a = Allocator::new(100, 100, Strategy::Guillotine);
    // dw == 70 > dh == 60: bottom strip keeps the placed width, the right
    // strip takes the full height
    assert_eq!(a.allocate(Extent::new(30, 40)).unwrap(), Rect::new(0, 0, 30, 40));
    assert_eq!(a.allocate(Extent::new(70, 100)).unwrap(), Rect::new(30, 0, 70, 100));
    assert_eq!(a.allocate(Extent::new(30, 60)).unwrap(), Rect::new(0, 40, 30, 60));
    assert_eq!(a.allocate(Extent::new(1, 1)), Err(AllocError::OutOfSpace));
}

#[test]
fn guillotine_best_area_fit_picks_smallest_free_rectangle() {
    let mut a = Allocator::new(100, 100, Strategy::Guillotine);
    // leaves a 60x20 right strip and a 100x80 bottom strip
    assert_eq!(a.allocate(Extent::new(40, 20)).unwrap(), Rect::new(0, 0, 40, 20));
    // fits both strips; the right strip has the smaller area
    assert_eq!(a.allocate(Extent::new(10, 10)).unwrap(), Rect::new(40, 0, 10, 10));
}

#[test]
fn guillotine_deallocate_reuses_the_freed_rectangle() {
    let mut a = Allocator::new(64, 64, Strategy::Guillotine);
    let r = a.allocate(Extent::new(64, 64)).unwrap();
    assert_eq!(a.allocate(Extent::new(64, 64)), Err(AllocError::OutOfSpace));
    a.deallocate(r);
    assert_eq!(a.allocate(Extent::new(64, 64)).unwrap(), Rect::new(0, 0, 64, 64));
}

#[test]
fn shelf_deallocate_does_not_retract_the_cursor() {
    let mut a = Allocator::new(20, 20, Strategy::Shelf);
    let r = a.allocate(Extent::new(10, 10)).unwrap();
    assert_eq!(r, Rect::new(0, 0, 10, 10));
    a.deallocate(r);
    // freed width within the shelf is not reclaimed
    assert_eq!(a.allocate(Extent::new(10, 10)).unwrap(), Rect::new(10, 0, 10, 10));
}

#[test]
fn allocations_never_overlap_and_stay_inside_the_canvas() {
    for strategy in [Strategy::Shelf, Strategy::Guillotine] {
        let mut a = Allocator::new(128, 128, strategy);
        let mut placed: Vec<Rect> = Vec::new();
        for (w, h) in [(60, 30), (60, 30), (50, 50), (40, 20), (128, 10), (7, 9), (30, 30)] {
            if let Ok(r) = a.allocate(Extent::new(w, h)) {
                placed.push(r);
            }
        }
        assert!(placed.len() >= 5);
        for r in &placed {
            assert!(r.x + r.width <= 128 && r.y + r.height <= 128);
        }
        for i in 0..placed.len() {
            for j in 0..i {
                assert!(!rects_overlap(&placed[i], &placed[j]));
            }
        }
    }
}

#[test]
fn identical_runs_return_identical_rectangles() {
    for strategy in [Strategy::Shelf, Strategy::Guillotine] {
        let requests = [(33, 21), (40, 40), (10, 64), (90, 5), (21, 33)];
        let run = |strategy: Strategy| -> Vec<Result<Rect, AllocError>> {
            let mut a = Allocator::new(120, 96, strategy);
            requests.iter().map(|&(w, h)| a.allocate(Extent::new(w, h))).collect()
        };
        assert_eq!(run(strategy), run(strategy));
    }
}
