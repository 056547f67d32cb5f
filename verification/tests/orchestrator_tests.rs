use atlas_packer::{generate, AllocError, Allocator, Extent, Rect, Request, Strategy};

fn req(id: &str, w: u32, h: u32) -> Request {
    Request { id: id.to_string(), extent: Extent::new(w, h) }
}

#[test]
fn single_request_fragment() {
    for strategy in [Strategy::Shelf, Strategy::Guillotine] {
        let mut a = Allocator::new(100, 100, strategy);
        let requests = vec![req("hero", 50, 50)];
        let out = generate(&mut a, &requests).unwrap();
        assert_eq!(out.len(), 1);
        assert_eq!(out[0].id, "hero");
        assert_eq!(out[0].rect, Rect::new(0, 0, 50, 50));
        let f = out[0].fragment;
        assert_eq!((f.center_x, f.center_y), (25, 25));
        assert_eq!((f.width, f.height), (50, 50));
    }
}

#[test]
fn placements_preserve_input_order() {
    let mut a = Allocator::new(200, 200, Strategy::Shelf);
    let requests = vec![req("c", 30, 30), req("a", 20, 30), req("b", 10, 10)];
    let out = generate(&mut a, &requests).unwrap();
    let ids: Vec<&str> = out.iter().map(|p| p.id.as_str()).collect();
    assert_eq!(ids, ["c", "a", "b"]);
    for (p, r) in out.iter().zip(requests.iter()) {
        assert_eq!(p.extent, r.extent);
    }
}

#[test]
fn fragment_size_is_the_requested_extent() {
    let mut a = Allocator::new(100, 100, Strategy::Guillotine);
    let requests = vec![req("odd", 33, 17), req("wide", 67, 17)];
    let out = generate(&mut a, &requests).unwrap();
    for (p, r) in out.iter().zip(requests.iter()) {
        assert_eq!(p.fragment.width, r.extent.width);
        assert_eq!(p.fragment.height, r.extent.height);
        // the allocated rectangle here equals the request, so the center is
        // the rectangle's own center (integer division)
        assert_eq!(p.fragment.center_x, p.rect.x + p.rect.width / 2);
        assert_eq!(p.fragment.center_y, p.rect.y + p.rect.height / 2);
    }
}

#[test]
fn first_failure_aborts_the_whole_run() {
    let mut a = Allocator::new(10, 10, Strategy::Guillotine);
    let requests = vec![req("fits", 10, 10), req("late", 1, 1)];
    let r = generate(&mut a, &requests);
    assert!(matches!(r, Err(AllocError::OutOfSpace)));
}

#[test]
fn oversize_request_aborts_regardless_of_strategy() {
    for strategy in [Strategy::Shelf, Strategy::Guillotine] {
        let mut a = Allocator::new(100, 100, strategy);
        let requests = vec![req("too-wide", 200, 50)];
        assert!(matches!(generate(&mut a, &requests), Err(AllocError::OutOfSpace)));
    }
}

#[test]
fn identical_runs_give_identical_placements() {
    for strategy in [Strategy::Shelf, Strategy::Guillotine] {
        let requests = vec![req("a", 40, 20), req("b", 40, 20), req("c", 20, 60), req("d", 5, 5)];
        let mut a1 = Allocator::new(100, 100, strategy);
        let mut a2 = Allocator::new(100, 100, strategy);
        let out1 = generate(&mut a1, &requests).unwrap();
        let out2 = generate(&mut a2, &requests).unwrap();
        assert_eq!(out1.len(), out2.len());
        for (p, q) in out1.iter().zip(out2.iter()) {
            assert_eq!(p.id, q.id);
            assert_eq!(p.rect, q.rect);
            assert_eq!(p.fragment, q.fragment);
        }
    }
}
