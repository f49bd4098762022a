use ray_tracer::optical::camera::render_order;

#[test]
fn row_major_order() {
    assert_eq!(
        render_order(3, 2),
        vec![(0, 0), (1, 0), (2, 0), (0, 1), (1, 1), (2, 1)]
    );
}

#[test]
fn empty_images() {
    assert!(render_order(0, 5).is_empty());
    assert!(render_order(5, 0).is_empty());
}

#[test]
fn every_pixel_once() {
    let (w, h) = (17u32, 9u32);
    let order = render_order(w, h);
    assert_eq!(order.len(), (w * h) as usize);
    let mut seen = vec![false; (w * h) as usize];
    for (k, &(i, j)) in order.iter().enumerate() {
        assert!(i < w && j < h);
        assert_eq!((j * w + i) as usize, k);
        assert!(!seen[k]);
        seen[k] = true;
    }
}
