use ray_tracer::hittable::bvh::{bvh_split, BvhSplit};

#[test]
fn small_nodes() {
    assert_eq!(bvh_split(1), BvhSplit::Single);
    assert_eq!(bvh_split(2), BvhSplit::Pair);
}

#[test]
fn halves() {
    assert_eq!(bvh_split(3), BvhSplit::Halves { mid: 1 });
    assert_eq!(bvh_split(4), BvhSplit::Halves { mid: 2 });
    assert_eq!(bvh_split(1001), BvhSplit::Halves { mid: 500 });
}

#[test]
fn halves_are_balanced() {
    for len in 3..500usize {
        match bvh_split(len) {
            BvhSplit::Halves { mid } => {
                assert!(1 <= mid && mid < len);
                assert!(mid <= len - mid && len - mid <= mid + 1);
            }
            other => panic!("unexpected {:?}", other),
        }
    }
}
