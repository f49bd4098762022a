use ray_tracer::utilities::perlin::{Perlin, POINT_COUNT};
use ray_tracer::utilities::random::random_i32_range;

fn is_permutation(p: &[usize]) -> bool {
    let mut seen = vec![false; p.len()];
    for &v in p {
        if v >= p.len() || seen[v] {
            return false;
        }
        seen[v] = true;
    }
    true
}

#[test]
fn generated_tables_are_permutations() {
    for _ in 0..20 {
        let p = Perlin::generate_perm();
        assert_eq!(p.len(), POINT_COUNT);
        assert!(is_permutation(&p));
    }
}

#[test]
fn generated_tables_are_shuffled() {
    let identity: Vec<usize> = (0..POINT_COUNT).collect();
    let p = Perlin::generate_perm();
    assert_ne!(p, identity);
}

#[test]
fn permute_rearranges() {
    let mut p = vec![5, 5, 9, 1, 0, 3, 3, 3];
    let mut before = p.clone();
    Perlin::permute(&mut p);
    let mut after = p.clone();
    before.sort();
    after.sort();
    assert_eq!(before, after);

    let mut single = vec![42];
    Perlin::permute(&mut single);
    assert_eq!(single, vec![42]);
    let mut none: Vec<usize> = Vec::new();
    Perlin::permute(&mut none);
    assert!(none.is_empty());
}

#[test]
fn cell_corners() {
    let perlin = Perlin::new();
    for &(i, j, k) in &[(0, 0, 0), (-1, -1, -1), (255, 256, -257), (i32::MIN, 7, i32::MAX - 1)] {
        let idx = perlin.cell_indices(i, j, k);
        assert_eq!(idx.len(), 8);
        for di in 0..2 {
            for dj in 0..2 {
                for dk in 0..2 {
                    let c = perlin.corner_index(i, j, k, di, dj, dk);
                    assert!(c < POINT_COUNT);
                    assert_eq!(idx[(4 * di + 2 * dj + dk) as usize], c);
                }
            }
        }
    }
}

#[test]
fn corners_wrap_every_256_cells() {
    let perlin = Perlin::new();
    for &(i, j, k) in &[(0, 0, 0), (-3, 10, 100), (1000, -1000, 5)] {
        assert_eq!(
            perlin.corner_index(i, j, k, 1, 0, 1),
            perlin.corner_index(i + 256, j - 512, k + 256, 1, 0, 1)
        );
    }
}

#[test]
fn random_range_draws() {
    let mut seen = [false; 10];
    for _ in 0..2000 {
        let r = random_i32_range(0, 9);
        assert!((0..=9).contains(&r));
        seen[r as usize] = true;
    }
    assert!(seen.iter().filter(|&&s| s).count() > 1);
    assert_eq!(random_i32_range(-4, -4), -4);
    let r = random_i32_range(i32::MIN, i32::MAX);
    let _ = r;
}

#[test]
fn shuffle_with_given_draws() {
    // Position 3 swaps with 0, position 2 with 2, position 1 with 0.
    let mut p = vec![10, 11, 12, 13];
    Perlin::shuffle_with(&mut p, &vec![0, 0, 2, 0]);
    // [10,11,12,13] -> [13,11,12,10] -> [13,11,12,10] -> [11,13,12,10]
    assert_eq!(p, vec![11, 13, 12, 10]);

    let mut q = vec![1, 2, 3];
    Perlin::shuffle_with(&mut q, &vec![0, 1, 2]);
    assert_eq!(q, vec![1, 2, 3]);

    let mut e: Vec<usize> = Vec::new();
    Perlin::shuffle_with(&mut e, &Vec::new());
    assert!(e.is_empty());
}
