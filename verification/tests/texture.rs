use ray_tracer::optical::texture::is_even_cell;

#[test]
fn checker_parity() {
    assert!(is_even_cell(0, 0, 0));
    assert!(!is_even_cell(1, 0, 0));
    assert!(is_even_cell(1, 1, 0));
    assert!(!is_even_cell(-1, 0, 0));
    assert!(is_even_cell(-1, -1, 2));
    assert!(!is_even_cell(-3, 0, 0));
}

#[test]
fn checker_alternates() {
    for x in -4..4 {
        for y in -4..4 {
            for z in -4..4 {
                let here = is_even_cell(x, y, z);
                assert_eq!(is_even_cell(x + 1, y, z), !here);
                assert_eq!(is_even_cell(x, y + 1, z), !here);
                assert_eq!(is_even_cell(x, y, z - 1), !here);
            }
        }
    }
}
