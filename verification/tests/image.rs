use ray_tracer::utilities::image::Image;

// A 2x3 picture, top row first: pixel (x, y) has bytes (10x + y, 100 + y, 200 + x).
fn picture() -> Vec<u8> {
    let mut v = Vec::new();
    for y in 0..3u8 {
        for x in 0..2u8 {
            v.push(10 * x + y);
            v.push(100 + y);
            v.push(200 + x);
        }
    }
    v
}

#[test]
fn empty_image_samples_nothing() {
    let img = Image::empty();
    assert_eq!(img.width(), 0);
    assert_eq!(img.height(), 0);
    assert_eq!(img.pixel_data(0, 0), None);
    assert_eq!(img.pixel_data(5, 9), None);
}

#[test]
fn rows_are_flipped() {
    let img = Image::from_rgb(2, 3, &picture());
    assert_eq!(img.width(), 2);
    assert_eq!(img.height(), 3);
    for y in 0..3u8 {
        for x in 0..2u8 {
            let row_from_bottom = (2 - y) as usize;
            assert_eq!(
                img.pixel_data(x as usize, row_from_bottom),
                Some((10 * x + y, 100 + y, 200 + x))
            );
        }
    }
}

#[test]
fn sampling_clamps_to_the_edges() {
    let img = Image::from_rgb(2, 3, &picture());
    // Column 7 clamps to column 1, row 9 clamps to the top row (decoded row 0).
    assert_eq!(img.pixel_data(7, 9), Some((10, 100, 201)));
    assert_eq!(img.pixel_data(usize::MAX, 0), img.pixel_data(1, 0));
    // Row 0 counted from the bottom is the last decoded row.
    assert_eq!(img.pixel_data(0, 0), Some((2, 102, 200)));
}
