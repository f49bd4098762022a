use ray_tracer::utilities::color::{color_line, decimal_string, encode_ppm, ppm_header, push_decimal};

#[test]
fn decimal_forms() {
    assert_eq!(decimal_string(0), b"0".to_vec());
    assert_eq!(decimal_string(7), b"7".to_vec());
    assert_eq!(decimal_string(10), b"10".to_vec());
    assert_eq!(decimal_string(255), b"255".to_vec());
    assert_eq!(decimal_string(4294967295), b"4294967295".to_vec());
}

#[test]
fn decimal_appends() {
    let mut out = b"x=".to_vec();
    push_decimal(&mut out, 1200);
    assert_eq!(out, b"x=1200".to_vec());
}

#[test]
fn decimal_reads_back() {
    for n in [0u32, 1, 9, 10, 99, 100, 65535, 123456789, u32::MAX] {
        let s = String::from_utf8(decimal_string(n)).unwrap();
        assert_eq!(s.parse::<u32>().unwrap(), n);
    }
}

#[test]
fn header_of_image() {
    assert_eq!(ppm_header(400, 225), b"P3\n400 225\n255\n".to_vec());
    assert_eq!(ppm_header(1, 0), b"P3\n1 0\n255\n".to_vec());
}

#[test]
fn pixel_lines() {
    assert_eq!(color_line(0, 128, 255), b"0 128 255\n".to_vec());
    assert_eq!(color_line(7, 7, 7), b"7 7 7\n".to_vec());
}

#[test]
fn whole_file() {
    let pixels = vec![(255, 0, 0), (0, 255, 0), (0, 0, 255), (12, 34, 56)];
    assert_eq!(
        encode_ppm(2, 2, &pixels),
        b"P3\n2 2\n255\n255 0 0\n0 255 0\n0 0 255\n12 34 56\n".to_vec()
    );
    assert_eq!(encode_ppm(3, 1, &Vec::new()), b"P3\n3 1\n255\n".to_vec());
}
