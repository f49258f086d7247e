use simple_raytracer::ppm::{ppm_bytes, u32_to_decimal};

#[test]
fn decimal_of_zero() {
    assert_eq!(u32_to_decimal(0), b"0");
}

#[test]
fn decimal_of_round_numbers() {
    assert_eq!(u32_to_decimal(7), b"7");
    assert_eq!(u32_to_decimal(10), b"10");
    assert_eq!(u32_to_decimal(255), b"255");
    assert_eq!(u32_to_decimal(1920), b"1920");
    assert_eq!(u32_to_decimal(4294967295), b"4294967295");
}

#[test]
fn ppm_frame_around_small_buffer() {
    let pixels: Vec<u8> = vec![
        255, 0, 0, 0, 255, 0, //
        0, 0, 255, 9, 8, 7,
    ];
    let out = ppm_bytes(2, 2, &pixels);
    let mut expected: Vec<u8> = b"P6\n2 2\n255\n".to_vec();
    expected.extend_from_slice(&pixels);
    assert_eq!(out, expected);
}

#[test]
fn ppm_header_with_multi_digit_dimensions() {
    let pixels: Vec<u8> = Vec::new();
    let out = ppm_bytes(1920, 1080, &pixels);
    assert_eq!(out, b"P6\n1920 1080\n255\n");
}
