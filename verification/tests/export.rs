use rasterizer::export::encode_ppm;
use rasterizer::fx::Fx;
use rasterizer::render::PixelBuffer;
use rasterizer::vector::Vec3;

fn fx(num: i64, den: i64) -> Fx {
    Fx::from_ratio(num, den)
}

fn entry(r: Fx, g: Fx, b: Fx, depth: Fx) -> Option<PixelBuffer> {
    Some(PixelBuffer { color: Vec3(r, g, b), depth })
}

#[test]
fn export_two_pixel_image_with_default_fill() {
    let buffer = vec![
        entry(fx(1, 1), fx(0, 1), fx(0, 1), fx(0, 1)),
        None,
    ];
    let gray = Vec3(fx(1, 2), fx(1, 2), fx(1, 2));
    let bytes = encode_ppm(2, 1, &buffer, &gray);
    let mut expected = b"P6\n2 1\n255\n".to_vec();
    // round(1.0 * 255) = 255; round(0.5 * 255) = round(127.5) = 128.
    expected.extend_from_slice(&[255, 0, 0, 128, 128, 128]);
    assert_eq!(bytes, expected);
}

#[test]
fn export_header_prints_multi_digit_dimensions() {
    let buffer = vec![None; 120];
    let black = Vec3(fx(0, 1), fx(0, 1), fx(0, 1));
    let bytes = encode_ppm(12, 10, &buffer, &black);
    assert!(bytes.starts_with(b"P6\n12 10\n255\n"));
    assert_eq!(bytes.len(), b"P6\n12 10\n255\n".len() + 120 * 3);
    assert!(bytes[b"P6\n12 10\n255\n".len()..].iter().all(|&b| b == 0));
}

#[test]
fn export_clamps_out_of_range_channels() {
    let buffer = vec![entry(fx(2, 1), fx(-1, 1), fx(1, 4), fx(0, 1))];
    let black = Vec3(fx(0, 1), fx(0, 1), fx(0, 1));
    let bytes = encode_ppm(1, 1, &buffer, &black);
    // 2.0 clamps to 255, -1.0 clamps to 0, 0.25 * 255 = 63.75 rounds to 64.
    let mut expected = b"P6\n1 1\n255\n".to_vec();
    expected.extend_from_slice(&[255, 0, 64]);
    assert_eq!(bytes, expected);
}

#[test]
fn export_rounds_channels_to_nearest() {
    // 1/3 * 255 = 84.999...: the fixed-point value 21845/65536 * 255
    // = 84.996... rounds to 85.
    let buffer = vec![entry(fx(1, 3), fx(2, 3), fx(1, 1), fx(0, 1))];
    let black = Vec3(fx(0, 1), fx(0, 1), fx(0, 1));
    let bytes = encode_ppm(1, 1, &buffer, &black);
    let mut expected = b"P6\n1 1\n255\n".to_vec();
    expected.extend_from_slice(&[85, 170, 255]);
    assert_eq!(bytes, expected);
}
