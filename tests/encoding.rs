use raytracer::decimal::push_decimal;
use raytracer::ppm::{encode_image, push_header, push_pixel, Rgb8};
use raytracer::raster::ImageSize;

fn text(bytes: &[u8]) -> String {
    String::from_utf8(bytes.to_vec()).unwrap()
}

#[test]
fn decimal_of_zero_is_one_digit() {
    let mut out = Vec::new();
    push_decimal(&mut out, 0);
    assert_eq!(text(&out), "0");
}

#[test]
fn decimal_of_several_values() {
    for (n, s) in [(7u32, "7"), (10, "10"), (255, "255"), (1200, "1200"), (u32::MAX, "4294967295")] {
        let mut out = Vec::new();
        push_decimal(&mut out, n);
        assert_eq!(text(&out), s);
    }
}

#[test]
fn decimal_appends_after_existing_bytes() {
    let mut out = b"x=".to_vec();
    push_decimal(&mut out, 42);
    assert_eq!(text(&out), "x=42");
}

#[test]
fn header_of_small_image() {
    let mut out = Vec::new();
    push_header(&mut out, 20, 11);
    assert_eq!(text(&out), "P3\n20 11\n255\n");
}

#[test]
fn pixel_line_spells_channels() {
    let mut out = Vec::new();
    push_pixel(&mut out, Rgb8 { r: 255, g: 0, b: 128 });
    assert_eq!(text(&out), "255 0 128\n");
}

#[test]
fn encode_two_by_one_image() {
    let size = ImageSize { width: 2, height: 1 };
    let pixels = vec![Rgb8 { r: 1, g: 2, b: 3 }, Rgb8 { r: 40, g: 50, b: 60 }];
    let bytes = encode_image(size, &pixels).unwrap();
    assert_eq!(text(&bytes), "P3\n2 1\n255\n1 2 3\n40 50 60\n");
}

#[test]
fn encode_refuses_wrong_pixel_count() {
    let size = ImageSize { width: 2, height: 2 };
    let pixels = vec![Rgb8 { r: 0, g: 0, b: 0 }; 3];
    assert_eq!(encode_image(size, &pixels), None);
    let pixels = vec![Rgb8 { r: 0, g: 0, b: 0 }; 5];
    assert_eq!(encode_image(size, &pixels), None);
}

#[test]
fn encode_empty_width_image() {
    let size = ImageSize::new(0, 0);
    assert_eq!(size.height, 1);
    let bytes = encode_image(size, &Vec::new()).unwrap();
    assert_eq!(text(&bytes), "P3\n0 1\n255\n");
}

#[test]
fn low_resolution_stream_has_header_and_one_line_per_pixel() {
    let aspect_ratio = 16.0 / 9.0;
    let width = 20u32;
    let size = ImageSize::new(width, (width as f64 / aspect_ratio) as u32);
    assert_eq!((size.width, size.height), (20, 11));
    let pixels: Vec<Rgb8> = (0..size.pixel_count())
        .map(|k| Rgb8 { r: (k % 256) as u8, g: 128, b: 255 })
        .collect();
    let bytes = encode_image(size, &pixels).unwrap();
    let stream = text(&bytes);
    assert!(stream.starts_with("P3\n20 11\n255\n"));
    let lines: Vec<&str> = stream.lines().collect();
    assert_eq!(lines.len(), 3 + 20 * 11);
    for line in &lines[3..] {
        let channels: Vec<u32> = line.split(' ').map(|c| c.parse().unwrap()).collect();
        assert_eq!(channels.len(), 3);
        assert!(channels.iter().all(|&c| c <= 255));
    }
    assert_eq!(lines[3], "0 128 255");
    assert_eq!(lines[3 + 219], "219 128 255");
}

#[test]
fn encoding_same_pixels_twice_is_byte_identical() {
    let size = ImageSize::new(4, 3);
    let pixels: Vec<Rgb8> = (0..12u8).map(|k| Rgb8 { r: k, g: 2 * k, b: 255 - k }).collect();
    let first = encode_image(size, &pixels).unwrap();
    let second = encode_image(size, &pixels).unwrap();
    assert_eq!(first, second);
}
