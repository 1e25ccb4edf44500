use rip::extent::{ContentType, Position};
use rip::jpeg::rip_jpeg;
use rip::png::rip_png;

const PNG_START: [u8; 8] = [0x89, 0x50, 0x4E, 0x47, 0x0D, 0x0A, 0x1A, 0x0A];
const PNG_END: [u8; 8] = [0x49, 0x45, 0x4E, 0x44, 0xAE, 0x42, 0x60, 0x82];

fn png_image(body: usize) -> Vec<u8> {
    let mut v = PNG_START.to_vec();
    v.extend(std::iter::repeat(0x11u8).take(body));
    v.extend_from_slice(&PNG_END);
    v
}

#[test]
fn png_single_image_extent() {
    let mut data = vec![0u8; 5];
    data.extend(png_image(20));
    data.extend(vec![0u8; 7]);
    let trailer = 5 + 8 + 20;
    let r = rip_png(&data, 0).unwrap();
    assert_eq!(r, Position { start: 5, end: trailer + 8, content_type: ContentType::PNG });
    assert_eq!(rip_png(&data, r.end), None);
}

#[test]
fn png_without_start_marker_is_none() {
    let mut data = vec![0x42u8; 40];
    data.extend_from_slice(&PNG_END);
    assert_eq!(rip_png(&data, 0), None);
    assert_eq!(rip_png(&[0u8; 64], 0), None);
}

#[test]
fn png_trailer_before_signature_is_none() {
    let mut data = PNG_END.to_vec();
    data.extend(png_image(4));
    assert_eq!(rip_png(&data, 0), None);
}

#[test]
fn png_needs_sixteen_bytes_from_start() {
    let data = png_image(0);
    assert_eq!(data.len(), 16);
    assert_eq!(rip_png(&data, 0), Some(Position { start: 0, end: 16, content_type: ContentType::PNG }));
    assert_eq!(rip_png(&data, 1), None);
    assert_eq!(rip_png(&data[..15], 0), None);
}

#[test]
fn png_back_to_back_images() {
    let mut data = png_image(3);
    data.extend(png_image(5));
    let first = rip_png(&data, 0).unwrap();
    assert_eq!(first, Position { start: 0, end: 19, content_type: ContentType::PNG });
    let second = rip_png(&data, first.end).unwrap();
    assert_eq!(second, Position { start: 19, end: 40, content_type: ContentType::PNG });
}

#[test]
fn jpeg_end_is_marker_offset() {
    let data = [0x00u8, 0xFF, 0xD8, 0xFF, 0xE0, 0x01, 0x02, 0xFF, 0xD9, 0x00];
    let r = rip_jpeg(&data, 0).unwrap();
    assert_eq!(r, Position { start: 1, end: 7, content_type: ContentType::JPEG });
    assert_eq!(&data[r.end..r.end + 2], &[0xFF, 0xD9]);
}

#[test]
fn jpeg_end_before_start_is_none() {
    let data = [0xFFu8, 0xD9, 0x00, 0xFF, 0xD8, 0xFF, 0x10, 0xFF, 0xD9];
    assert_eq!(rip_jpeg(&data, 0), None);
    assert_eq!(rip_jpeg(&data, 2), Some(Position { start: 3, end: 7, content_type: ContentType::JPEG }));
}

#[test]
fn jpeg_missing_marker_or_short_buffer_is_none() {
    assert_eq!(rip_jpeg(&[0xFF, 0xD8, 0xFF, 0x00, 0x00, 0x00], 0), None);
    assert_eq!(rip_jpeg(&[0xFF, 0xD8, 0xFF, 0xD9], 0), None);
    assert_eq!(rip_jpeg(&[0x00, 0xFF, 0xD8, 0xFF, 0xFF, 0xD9], 2), None);
}
