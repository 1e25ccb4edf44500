use rip::engine::{carve, carve_all, scan};
use rip::extent::{ContentType, Position};

const PNG_START: [u8; 8] = [0x89, 0x50, 0x4E, 0x47, 0x0D, 0x0A, 0x1A, 0x0A];
const PNG_END: [u8; 8] = [0x49, 0x45, 0x4E, 0x44, 0xAE, 0x42, 0x60, 0x82];

fn png_image(body: usize) -> Vec<u8> {
    let mut v = PNG_START.to_vec();
    v.extend(std::iter::repeat(0x11u8).take(body));
    v.extend_from_slice(&PNG_END);
    v
}

fn mp3_stream() -> Vec<u8> {
    let mut v = vec![0x49u8, 0x44, 0x33, 0x03, 0x00, 0x00, 0x00, 0x00, 0x00, 0x00];
    let mut f = vec![0xFFu8, 0xFB, 0x90, 0x64];
    f.resize(417, 0);
    v.extend(f);
    v
}

const ALL: [ContentType; 3] = [ContentType::PNG, ContentType::JPEG, ContentType::MP3];

#[test]
fn scan_without_matches_is_empty() {
    let data = vec![0x5Au8; 300];
    assert_eq!(scan(&data, &ALL), Vec::<Position>::new());
    assert_eq!(scan(&[], &ALL), Vec::<Position>::new());
    assert_eq!(scan(&data, &[]), Vec::<Position>::new());
}

#[test]
fn scan_reports_formats_in_fixed_order() {
    let mut data = mp3_stream();
    data.extend(png_image(4));
    data.extend([0xFF, 0xD8, 0xFF, 0xE0, 0x00, 0xFF, 0xD9]);
    let mp3 = Position { start: 0, end: 427, content_type: ContentType::MP3 };
    let png = Position { start: 427, end: 447, content_type: ContentType::PNG };
    let jpeg = Position { start: 447, end: 452, content_type: ContentType::JPEG };
    assert_eq!(scan(&data, &[ContentType::MP3, ContentType::JPEG, ContentType::PNG]), vec![png, jpeg, mp3]);
    assert_eq!(scan(&data, &ALL), vec![png, jpeg, mp3]);
    assert_eq!(scan(&data, &[ContentType::JPEG]), vec![jpeg]);
}

#[test]
fn carve_all_collects_every_png() {
    let mut data = vec![0u8; 3];
    data.extend(png_image(2));
    data.extend(vec![0u8; 5]);
    data.extend(png_image(1));
    data.extend(vec![0u8; 2]);
    let found = carve_all(&data, ContentType::PNG);
    assert_eq!(
        found,
        vec![
            Position { start: 3, end: 21, content_type: ContentType::PNG },
            Position { start: 26, end: 43, content_type: ContentType::PNG },
        ]
    );
}

#[test]
fn successive_extents_start_after_previous_end() {
    let mut data = png_image(2);
    data.extend(vec![0u8; 1]);
    data.extend(png_image(3));
    data.extend(vec![0u8; 4]);
    data.extend(png_image(0));
    let found = carve_all(&data, ContentType::PNG);
    assert_eq!(found.len(), 3);
    for w in found.windows(2) {
        assert!(w[1].start > w[0].end);
    }
}

#[test]
fn carve_dispatches_on_kind() {
    let data = png_image(1);
    assert_eq!(carve(ContentType::PNG, &data, 0), Some(Position { start: 0, end: 17, content_type: ContentType::PNG }));
    assert_eq!(carve(ContentType::JPEG, &data, 0), None);
    assert_eq!(carve(ContentType::MP3, &data, 0), None);
}
