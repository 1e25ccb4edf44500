use rip::extent::{ContentType, Position};
use rip::id3::{decode_syncsafe, locate_id3v2_tag, Id3v2Tag};
use rip::mp3::rip_mp3;

const FRAME_HEADER: [u8; 4] = [0xFF, 0xFB, 0x90, 0x64];
const FRAME_LEN: usize = 417;

fn id3_header(size: [u8; 4]) -> Vec<u8> {
    let mut v = vec![0x49u8, 0x44, 0x33, 0x03, 0x00, 0x00];
    v.extend_from_slice(&size);
    v
}

fn frame() -> Vec<u8> {
    let mut v = FRAME_HEADER.to_vec();
    v.resize(FRAME_LEN, 0x00);
    v
}

#[test]
fn syncsafe_small_values() {
    assert_eq!(decode_syncsafe(&[0x00, 0x00, 0x02, 0x01]), 257);
    assert_eq!(decode_syncsafe(&[0x00, 0x00, 0x01, 0x01]), 0x81);
    assert_eq!(decode_syncsafe(&[0x00, 0x00, 0x00, 0x00]), 0);
}

#[test]
fn syncsafe_largest_value() {
    assert_eq!(decode_syncsafe(&[0x7F, 0x7F, 0x7F, 0x7F]), 0x0FFF_FFFF);
}

#[test]
fn syncsafe_ignores_top_bits() {
    assert_eq!(decode_syncsafe(&[0x80, 0x80, 0x81, 0x81]), 0x81);
    assert_eq!(decode_syncsafe(&[0xFF, 0xFF, 0xFF, 0xFF]), 0x0FFF_FFFF);
}

#[test]
fn locates_tag_and_its_end() {
    let mut data = vec![0u8; 2];
    data.extend(id3_header([0x00, 0x00, 0x01, 0x01]));
    data.extend(vec![0u8; 129 + 4]);
    assert_eq!(
        locate_id3v2_tag(&data, 0),
        Some(Id3v2Tag { header_start: 2, length: 129, tag_end: 2 + 10 + 129 })
    );
}

#[test]
fn tag_needs_room_for_one_frame_header() {
    let mut data = id3_header([0x00, 0x00, 0x00, 0x10]);
    data.extend(vec![0u8; 16 + 3]);
    assert_eq!(locate_id3v2_tag(&data, 0), None);
    data.push(0);
    assert_eq!(locate_id3v2_tag(&data, 0), Some(Id3v2Tag { header_start: 0, length: 16, tag_end: 26 }));
}

#[test]
fn tag_only_within_ten_bytes_of_start() {
    let mut data = vec![0u8; 10];
    data.extend(id3_header([0, 0, 0, 0]));
    data.extend(vec![0u8; 8]);
    assert_eq!(locate_id3v2_tag(&data, 0), None);
    assert_eq!(locate_id3v2_tag(&data, 1), Some(Id3v2Tag { header_start: 10, length: 0, tag_end: 20 }));
}

#[test]
fn mp3_extent_spans_tag_and_frames() {
    let mut data = id3_header([0, 0, 0, 0]);
    data.extend(frame());
    data.extend(frame());
    data.extend(vec![0u8; 20]);
    let r = rip_mp3(&data, 0).unwrap();
    assert_eq!(r, Position { start: 0, end: 10 + 2 * FRAME_LEN, content_type: ContentType::MP3 });
}

#[test]
fn mp3_truncated_last_frame_ends_at_buffer_end() {
    let mut data = id3_header([0, 0, 0, 0]);
    data.extend(frame());
    data.extend_from_slice(&FRAME_HEADER);
    data.extend(vec![0u8; 100]);
    let r = rip_mp3(&data, 0).unwrap();
    assert_eq!(r, Position { start: 0, end: data.len(), content_type: ContentType::MP3 });
}

#[test]
fn mp3_without_frames_is_the_tag_alone() {
    let mut data = id3_header([0, 0, 0, 0x05]);
    data.extend(vec![0x00u8; 30]);
    let r = rip_mp3(&data, 0).unwrap();
    assert_eq!(r, Position { start: 0, end: 15, content_type: ContentType::MP3 });
}

#[test]
fn mp3_without_tag_is_none() {
    let mut data = vec![0u8; 4];
    data.extend(frame());
    data.extend(frame());
    assert_eq!(rip_mp3(&data, 0), None);
}

#[test]
fn mp3_needs_more_than_fifteen_bytes_from_start() {
    let mut data = id3_header([0, 0, 0, 0]);
    data.extend(vec![0u8; 6]);
    assert_eq!(data.len(), 16);
    assert!(rip_mp3(&data, 0).is_some());
    assert_eq!(rip_mp3(&data, 1), None);
    assert_eq!(rip_mp3(&data[..15], 0), None);
}
