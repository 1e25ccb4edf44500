//! JPEG images, delimited by the start-of-image and end-of-image markers.

use crate::extent::{ContentType, Position};
use crate::signature::{find_signature, first_match, lemma_first_match_props, matches_at};
use vstd::prelude::*;

verus! {

/// The start-of-image marker followed by the first byte of the next marker.
pub open spec fn jpeg_start_marker() -> Seq<u8> {
    seq![0xFFu8, 0xD8u8, 0xFFu8]
}

/// The end-of-image marker.
pub open spec fn jpeg_end_marker() -> Seq<u8> {
    seq![0xFFu8, 0xD9u8]
}

/// The JPEG image found by scanning `data` from `from`: it starts at the first
/// start-of-image marker and ends at the offset of the first end-of-image
/// marker (the marker itself is left out), both searched from `from`. There is
/// none when fewer than five bytes remain, when either marker is missing, or
/// when the end marker comes before the start marker.
pub open spec fn jpeg_extent(data: Seq<u8>, from: int) -> Option<Position> {
    if from + 5 > data.len() {
        None
    } else {
        match (first_match(data, from, jpeg_start_marker()), first_match(data, from, jpeg_end_marker())) {
            (Some(s), Some(e)) => if e >= s {
                Some(Position { start: s as usize, end: e as usize, content_type: ContentType::JPEG })
            } else {
                None
            },
            _ => None,
        }
    }
}

/// Looks for a JPEG image in `data` starting at `start_index` and returns its
/// extent, which stops at the start of the end-of-image marker.
pub fn rip_jpeg(data: &[u8], start_index: usize) -> (r: Option<Position>)
    ensures
        r == jpeg_extent(data@, start_index as int),
        r matches Some(p) ==> p.within(data@.len() as int) && start_index <= p.start,
{
    let len = data.len();
    if len < 5 || start_index > len - 5 {
        return None;
    }
    let start_marker: [u8; 3] = [0xFF, 0xD8, 0xFF];
    let end_marker: [u8; 2] = [0xFF, 0xD9];
    proof {
        assert(start_marker@ =~= jpeg_start_marker());
        assert(end_marker@ =~= jpeg_end_marker());
        lemma_first_match_props(data@, start_index as int, jpeg_start_marker());
        lemma_first_match_props(data@, start_index as int, jpeg_end_marker());
    }
    let start = find_signature(data, start_index, &start_marker);
    let eoi = find_signature(data, start_index, &end_marker);
    match (start, eoi) {
        (Some(s), Some(e)) => {
            if e >= s {
                proof {
                    lemma_markers_differ(data@, s as int);
                }
                Some(Position { start: s, end: e, content_type: ContentType::JPEG })
            } else {
                None
            }
        },
        _ => None,
    }
}

/// The two JPEG markers cannot occur at the same offset.
pub proof fn lemma_markers_differ(data: Seq<u8>, i: int)
    requires
        matches_at(data, i, jpeg_start_marker()),
    ensures
        !matches_at(data, i, jpeg_end_marker()),
{
    assert(data[i + 1] == data.subrange(i, i + 3)[1]);
    if matches_at(data, i, jpeg_end_marker()) {
        assert(data[i + 1] == data.subrange(i, i + 2)[1]);
    }
}

} // verus!
