//! PNG images, delimited by the PNG file signature and the IEND trailer.

use crate::extent::{ContentType, Position};
use crate::signature::{find_signature, first_match, lemma_first_match_props, matches_at};
use vstd::prelude::*;

verus! {

/// The eight-byte PNG file signature.
pub open spec fn png_start_marker() -> Seq<u8> {
    seq![0x89u8, 0x50u8, 0x4Eu8, 0x47u8, 0x0Du8, 0x0Au8, 0x1Au8, 0x0Au8]
}

/// The type and CRC of the IEND chunk, the last eight bytes of a PNG image.
pub open spec fn png_end_marker() -> Seq<u8> {
    seq![0x49u8, 0x45u8, 0x4Eu8, 0x44u8, 0xAEu8, 0x42u8, 0x60u8, 0x82u8]
}

/// The PNG image found by scanning `data` from `from`: it starts at the first
/// signature and ends just past the first IEND trailer, both searched from
/// `from`. There is none when fewer than sixteen bytes remain, when either
/// marker is missing, or when the trailer ends at or before the signature.
pub open spec fn png_extent(data: Seq<u8>, from: int) -> Option<Position> {
    if from + 16 > data.len() {
        None
    } else {
        match (first_match(data, from, png_start_marker()), first_match(data, from, png_end_marker())) {
            (Some(s), Some(e)) => if e + 8 > s {
                Some(Position { start: s as usize, end: (e + 8) as usize, content_type: ContentType::PNG })
            } else {
                None
            },
            _ => None,
        }
    }
}

/// Looks for a PNG image in `data` starting at `start_index` and returns its
/// extent, the IEND trailer included.
pub fn rip_png(data: &[u8], start_index: usize) -> (r: Option<Position>)
    ensures
        r == png_extent(data@, start_index as int),
        r matches Some(p) ==> p.within(data@.len() as int) && start_index <= p.start,
{
    let len = data.len();
    if len < 16 || start_index > len - 16 {
        return None;
    }
    let start_marker: [u8; 8] = [0x89, 0x50, 0x4E, 0x47, 0x0D, 0x0A, 0x1A, 0x0A];
    let end_marker: [u8; 8] = [0x49, 0x45, 0x4E, 0x44, 0xAE, 0x42, 0x60, 0x82];
    proof {
        assert(start_marker@ =~= png_start_marker());
        assert(end_marker@ =~= png_end_marker());
        lemma_first_match_props(data@, start_index as int, png_start_marker());
        lemma_first_match_props(data@, start_index as int, png_end_marker());
    }
    let start = find_signature(data, start_index, &start_marker);
    let trailer = find_signature(data, start_index, &end_marker);
    match (start, trailer) {
        (Some(s), Some(e)) => {
            let end = e + 8;
            if end > s {
                Some(Position { start: s, end, content_type: ContentType::PNG })
            } else {
                None
            }
        },
        _ => None,
    }
}

/// A buffer that holds no PNG signature holds no PNG image, wherever the
/// scan starts.
pub proof fn lemma_no_signature_no_png(data: Seq<u8>, from: int)
    requires
        forall|i: int| !matches_at(data, i, png_start_marker()),
    ensures
        png_extent(data, from) is None,
{
    lemma_first_match_props(data, from, png_start_marker());
}

} // verus!
