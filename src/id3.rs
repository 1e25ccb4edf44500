//! Locating the ID3v2 tag that opens an MP3 stream.

use crate::signature::{first_match, lemma_first_match_is, lemma_first_match_props, matches_at, pattern_at};
use vstd::prelude::*;

verus! {

/// The three-byte identifier "ID3" that opens an ID3v2 tag header.
pub open spec fn id3_marker() -> Seq<u8> {
    seq![0x49u8, 0x44u8, 0x33u8]
}

/// A syncsafe integer: each of the four bytes gives its low seven bits, most
/// significant byte first.
pub open spec fn syncsafe_value(b: Seq<u8>) -> int {
    (b[0] % 128) * 0x20_0000 + (b[1] % 128) * 0x4000 + (b[2] % 128) * 0x80 + (b[3] % 128)
}

/// A located ID3v2 tag.
#[derive(Clone, Copy, Debug, PartialEq, Eq, Structural)]
pub struct Id3v2Tag {
    /// Offset of the "ID3" identifier.
    pub header_start: usize,
    /// The tag's size field, the ten-byte header not included.
    pub length: u32,
    /// Offset just past the tag, where the first audio frame is expected.
    pub tag_end: usize,
}

/// Offset of the first "ID3" identifier at or after `from`, provided it lies
/// within the ten bytes that start at `from`.
pub open spec fn id3_identifier_offset(data: Seq<u8>, from: int) -> Option<int> {
    match first_match(data, from, id3_marker()) {
        Some(i) => if i < from + 10 {
            Some(i)
        } else {
            None
        },
        None => None,
    }
}

/// The ID3v2 tag found from `from`. Its ten-byte header must lie within the
/// buffer, and the buffer must hold at least four bytes past the tag's end,
/// room for one frame header.
pub open spec fn id3v2_tag(data: Seq<u8>, from: int) -> Option<Id3v2Tag> {
    match id3_identifier_offset(data, from) {
        Some(i) => if i + 10 > data.len() {
            None
        } else {
            let length = syncsafe_value(data.subrange(i + 6, i + 10));
            let tag_end = i + 10 + length;
            if tag_end + 4 > data.len() {
                None
            } else {
                Some(
                    Id3v2Tag {
                        header_start: i as usize,
                        length: length as u32,
                        tag_end: tag_end as usize,
                    },
                )
            }
        },
        None => None,
    }
}

/// Decodes a syncsafe integer; the top bit of each byte is ignored.
pub fn decode_syncsafe(bytes: &[u8; 4]) -> (r: u32)
    ensures
        r == syncsafe_value(bytes@),
        r < 0x1000_0000,
{
    let b0 = bytes[0] & 0x7F;
    let b1 = bytes[1] & 0x7F;
    let b2 = bytes[2] & 0x7F;
    let b3 = bytes[3] & 0x7F;
    proof {
        let (x0, x1, x2, x3) = (bytes[0], bytes[1], bytes[2], bytes[3]);
        assert(x0 & 0x7F == x0 % 128 && x1 & 0x7F == x1 % 128 && x2 & 0x7F == x2 % 128 && x3
            & 0x7F == x3 % 128) by (bit_vector);
    }
    (b0 as u32) * 0x20_0000 + (b1 as u32) * 0x4000 + (b2 as u32) * 0x80 + (b3 as u32)
}

/// Finds the ID3v2 tag that opens an MP3 stream at or shortly after `from`.
pub fn locate_id3v2_tag(data: &[u8], from: usize) -> (r: Option<Id3v2Tag>)
    ensures
        r == id3v2_tag(data@, from as int),
{
    let len = data.len();
    let marker: [u8; 3] = [0x49, 0x44, 0x33];
    proof {
        assert(marker@ =~= id3_marker());
        lemma_first_match_props(data@, from as int, id3_marker());
    }
    if from > len || len - from < 3 {
        return None;
    }
    let window_end: usize = if len - from - 3 < 10 {
        len - 2
    } else {
        from + 10
    };
    let mut i: usize = from;
    while i < window_end
        invariant
            len == data@.len(),
            marker@ == id3_marker(),
            from <= i <= window_end,
            window_end <= from + 10,
            window_end + 2 <= len,
            window_end < from + 10 ==> window_end + 2 == len,
            forall|j: int| from <= j < i ==> !matches_at(data@, j, id3_marker()),
        decreases window_end - i,
    {
        if pattern_at(data, i, &marker) {
            proof {
                lemma_first_match_is(data@, from as int, id3_marker(), Some(i as int));
            }
            return tag_at(data, i);
        }
        i = i + 1;
    }
    None
}

/// The tag whose identifier stands at offset `i`.
fn tag_at(data: &[u8], i: usize) -> (r: Option<Id3v2Tag>)
    requires
        i + 3 <= data@.len(),
    ensures
        r == (if i + 10 > data@.len() {
            None
        } else {
            let length = syncsafe_value(data@.subrange(i + 6, i + 10));
            let tag_end = i + 10 + length;
            if tag_end + 4 > data@.len() {
                None
            } else {
                Some(Id3v2Tag { header_start: i, length: length as u32, tag_end: tag_end as usize })
            }
        }),
{
    let len = data.len();
    if len - i < 10 {
        return None;
    }
    let size_bytes: [u8; 4] = [data[i + 6], data[i + 7], data[i + 8], data[i + 9]];
    assert(size_bytes@ =~= data@.subrange(i + 6, i + 10));
    let length = decode_syncsafe(&size_bytes);
    if (length as usize) > len - i - 10 || len - i - 10 - (length as usize) < 4 {
        return None;
    }
    Some(Id3v2Tag { header_start: i, length, tag_end: i + 10 + length as usize })
}

} // verus!
