//! MP3 streams: an ID3v2 tag followed by a chain of MPEG audio frames.

use crate::extent::{ContentType, Position};
use crate::frame::{be_word, decode_header, lemma_decoded_header_wf, MP3Header};
use crate::id3::{id3v2_tag, locate_id3v2_tag};
use vstd::prelude::*;

verus! {

/// Where the chain of frames that starts at `cursor` ends. The walk decodes
/// a header at each frame start and moves past that frame; it stops at the
/// first offset with fewer than four bytes left or with a header that does
/// not decode. A last frame that runs past the buffer ends the walk at the
/// buffer's end.
pub open spec fn frame_walk_end(data: Seq<u8>, cursor: int) -> int
    decreases data.len() - cursor,
    via frame_walk_decreases
{
    if cursor < 0 || cursor + 4 > data.len() {
        cursor
    } else {
        match decode_header(be_word(data.subrange(cursor, cursor + 4))) {
            Ok(h) => if cursor + h.spec_frame_size() >= data.len() {
                data.len() as int
            } else {
                frame_walk_end(data, cursor + h.spec_frame_size())
            },
            Err(_) => cursor,
        }
    }
}

#[via_fn]
proof fn frame_walk_decreases(data: Seq<u8>, cursor: int) {
    lemma_decoded_header_wf(be_word(data.subrange(cursor, cursor + 4)));
}

/// The MP3 stream found by scanning `data` from `from`: it starts at its
/// ID3v2 tag and ends where the chain of frames after the tag ends. There is
/// none when no more than fifteen bytes remain past `from` or no tag is found.
pub open spec fn mp3_extent(data: Seq<u8>, from: int) -> Option<Position> {
    if from + 15 >= data.len() {
        None
    } else {
        match id3v2_tag(data, from) {
            Some(tag) => Some(
                Position {
                    start: tag.header_start,
                    end: frame_walk_end(data, tag.tag_end as int) as usize,
                    content_type: ContentType::MP3,
                },
            ),
            None => None,
        }
    }
}

/// The walk never moves backwards and never leaves the buffer.
pub proof fn lemma_frame_walk_bounds(data: Seq<u8>, cursor: int)
    requires
        0 <= cursor <= data.len(),
    ensures
        cursor <= frame_walk_end(data, cursor) <= data.len(),
    decreases data.len() - cursor,
{
    if cursor + 4 <= data.len() {
        let w = be_word(data.subrange(cursor, cursor + 4));
        lemma_decoded_header_wf(w);
        if let Ok(h) = decode_header(w) {
            if cursor + h.spec_frame_size() < data.len() {
                lemma_frame_walk_bounds(data, cursor + h.spec_frame_size());
            }
        }
    }
}

/// Looks for an MP3 stream in `data` starting at `start_index`: an ID3v2 tag
/// followed by as many well-formed MPEG audio frames as follow one another.
pub fn rip_mp3(data: &[u8], start_index: usize) -> (r: Option<Position>)
    ensures
        r == mp3_extent(data@, start_index as int),
        r matches Some(p) ==> p.within(data@.len() as int) && start_index <= p.start,
{
    let len = data.len();
    if start_index >= len || len - start_index <= 15 {
        return None;
    }
    let tag = match locate_id3v2_tag(data, start_index) {
        Some(tag) => tag,
        None => {
            return None;
        },
    };
    let mut cursor: usize = tag.tag_end;
    proof {
        lemma_frame_walk_bounds(data@, tag.tag_end as int);
    }
    loop
        invariant
            len == data@.len(),
            tag.tag_end <= cursor <= len,
            frame_walk_end(data@, cursor as int) == frame_walk_end(data@, tag.tag_end as int),
        ensures
            cursor == frame_walk_end(data@, tag.tag_end as int),
        decreases len - cursor,
    {
        if len - cursor < 4 {
            break;
        }
        let header_bytes: [u8; 4] = [data[cursor], data[cursor + 1], data[cursor + 2], data[cursor + 3]];
        assert(header_bytes@ =~= data@.subrange(cursor as int, cursor + 4));
        match MP3Header::from_bytes(&header_bytes) {
            Ok(header) => {
                let size = header.frame_size();
                if size >= len - cursor {
                    cursor = len;
                    break;
                }
                cursor = cursor + size;
            },
            Err(_) => {
                break;
            },
        }
    }
    Some(Position { start: tag.header_start, end: cursor, content_type: ContentType::MP3 })
}

} // verus!
