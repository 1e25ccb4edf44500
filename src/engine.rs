//! Repeated carving of each requested format across a whole buffer.

use crate::extent::{ContentType, Position};
use crate::id3::{id3v2_tag, id3_marker};
use crate::jpeg::{jpeg_end_marker, jpeg_extent, jpeg_start_marker, lemma_markers_differ, rip_jpeg};
use crate::mp3::{lemma_frame_walk_bounds, mp3_extent, rip_mp3};
use crate::png::{png_end_marker, png_extent, png_start_marker, rip_png};
use crate::signature::{first_match, lemma_first_match_is, lemma_first_match_props, matches_at};
use vstd::prelude::*;

verus! {

/// The extent that one carve of `kind` from `from` yields.
#[verifier::opaque]
pub open spec fn carve_spec(kind: ContentType, data: Seq<u8>, from: int) -> Option<Position> {
    match kind {
        ContentType::PNG => png_extent(data, from),
        ContentType::JPEG => jpeg_extent(data, from),
        ContentType::MP3 => mp3_extent(data, from),
    }
}

/// The extents that repeated carves of `kind` yield, the first from `cursor`
/// and each later one from the end of the one before, until the cursor
/// reaches the end of the buffer or a carve finds nothing.
pub open spec fn carve_chain(kind: ContentType, data: Seq<u8>, cursor: int) -> Seq<Position>
    decreases data.len() - cursor,
    when data.len() <= usize::MAX
    via carve_chain_decreases
{
    if cursor < 0 || cursor >= data.len() {
        seq![]
    } else {
        match carve_spec(kind, data, cursor) {
            Some(p) => seq![p] + carve_chain(kind, data, p.end as int),
            None => seq![],
        }
    }
}

#[via_fn]
proof fn carve_chain_decreases(kind: ContentType, data: Seq<u8>, cursor: int) {
    if 0 <= cursor < data.len() {
        lemma_carve_bounds(kind, data, cursor);
    }
}

/// The extents that a scan for the formats in `formats` yields: all PNG
/// extents, then all JPEG extents, then all MP3 extents, each format present
/// only when requested.
pub open spec fn scan_spec(data: Seq<u8>, formats: Seq<ContentType>) -> Seq<Position> {
    let part = |kind: ContentType|
        if formats.contains(kind) {
            carve_chain(kind, data, 0)
        } else {
            seq![]
        };
    part(ContentType::PNG) + part(ContentType::JPEG) + part(ContentType::MP3)
}

/// A carve from `from` yields an extent that lies inside the buffer, starts
/// no earlier than `from`, and is of the requested kind.
pub proof fn lemma_carve_bounds(kind: ContentType, data: Seq<u8>, from: int)
    requires
        0 <= from,
        data.len() <= usize::MAX,
    ensures
        carve_spec(kind, data, from) matches Some(p) ==> p.within(data.len() as int) && from
            <= p.start && p.content_type == kind,
{
    reveal(carve_spec);
    match kind {
        ContentType::PNG => {
            lemma_first_match_props(data, from, png_start_marker());
            lemma_first_match_props(data, from, png_end_marker());
        },
        ContentType::JPEG => {
            lemma_first_match_props(data, from, jpeg_start_marker());
            lemma_first_match_props(data, from, jpeg_end_marker());
            if let Some(s) = first_match(data, from, jpeg_start_marker()) {
                lemma_markers_differ(data, s);
            }
        },
        ContentType::MP3 => {
            lemma_first_match_props(data, from, id3_marker());
            if let Some(tag) = id3v2_tag(data, from) {
                lemma_frame_walk_bounds(data, tag.tag_end as int);
            }
        },
    }
}

/// Carves one object of `kind` from `data`, starting at `from`.
pub fn carve(kind: ContentType, data: &[u8], from: usize) -> (r: Option<Position>)
    ensures
        r == carve_spec(kind, data@, from as int),
        r matches Some(p) ==> p.within(data@.len() as int) && from <= p.start,
{
    proof {
        reveal(carve_spec);
    }
    match kind {
        ContentType::PNG => rip_png(data, from),
        ContentType::JPEG => rip_jpeg(data, from),
        ContentType::MP3 => rip_mp3(data, from),
    }
}

/// Carves every object of `kind` from `data`: each carve starts where the
/// previous extent ended, and the pass stops at the first carve that finds
/// nothing.
pub fn carve_all(data: &[u8], kind: ContentType) -> (r: Vec<Position>)
    ensures
        r@ == carve_chain(kind, data@, 0),
        extents_within(r@, kind, data@.len() as int, 0),
        extents_ordered(r@),
{
    let len = data.len();
    proof {
        lemma_chain_ordered(kind, data@, 0);
    }
    let mut found: Vec<Position> = Vec::new();
    let mut cursor: usize = 0;
    while cursor < len
        invariant
            len == data@.len(),
            cursor <= len,
            found@ + carve_chain(kind, data@, cursor as int) == carve_chain(kind, data@, 0),
        ensures
            found@ == carve_chain(kind, data@, 0),
        decreases len - cursor,
    {
        match carve(kind, data, cursor) {
            Some(p) => {
                found.push(p);
                cursor = p.end;
            },
            None => {
                break;
            },
        }
    }
    found
}

/// Whether `kind` is among `formats`.
fn requested(formats: &[ContentType], kind: ContentType) -> (r: bool)
    ensures
        r == formats@.contains(kind),
{
    let mut i: usize = 0;
    while i < formats.len()
        invariant
            i <= formats@.len(),
            forall|j: int| 0 <= j < i ==> formats@[j] != kind,
        decreases formats@.len() - i,
    {
        if formats[i] == kind {
            return true;
        }
        i = i + 1;
    }
    false
}

/// Scans `data` for every format in `formats` and returns the extents found:
/// those of PNG first, then JPEG, then MP3, whatever the order of `formats`.
pub fn scan(data: &[u8], formats: &[ContentType]) -> (r: Vec<Position>)
    ensures
        r@ == scan_spec(data@, formats@),
{
    let mut found: Vec<Position> = Vec::new();
    if requested(formats, ContentType::PNG) {
        let mut more = carve_all(data, ContentType::PNG);
        found.append(&mut more);
    }
    if requested(formats, ContentType::JPEG) {
        let mut more = carve_all(data, ContentType::JPEG);
        found.append(&mut more);
    }
    if requested(formats, ContentType::MP3) {
        let mut more = carve_all(data, ContentType::MP3);
        found.append(&mut more);
    }
    assert(found@ =~= scan_spec(data@, formats@));
    found
}

/// The bytes that open an object of `kind`; a carve of `kind` finds an
/// object only where they occur.
pub open spec fn start_marker(kind: ContentType) -> Seq<u8> {
    match kind {
        ContentType::PNG => png_start_marker(),
        ContentType::JPEG => jpeg_start_marker(),
        ContentType::MP3 => id3_marker(),
    }
}

/// A carve starts its extent at the first start marker at or after `from`.
pub proof fn lemma_carve_starts_at_marker(kind: ContentType, data: Seq<u8>, from: int)
    requires
        0 <= from,
        data.len() <= usize::MAX,
    ensures
        carve_spec(kind, data, from) matches Some(p) ==> first_match(data, from, start_marker(kind))
            == Some(p.start as int),
{
    reveal(carve_spec);
    lemma_first_match_props(data, from, start_marker(kind));
}

/// Every extent lies inside a buffer of `len` bytes, is of `kind`, and
/// starts no earlier than `cursor`.
pub open spec fn extents_within(ps: Seq<Position>, kind: ContentType, len: int, cursor: int) -> bool {
    forall|i: int|
        0 <= i < ps.len() ==> (#[trigger] ps[i]).within(len) && cursor <= ps[i].start
            && ps[i].content_type == kind
}

/// Each extent starts no earlier than every extent before it ends.
pub open spec fn extents_ordered(ps: Seq<Position>) -> bool {
    forall|i: int, j: int| 0 <= i < j < ps.len() ==> (#[trigger] ps[i]).end <= (#[trigger] ps[j]).start
}

/// Each extent starts strictly after every extent before it ends.
pub open spec fn extents_separated(ps: Seq<Position>) -> bool {
    forall|i: int, j: int| 0 <= i < j < ps.len() ==> (#[trigger] ps[i]).end < (#[trigger] ps[j]).start
}

/// Extents of one pass lie inside the buffer, are of the pass's kind, start
/// no earlier than the cursor, and each starts no earlier than the previous
/// one ends.
pub proof fn lemma_chain_ordered(kind: ContentType, data: Seq<u8>, cursor: int)
    requires
        0 <= cursor,
        data.len() <= usize::MAX,
    ensures
        extents_within(carve_chain(kind, data, cursor), kind, data.len() as int, cursor),
        extents_ordered(carve_chain(kind, data, cursor)),
    decreases data.len() - cursor,
{
    let c = carve_chain(kind, data, cursor);
    if cursor < data.len() {
        lemma_carve_bounds(kind, data, cursor);
        if let Some(p) = carve_spec(kind, data, cursor) {
            let rest = carve_chain(kind, data, p.end as int);
            lemma_chain_ordered(kind, data, p.end as int);
            assert(c == seq![p] + rest);
            lemma_prepend_ordered(p, rest, kind, data.len() as int, cursor);
        }
    }
}

/// Putting an extent in front of a pass that starts at its end keeps the
/// pass inside the buffer and in order.
proof fn lemma_prepend_ordered(
    p: Position,
    rest: Seq<Position>,
    kind: ContentType,
    len: int,
    cursor: int,
)
    requires
        p.within(len),
        cursor <= p.start,
        p.content_type == kind,
        extents_within(rest, kind, len, p.end as int),
        extents_ordered(rest),
    ensures
        extents_within(seq![p] + rest, kind, len, cursor),
        extents_ordered(seq![p] + rest),
{
    let c = seq![p] + rest;
    assert forall|i: int| 0 <= i < c.len() implies (#[trigger] c[i]).within(len) && cursor
        <= c[i].start && c[i].content_type == kind by {
        if i > 0 {
            assert(c[i] == rest[i - 1]);
        }
    }
    assert forall|i: int, j: int| 0 <= i < j < c.len() implies (#[trigger] c[i]).end <= (
    #[trigger] c[j]).start by {
        assert(c[j] == rest[j - 1]);
        if i > 0 {
            assert(c[i] == rest[i - 1]);
        }
    }
}

/// Where no start marker of `kind` begins exactly at the end of an extent
/// of the pass, each extent starts strictly after the previous one ends.
pub proof fn lemma_chain_strictly_separated(kind: ContentType, data: Seq<u8>, cursor: int)
    requires
        0 <= cursor,
        data.len() <= usize::MAX,
        forall|k: int|
            0 <= k < carve_chain(kind, data, cursor).len() ==> !matches_at(
                data,
                (#[trigger] carve_chain(kind, data, cursor)[k]).end as int,
                start_marker(kind),
            ),
    ensures
        extents_separated(carve_chain(kind, data, cursor)),
    decreases data.len() - cursor,
{
    let c = carve_chain(kind, data, cursor);
    if cursor < data.len() {
        lemma_carve_bounds(kind, data, cursor);
        if let Some(p) = carve_spec(kind, data, cursor) {
            let rest = carve_chain(kind, data, p.end as int);
            assert(c == seq![p] + rest);
            assert forall|k: int| 0 <= k < rest.len() implies !matches_at(
                data,
                (#[trigger] rest[k]).end as int,
                start_marker(kind),
            ) by {
                assert(rest[k] == c[k + 1]);
            }
            lemma_chain_strictly_separated(kind, data, p.end as int);
            lemma_chain_ordered(kind, data, p.end as int);
            if rest.len() > 0 {
                assert(c[0] == p);
                lemma_carve_starts_at_marker(kind, data, p.end as int);
                lemma_first_match_props(data, p.end as int, start_marker(kind));
                lemma_carve_bounds(kind, data, p.end as int);
                assert(rest[0].start > p.end);
            }
            lemma_prepend_separated(p, rest);
        }
    }
}

/// Putting an extent in front of a pass whose first extent starts strictly
/// after its end keeps the extents separated.
proof fn lemma_prepend_separated(p: Position, rest: Seq<Position>)
    requires
        extents_separated(rest),
        extents_ordered(rest),
        forall|k: int| 0 <= k < rest.len() ==> (#[trigger] rest[k]).start < rest[k].end,
        rest.len() > 0 ==> p.end < rest[0].start,
    ensures
        extents_separated(seq![p] + rest),
{
    let c = seq![p] + rest;
    assert forall|i: int, j: int| 0 <= i < j < c.len() implies (#[trigger] c[i]).end < (
    #[trigger] c[j]).start by {
        assert(c[j] == rest[j - 1]);
        if i > 0 {
            assert(c[i] == rest[i - 1]);
        } else if j > 1 {
            assert(rest[0].end <= rest[j - 1].start);
        }
    }
}

/// A scan of a buffer that holds no start marker of any requested format
/// finds nothing: the result is empty.
pub proof fn lemma_scan_without_markers(data: Seq<u8>, formats: Seq<ContentType>)
    requires
        data.len() <= usize::MAX,
        forall|k: ContentType, i: int|
            formats.contains(k) ==> !#[trigger] matches_at(data, i, start_marker(k)),
    ensures
        scan_spec(data, formats) == Seq::<Position>::empty(),
{
    let kinds = seq![ContentType::PNG, ContentType::JPEG, ContentType::MP3];
    assert forall|j: int| 0 <= j < 3 && formats.contains(#[trigger] kinds[j]) implies carve_chain(
        kinds[j],
        data,
        0,
    ) == Seq::<Position>::empty() by {
        let k = kinds[j];
        lemma_carve_starts_at_marker(k, data, 0);
        lemma_first_match_props(data, 0, start_marker(k));
        if let Some(s) = first_match(data, 0, start_marker(k)) {
            assert(!matches_at(data, s, start_marker(k)));
        }
        lemma_carve_bounds(k, data, 0);
    }
    assert(kinds[0] == ContentType::PNG && kinds[1] == ContentType::JPEG && kinds[2]
        == ContentType::MP3);
    assert(scan_spec(data, formats) =~= Seq::<Position>::empty());
}

/// A buffer holding exactly one PNG signature and, at least eight bytes
/// later, exactly one IEND trailer holds one PNG image: a carve from any
/// offset up to the signature returns it, ending just past the trailer, and
/// a carve from its end finds nothing more.
pub proof fn lemma_single_png(data: Seq<u8>, from: int, s: int, e: int)
    requires
        data.len() <= usize::MAX,
        0 <= from <= s,
        s + 8 <= e,
        matches_at(data, s, png_start_marker()),
        matches_at(data, e, png_end_marker()),
        forall|i: int| #[trigger] matches_at(data, i, png_start_marker()) ==> i == s,
        forall|i: int| #[trigger] matches_at(data, i, png_end_marker()) ==> i == e,
    ensures
        png_extent(data, from) == Some(
            Position { start: s as usize, end: (e + 8) as usize, content_type: ContentType::PNG },
        ),
        png_extent(data, e + 8) is None,
        carve_chain(ContentType::PNG, data, from) == seq![
            Position { start: s as usize, end: (e + 8) as usize, content_type: ContentType::PNG },
        ],
{
    reveal(carve_spec);
    lemma_first_match_is(data, from, png_start_marker(), Some(s));
    lemma_first_match_is(data, from, png_end_marker(), Some(e));
    lemma_first_match_props(data, e + 8, png_start_marker());
    assert(png_extent(data, e + 8) is None);
    let p = Position { start: s as usize, end: (e + 8) as usize, content_type: ContentType::PNG };
    assert(carve_chain(ContentType::PNG, data, e + 8) == Seq::<Position>::empty());
    assert(carve_chain(ContentType::PNG, data, from) =~= seq![p]);
}

} // verus!
