//! The result of a carve: which kind of object was found and where.

use vstd::prelude::*;

verus! {

/// The kinds of embedded object the library recognises.
#[derive(Clone, Copy, Debug, PartialEq, Eq, Structural)]
pub enum ContentType {
    PNG,
    JPEG,
    MP3,
}

/// A half-open byte range `[start, end)` of the scanned buffer holding one
/// carved object.
#[derive(Clone, Copy, Debug, PartialEq, Eq, Structural)]
pub struct Position {
    pub start: usize,
    pub end: usize,
    pub content_type: ContentType,
}

impl Position {
    /// A well-formed extent of a buffer of `len` bytes: non-empty and inside it.
    pub open spec fn within(self, len: int) -> bool {
        self.start < self.end <= len
    }
}

} // verus!
