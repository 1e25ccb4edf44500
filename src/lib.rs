//! Locates embedded PNG images, JPEG images and MP3 streams inside an
//! arbitrary byte buffer and reports the byte range each one occupies.

pub mod signature;
pub mod extent;
pub mod png;
pub mod jpeg;
pub mod frame;
pub mod id3;
pub mod mp3;
pub mod engine;
