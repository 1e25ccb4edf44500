//! Decoding of a 4-byte MPEG audio frame header and the size of its frame.

use vstd::prelude::*;

verus! {

/// MPEG audio version.
#[derive(Clone, Copy, Debug, PartialEq, Eq, Structural)]
pub enum MpegVersion {
    V1,
    V2,
    V2_5,
}

/// MPEG audio layer.
#[derive(Clone, Copy, Debug, PartialEq, Eq, Structural)]
pub enum Layer {
    I,
    II,
    III,
}

/// Why four bytes are not a usable frame header.
#[derive(Clone, Copy, Debug, PartialEq, Eq, Structural)]
pub enum HeaderError {
    /// The eleven sync bits are not all set.
    NoSync,
    /// The version bits hold the reserved value.
    InvalidVersion,
    /// The layer bits hold the reserved value.
    InvalidLayer,
    /// The bitrate index selects "free format", which has no fixed frame size.
    UnsupportedBitrate,
    /// The bitrate index holds the reserved value.
    InvalidBitrate,
    /// The sample-rate index holds the reserved value.
    InvalidSampleRate,
}

/// The fields of one decoded frame header.
#[derive(Clone, Copy, Debug, PartialEq, Eq, Structural)]
pub struct MP3Header {
    /// Bits per second.
    pub bitrate: u32,
    pub layer: Layer,
    pub version: MpegVersion,
    /// Samples per second.
    pub sampling_rate: u32,
    pub padding: bool,
}

/// The four bytes read as a big-endian word.
pub open spec fn be_word(b: Seq<u8>) -> u32 {
    ((b[0] as u32) << 24u32) | ((b[1] as u32) << 16u32) | ((b[2] as u32) << 8u32) | (b[3] as u32)
}

/// Bits 20 and 19 of the header word.
pub open spec fn version_of(w: u32) -> Option<MpegVersion> {
    let bits = (w >> 19u32) & 3u32;
    if bits == 0 {
        Some(MpegVersion::V2_5)
    } else if bits == 2 {
        Some(MpegVersion::V2)
    } else if bits == 3 {
        Some(MpegVersion::V1)
    } else {
        None
    }
}

/// Bits 18 and 17 of the header word.
pub open spec fn layer_of(w: u32) -> Option<Layer> {
    let bits = (w >> 17u32) & 3u32;
    if bits == 1 {
        Some(Layer::III)
    } else if bits == 2 {
        Some(Layer::II)
    } else if bits == 3 {
        Some(Layer::I)
    } else {
        None
    }
}

/// The bitrates in kbit/s that bitrate indices 1 to 14 select.
/// Versions 2 and 2.5 share their tables, and their layers II and III share one.
pub open spec fn bitrate_row_kbps(version: MpegVersion, layer: Layer) -> Seq<u32> {
    match (version, layer) {
        (MpegVersion::V1, Layer::I) => seq![
            32u32, 64, 96, 128, 160, 192, 224, 256, 288, 320, 352, 384, 416, 448,
        ],
        (MpegVersion::V1, Layer::II) => seq![
            32u32, 48, 56, 64, 80, 96, 112, 128, 160, 192, 224, 256, 320, 384,
        ],
        (MpegVersion::V1, Layer::III) => seq![
            32u32, 40, 48, 56, 64, 80, 96, 112, 128, 160, 192, 224, 256, 320,
        ],
        (_, Layer::I) => seq![32u32, 48, 56, 64, 80, 96, 112, 128, 144, 160, 176, 192, 224, 256],
        (_, _) => seq![8u32, 16, 24, 32, 40, 48, 56, 64, 80, 96, 112, 128, 144, 160],
    }
}

/// The bitrate in bit/s that `index` (1 to 14) selects.
pub open spec fn bitrate_bps(version: MpegVersion, layer: Layer, index: int) -> u32 {
    (bitrate_row_kbps(version, layer)[index - 1] * 1000) as u32
}

/// The sample rate in Hz that `index` (0 to 2) selects: 44100, 48000 or
/// 32000 for version 1, halved for version 2 and quartered for version 2.5.
pub open spec fn sample_rate_hz(version: MpegVersion, index: int) -> u32 {
    let base: int = if index == 0 {
        44100
    } else if index == 1 {
        48000
    } else {
        32000
    };
    match version {
        MpegVersion::V1 => base as u32,
        MpegVersion::V2 => (base / 2) as u32,
        MpegVersion::V2_5 => (base / 4) as u32,
    }
}

/// What the header word `w` decodes to. Checks come in this order: sync,
/// version, layer, bitrate index, sample-rate index.
pub open spec fn decode_header(w: u32) -> Result<MP3Header, HeaderError> {
    if w & 0xFFE0_0000u32 != 0xFFE0_0000u32 {
        Err(HeaderError::NoSync)
    } else {
        match version_of(w) {
            None => Err(HeaderError::InvalidVersion),
            Some(version) => match layer_of(w) {
                None => Err(HeaderError::InvalidLayer),
                Some(layer) => {
                    let bitrate_index = (w >> 12u32) & 0xFu32;
                    let rate_index = (w >> 10u32) & 3u32;
                    if bitrate_index == 0 {
                        Err(HeaderError::UnsupportedBitrate)
                    } else if bitrate_index == 15 {
                        Err(HeaderError::InvalidBitrate)
                    } else if rate_index == 3 {
                        Err(HeaderError::InvalidSampleRate)
                    } else {
                        Ok(
                            MP3Header {
                                bitrate: bitrate_bps(version, layer, bitrate_index as int),
                                layer,
                                version,
                                sampling_rate: sample_rate_hz(version, rate_index as int),
                                padding: w & 0x200u32 != 0,
                            },
                        )
                    }
                },
            },
        }
    }
}

/// Audio samples carried by one frame.
pub open spec fn samples_per_frame(version: MpegVersion, layer: Layer) -> int {
    match layer {
        Layer::I => 384,
        Layer::II => 1152,
        Layer::III => if version == MpegVersion::V1 {
            1152
        } else {
            576
        },
    }
}

impl MP3Header {
    /// Bitrate and sample rate lie within the ranges of the standard's tables.
    pub open spec fn wf(&self) -> bool {
        &&& 8000 <= self.bitrate <= 448_000
        &&& 8000 <= self.sampling_rate <= 48000
    }

    /// Bytes in the frame, header included:
    /// `samples / 8 * bitrate / sample rate`, rounded down, plus one padding byte.
    pub open spec fn spec_frame_size(&self) -> int {
        samples_per_frame(self.version, self.layer) / 8 * (self.bitrate as int) / (self.sampling_rate as int) + (
        if self.padding {
            1int
        } else {
            0int
        })
    }

    /// Decodes a frame header from its four bytes.
    pub fn from_bytes(header_bytes: &[u8; 4]) -> (r: Result<MP3Header, HeaderError>)
        ensures
            r == decode_header(be_word(header_bytes@)),
            r matches Ok(h) ==> h.wf(),
    {
        let w: u32 = ((header_bytes[0] as u32) << 24u32) | ((header_bytes[1] as u32) << 16u32) | ((
        header_bytes[2] as u32) << 8u32) | (header_bytes[3] as u32);
        assert(w == be_word(header_bytes@));
        if w & 0xFFE0_0000u32 != 0xFFE0_0000u32 {
            return Err(HeaderError::NoSync);
        }
        let version_bits = (w >> 19u32) & 3u32;
        let version = if version_bits == 0 {
            MpegVersion::V2_5
        } else if version_bits == 2 {
            MpegVersion::V2
        } else if version_bits == 3 {
            MpegVersion::V1
        } else {
            return Err(HeaderError::InvalidVersion);
        };
        let layer_bits = (w >> 17u32) & 3u32;
        let layer = if layer_bits == 1 {
            Layer::III
        } else if layer_bits == 2 {
            Layer::II
        } else if layer_bits == 3 {
            Layer::I
        } else {
            return Err(HeaderError::InvalidLayer);
        };
        let bitrate_index = (w >> 12u32) & 0xFu32;
        let rate_index = (w >> 10u32) & 3u32;
        if bitrate_index == 0 {
            return Err(HeaderError::UnsupportedBitrate);
        }
        if bitrate_index == 15 {
            return Err(HeaderError::InvalidBitrate);
        }
        if rate_index == 3 {
            return Err(HeaderError::InvalidSampleRate);
        }
        assert(bitrate_index <= 15 && rate_index <= 3) by (bit_vector)
            requires
                bitrate_index == (w >> 12u32) & 0xFu32,
                rate_index == (w >> 10u32) & 3u32,
        ;
        let bitrate = lookup_bitrate(version, layer, bitrate_index);
        let sampling_rate = lookup_sample_rate(version, rate_index);
        Ok(MP3Header { bitrate, layer, version, sampling_rate, padding: w & 0x200u32 != 0 })
    }

    /// The number of bytes this frame occupies, header included.
    pub fn frame_size(&self) -> (r: usize)
        requires
            self.wf(),
        ensures
            r == self.spec_frame_size(),
            1 <= r <= 8065,
    {
        let slot_factor: u32 = match self.layer {
            Layer::I => 48,
            Layer::II => 144,
            Layer::III => match self.version {
                MpegVersion::V1 => 144,
                _ => 72,
            },
        };
        assert(slot_factor == samples_per_frame(self.version, self.layer) / 8);
        assert(slot_factor * self.bitrate <= 144 * 448_000) by (nonlinear_arith)
            requires
                slot_factor <= 144,
                self.bitrate <= 448_000,
        ;
        let product: u32 = slot_factor * self.bitrate;
        let padding: u32 = if self.padding {
            1
        } else {
            0
        };
        proof {
            lemma_frame_bounds(slot_factor as int, self.bitrate as int, self.sampling_rate as int);
        }
        (product / self.sampling_rate + padding) as usize
    }
}

/// Every header that decodes is well formed, and its frame is 1 to 8065 bytes long.
pub proof fn lemma_decoded_header_wf(w: u32)
    ensures
        decode_header(w) matches Ok(h) ==> h.wf() && 1 <= h.spec_frame_size() <= 8065,
{
    if let Ok(h) = decode_header(w) {
        let bitrate_index = (w >> 12u32) & 0xFu32;
        assert(bitrate_index <= 15) by (bit_vector)
            requires
                bitrate_index == (w >> 12u32) & 0xFu32,
        ;
        let kbps = bitrate_row_kbps(h.version, h.layer)[bitrate_index - 1];
        assert(8 <= kbps <= 448);
        lemma_frame_bounds(
            samples_per_frame(h.version, h.layer) / 8,
            h.bitrate as int,
            h.sampling_rate as int,
        );
    }
}

/// Bounds on a frame's size before padding.
proof fn lemma_frame_bounds(slot_factor: int, bitrate: int, rate: int)
    requires
        48 <= slot_factor <= 144,
        8000 <= bitrate <= 448_000,
        8000 <= rate <= 48000,
    ensures
        1 <= slot_factor * bitrate / rate <= 8064,
{
    assert(48 * 8000 <= slot_factor * bitrate <= 144 * 448_000) by (nonlinear_arith)
        requires
            48 <= slot_factor <= 144,
            8000 <= bitrate <= 448_000,
    ;
    assert(1 <= slot_factor * bitrate / rate) by (nonlinear_arith)
        requires
            48 * 8000 <= slot_factor * bitrate,
            8000 <= rate <= 48000,
    ;
    assert(slot_factor * bitrate / rate <= 8064) by (nonlinear_arith)
        requires
            slot_factor * bitrate <= 144 * 448_000,
            8000 <= rate,
    ;
}

/// Looks up the bitrate in bit/s that `index` (1 to 14) selects.
fn lookup_bitrate(version: MpegVersion, layer: Layer, index: u32) -> (r: u32)
    requires
        1 <= index <= 14,
    ensures
        r == bitrate_bps(version, layer, index as int),
        8000 <= r <= 448_000,
{
    let row: [u32; 14] = match (version, layer) {
        (MpegVersion::V1, Layer::I) => [
            32, 64, 96, 128, 160, 192, 224, 256, 288, 320, 352, 384, 416, 448,
        ],
        (MpegVersion::V1, Layer::II) => [
            32, 48, 56, 64, 80, 96, 112, 128, 160, 192, 224, 256, 320, 384,
        ],
        (MpegVersion::V1, Layer::III) => [
            32, 40, 48, 56, 64, 80, 96, 112, 128, 160, 192, 224, 256, 320,
        ],
        (_, Layer::I) => [32, 48, 56, 64, 80, 96, 112, 128, 144, 160, 176, 192, 224, 256],
        (_, _) => [8, 16, 24, 32, 40, 48, 56, 64, 80, 96, 112, 128, 144, 160],
    };
    assert(row@ =~= bitrate_row_kbps(version, layer));
    let kbps = row[(index - 1) as usize];
    assert(8 <= kbps <= 448);
    kbps * 1000
}

/// Looks up the sample rate in Hz that `index` (0 to 2) selects.
fn lookup_sample_rate(version: MpegVersion, index: u32) -> (r: u32)
    requires
        index <= 2,
    ensures
        r == sample_rate_hz(version, index as int),
        8000 <= r <= 48000,
{
    let base: u32 = if index == 0 {
        44100
    } else if index == 1 {
        48000
    } else {
        32000
    };
    match version {
        MpegVersion::V1 => base,
        MpegVersion::V2 => base / 2,
        MpegVersion::V2_5 => base / 4,
    }
}

/// Decoding depends on the four header bytes alone: equal bytes decode to
/// equal headers, however often they are decoded.
pub proof fn lemma_decode_deterministic(a: Seq<u8>, b: Seq<u8>)
    requires
        a.len() == 4,
        a == b,
    ensures
        decode_header(be_word(a)) == decode_header(be_word(b)),
{
}

} // verus!
