//! The header of a waveform file, and the one configuration that the player
//! takes: single-channel 16-bit PCM at 44100 Hz.
//!
//! A waveform file is a RIFF file of the form `WAVE`: after twelve bytes of
//! preamble it is a row of chunks, each a four-byte tag, a little-endian
//! length and that many bytes of content, padded to an even length. The
//! header is read by walking the chunks up to the one tagged `data`.

use vstd::prelude::*;
use crate::error::PlayerError;

verus! {

/// The format tag of uncompressed PCM.
pub const PCM_TAG: u16 = 1;

/// The one channel count that is supported.
pub const CHANNELS: u16 = 1;

/// The one sample rate that is supported, in samples per second.
pub const SAMPLE_RATE: u32 = 44100;

/// The one sample width that is supported, in bits.
pub const BITS_PER_SAMPLE: u16 = 16;

/// The size of one frame of the supported configuration, in bytes.
pub const BLOCK_ALIGN: u16 = 2;

/// The last place at which the head of a chunk may end: the lengths of the
/// format have 32 bits.
pub const CHUNK_HEAD_LIMIT: u64 = 0xFFFF_FFFF;

/// The fields of a `fmt ` chunk.
#[derive(Clone, Copy, Debug, PartialEq, Eq, Structural)]
pub struct WavFormat {
    pub format_tag: u16,
    pub channels: u16,
    pub sample_rate: u32,
    pub byte_rate: u32,
    pub block_align: u16,
    pub bits_per_sample: u16,
}

/// What the walk finds: the format, the place of the first byte of sample
/// data, and the length of the sample data that the `data` chunk declares.
#[derive(Clone, Copy, Debug, PartialEq, Eq, Structural)]
pub struct WavHeader {
    pub format: WavFormat,
    pub data_at: usize,
    pub data_len: u32,
}

/// The little-endian 16-bit number at an offset.
pub open spec fn le16(bytes: Seq<u8>, at: int) -> int {
    bytes[at] + 0x100 * bytes[at + 1]
}

/// The little-endian 32-bit number at an offset.
pub open spec fn le32(bytes: Seq<u8>, at: int) -> int {
    bytes[at] + 0x100 * bytes[at + 1] + 0x1_0000 * bytes[at + 2] + 0x100_0000 * bytes[at + 3]
}

/// Whether the four bytes at an offset are the given tag.
pub open spec fn tag_at(bytes: Seq<u8>, at: int, tag: Seq<u8>) -> bool {
    bytes.subrange(at, at + 4) == tag
}

/// The tag that opens a RIFF file.
pub open spec fn riff_tag() -> Seq<u8> {
    seq![0x52u8, 0x49u8, 0x46u8, 0x46u8]
}

/// The form tag of a waveform file.
pub open spec fn wave_tag() -> Seq<u8> {
    seq![0x57u8, 0x41u8, 0x56u8, 0x45u8]
}

/// The tag of the format chunk, `fmt` and a space.
pub open spec fn fmt_tag() -> Seq<u8> {
    seq![0x66u8, 0x6du8, 0x74u8, 0x20u8]
}

/// The tag of a chunk that holds a list of chunks.
pub open spec fn list_tag() -> Seq<u8> {
    seq![0x4cu8, 0x49u8, 0x53u8, 0x54u8]
}

/// The tag of the chunk that holds the samples.
pub open spec fn data_tag() -> Seq<u8> {
    seq![0x64u8, 0x61u8, 0x74u8, 0x61u8]
}

/// The format fields that stand at an offset.
pub open spec fn format_at(bytes: Seq<u8>, at: int) -> WavFormat {
    WavFormat {
        format_tag: le16(bytes, at) as u16,
        channels: le16(bytes, at + 2) as u16,
        sample_rate: le32(bytes, at + 4) as u32,
        byte_rate: le32(bytes, at + 8) as u32,
        block_align: le16(bytes, at + 12) as u16,
        bits_per_sample: le16(bytes, at + 14) as u16,
    }
}

/// Whether a format is the supported configuration: uncompressed PCM, one
/// channel, 44100 samples per second, 16 bits, and so two bytes to a frame.
pub open spec fn is_supported(format: WavFormat) -> bool {
    &&& format.format_tag == 1
    &&& format.channels == 1
    &&& format.sample_rate == 44100
    &&& format.bits_per_sample == 16
    &&& format.block_align == 2
}

/// Whether a length is one that a `fmt ` chunk of PCM can have: the plain
/// form, the form with an empty extension, and the form with the extension
/// of 22 bytes.
pub open spec fn is_format_length(len: int) -> bool {
    len == 16 || len == 18 || len == 40
}

/// The walk over the chunks from the offset `at`, with the format that the
/// chunks before it have declared.
///
/// The walk ends at the first `data` chunk and gives what it has found, if
/// a format has been declared by then. A `fmt ` chunk has to be of a PCM
/// length and to declare the supported configuration. A `LIST` chunk has to
/// be of even length, as a list of padded chunks is. Any other chunk is
/// passed over. Every chunk before `data` has to lie within the bytes with
/// its padding, and the head of every chunk within the first
/// `CHUNK_HEAD_LIMIT` bytes. Bytes on which the walk fails hold no header.
pub open spec fn walk(bytes: Seq<u8>, at: int, format: Option<WavFormat>) -> Option<WavHeader>
    decreases bytes.len() - at,
{
    if at < 0 || at + 8 > bytes.len() || at + 8 > 0xFFFF_FFFF {
        None
    } else if tag_at(bytes, at, data_tag()) {
        match format {
            Some(found) => Some(
                WavHeader {
                    format: found,
                    data_at: (at + 8) as usize,
                    data_len: le32(bytes, at + 4) as u32,
                },
            ),
            None => None,
        }
    } else {
        let len = le32(bytes, at + 4);
        let next = at + 8 + len + len % 2;
        if next > bytes.len() {
            None
        } else if tag_at(bytes, at, fmt_tag()) {
            if is_format_length(len) && is_supported(format_at(bytes, at + 8)) {
                walk(bytes, next, Some(format_at(bytes, at + 8)))
            } else {
                None
            }
        } else if tag_at(bytes, at, list_tag()) && len % 2 == 1 {
            None
        } else {
            walk(bytes, next, format)
        }
    }
}

/// The header of a file: the bytes open with `RIFF`, a length and `WAVE`,
/// and the walk over the chunks that follow succeeds.
pub open spec fn header_of(bytes: Seq<u8>) -> Option<WavHeader> {
    if bytes.len() >= 12 && tag_at(bytes, 0, riff_tag()) && tag_at(bytes, 8, wave_tag()) {
        walk(bytes, 12, None)
    } else {
        None
    }
}

/// Whether bytes are a file of the supported configuration.
pub open spec fn header_accepted(bytes: Seq<u8>) -> bool {
    header_of(bytes) is Some
}

/// Whether the file holds all of the sample data that its header declares,
/// and the declared data is a whole number of samples.
pub open spec fn data_is_whole(bytes: Seq<u8>, header: WavHeader) -> bool {
    header.data_at + header.data_len <= bytes.len() && header.data_len % 2 == 0
}

/// The number of whole samples of the declared data that the file holds.
pub open spec fn samples_present(bytes: Seq<u8>, header: WavHeader) -> nat {
    let present = bytes.len() - header.data_at;
    if header.data_len <= present {
        (header.data_len / 2) as nat
    } else {
        (present / 2) as nat
    }
}

/// The 16-bit sample at an offset: a little-endian number in two's
/// complement.
pub open spec fn sample_at(bytes: Seq<u8>, at: int) -> i16 {
    let word = le16(bytes, at);
    if word >= 0x8000 {
        (word - 0x1_0000) as i16
    } else {
        word as i16
    }
}

/// The samples that the file holds: the whole samples of its declared data,
/// in file order.
pub open spec fn samples_of(bytes: Seq<u8>, header: WavHeader) -> Seq<i16> {
    Seq::new(samples_present(bytes, header), |i: int| sample_at(bytes, header.data_at + 2 * i))
}

/// Reads the little-endian 16-bit number at an offset.
fn read_le16(bytes: &Vec<u8>, at: usize) -> (v: u16)
    requires
        at + 2 <= bytes@.len(),
    ensures
        v == le16(bytes@, at as int),
{
    let len: usize = bytes.len();
    assert(at + 2 <= len);
    bytes[at] as u16 + 0x100 * (bytes[at + 1] as u16)
}

/// Reads the little-endian 32-bit number at an offset.
fn read_le32(bytes: &Vec<u8>, at: usize) -> (v: u32)
    requires
        at + 4 <= bytes@.len(),
    ensures
        v == le32(bytes@, at as int),
{
    let len: usize = bytes.len();
    assert(at + 4 <= len);
    bytes[at] as u32 + 0x100 * (bytes[at + 1] as u32) + 0x1_0000 * (bytes[at + 2] as u32)
        + 0x100_0000 * (bytes[at + 3] as u32)
}

/// Whether the four bytes at an offset are the given ones.
fn has_tag(bytes: &Vec<u8>, at: usize, a: u8, b: u8, c: u8, d: u8) -> (found: bool)
    requires
        at + 4 <= bytes@.len(),
    ensures
        found == tag_at(bytes@, at as int, seq![a, b, c, d]),
{
    let len: usize = bytes.len();
    assert(at + 4 <= len);
    let found: bool = bytes[at] == a && bytes[at + 1] == b && bytes[at + 2] == c && bytes[at + 3]
        == d;
    proof {
        let piece = bytes@.subrange(at as int, at + 4);
        let tag = seq![a, b, c, d];
        assert(piece[0] == bytes@[at as int]);
        assert(piece[1] == bytes@[at + 1]);
        assert(piece[2] == bytes@[at + 2]);
        assert(piece[3] == bytes@[at + 3]);
        if found {
            assert(piece =~= tag);
        } else {
            assert(tag[0] == a && tag[1] == b && tag[2] == c && tag[3] == d);
        }
    }
    found
}

/// Reads the format fields at an offset.
fn read_format(bytes: &Vec<u8>, at: usize) -> (format: WavFormat)
    requires
        at + 16 <= bytes@.len(),
    ensures
        format == format_at(bytes@, at as int),
{
    let len: usize = bytes.len();
    assert(at + 16 <= len);
    WavFormat {
        format_tag: read_le16(bytes, at),
        channels: read_le16(bytes, at + 2),
        sample_rate: read_le32(bytes, at + 4),
        byte_rate: read_le32(bytes, at + 8),
        block_align: read_le16(bytes, at + 12),
        bits_per_sample: read_le16(bytes, at + 14),
    }
}

/// Whether a format is the supported configuration.
pub fn supports(format: &WavFormat) -> (b: bool)
    ensures
        b == is_supported(*format),
{
    format.format_tag == PCM_TAG && format.channels == CHANNELS && format.sample_rate
        == SAMPLE_RATE && format.bits_per_sample == BITS_PER_SAMPLE && format.block_align
        == BLOCK_ALIGN
}

/// Reads the header of a file by walking its chunks up to `data`; `None`
/// for bytes that hold no header.
pub fn read_header(bytes: &Vec<u8>) -> (r: Option<WavHeader>)
    ensures
        r == header_of(bytes@),
{
    let n: usize = bytes.len();
    if n < 12 {
        return None;
    }
    if !has_tag(bytes, 0, 0x52, 0x49, 0x46, 0x46) {
        return None;
    }
    if !has_tag(bytes, 8, 0x57, 0x41, 0x56, 0x45) {
        return None;
    }
    let mut at: usize = 12;
    let mut format: Option<WavFormat> = None;
    loop
        invariant
            at <= n,
            n == bytes@.len(),
            header_of(bytes@) == walk(bytes@, at as int, format),
        decreases n - at,
    {
        if n - at < 8 || at as u64 + 8 > CHUNK_HEAD_LIMIT {
            return None;
        }
        let len: u32 = read_le32(bytes, at + 4);
        if has_tag(bytes, at, 0x64, 0x61, 0x74, 0x61) {
            return match format {
                Some(found) => Some(WavHeader { format: found, data_at: at + 8, data_len: len }),
                None => None,
            };
        }
        let padded: u64 = len as u64 + (len % 2) as u64;
        if padded > (n - at - 8) as u64 {
            return None;
        }
        let next: usize = at + 8 + padded as usize;
        if has_tag(bytes, at, 0x66, 0x6d, 0x74, 0x20) {
            if !(len == 16 || len == 18 || len == 40) {
                return None;
            }
            let found: WavFormat = read_format(bytes, at + 8);
            if !supports(&found) {
                return None;
            }
            format = Some(found);
        } else if has_tag(bytes, at, 0x4c, 0x49, 0x53, 0x54) && len % 2 == 1 {
            return None;
        }
        at = next;
    }
}

/// Judges a format: `DecodeError` for any format but the supported
/// configuration.
pub fn check_format(format: &WavFormat) -> (r: Result<(), PlayerError>)
    ensures
        is_supported(*format) ==> r == Ok::<(), PlayerError>(()),
        !is_supported(*format) ==> r == Err::<(), PlayerError>(PlayerError::DecodeError),
{
    if supports(format) {
        Ok(())
    } else {
        Err(PlayerError::DecodeError)
    }
}

/// Judges the header of a file: `DecodeError` unless the bytes are a file
/// of the supported configuration.
pub fn check_header(bytes: &Vec<u8>) -> (r: Result<WavHeader, PlayerError>)
    ensures
        r matches Ok(header) ==> header_of(bytes@) == Some(header),
        r matches Err(e) ==> e == PlayerError::DecodeError && header_of(bytes@) is None,
{
    match read_header(bytes) {
        Some(header) => Ok(header),
        None => Err(PlayerError::DecodeError),
    }
}

/// Whether the file holds all of its declared sample data, in whole
/// samples.
pub fn holds_whole_data(bytes: &Vec<u8>, header: &WavHeader) -> (b: bool)
    ensures
        b == data_is_whole(bytes@, *header),
{
    let len: usize = bytes.len();
    header.data_at <= len && header.data_len as u64 <= (len - header.data_at) as u64
        && header.data_len % 2 == 0
}

} // verus!
