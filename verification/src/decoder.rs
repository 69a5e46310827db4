//! From the bytes of a waveform file to a sample buffer.
//!
//! The header is read here; the samples are decoded by `rodio`, which hands
//! each of them out as a single-precision value on the unit scale. Those
//! values are read back as 16-bit samples under one of two policies. For
//! display, what does not decode is left out: a file whose sample data is
//! cut short shows the samples that it holds. For playback every sample is
//! needed: such a file fails as a whole.

use vstd::prelude::*;
use crate::error::PlayerError;
use crate::sample::{amplitude, lemma_unit_pattern_round_trip, sample_of, unit_pattern_of};
use crate::wav::{
    check_header, data_is_whole, header_accepted, header_of, holds_whole_data, samples_of,
    samples_present, WavHeader,
};

verus! {

#[verifier::external_type_specification]
#[verifier::external_body]
pub struct ExDecoderError(rodio::decoder::DecoderError);

/// Whether `rodio` takes the bytes of a file, or refuses them.
pub uninterp spec fn decoder_accepts(bytes: Seq<u8>) -> bool;

/// The unit-scale values of a sample buffer: the bit pattern of
/// `sample / 32768` for each sample.
pub open spec fn frames_of(samples: Seq<i16>) -> Seq<u32> {
    Seq::new(samples.len(), |i: int| unit_pattern_of(samples[i] as int))
}

/// The stream of a file with a header: the unit-scale value of each whole
/// sample that the file holds of its declared data, in file order.
pub open spec fn stream_of(bytes: Seq<u8>) -> Seq<u32> {
    frames_of(samples_of(bytes, header_of(bytes).unwrap()))
}

/// Calls `rodio::Decoder::new` on a cursor over the bytes and takes every
/// value that the decoder yields, each by its bit pattern.
///
/// Believed of it, and not proved:
/// - Whether the bytes are taken depends on the bytes alone, so it has a
///   name, `decoder_accepts`. Nothing is claimed of which bytes are refused.
/// - Where the bytes are taken, the decoder yields the 16-bit words of the
///   `data` chunk in file order, each divided by 32768, up to the declared
///   length or the end of the bytes, whichever comes first; a last half
///   word is left out.
///
/// The decoder does not return on every input, and it follows the chunks
/// only of some. The reader behind it panics on a format chunk that
/// declares the sample rate 0, and after a `LIST` chunk of odd length it
/// looks for the next chunk one byte late. Only bytes with a header are
/// handed to it: each of their format chunks declares 44100, and each of
/// their `LIST` chunks is of even length.
#[verifier::external_body]
fn drain_decoder(bytes: Vec<u8>) -> (r: Result<Vec<u32>, rodio::decoder::DecoderError>)
    requires
        header_accepted(bytes@),
    ensures
        r is Ok <==> decoder_accepts(bytes@),
        r matches Ok(stream) ==> stream@ == stream_of(bytes@),
{
    let decoder = rodio::Decoder::new(std::io::Cursor::new(bytes))?;
    Ok(decoder.map(|value| value.to_bits()).collect())
}

/// Whether every value of a stream stands for a sample.
pub open spec fn all_decodable(stream: Seq<u32>) -> bool {
    forall|i: int| 0 <= i < stream.len() ==> (#[trigger] sample_of(stream[i])) is Some
}

/// The samples of a stream in which every value stands for one.
pub open spec fn strict_samples(stream: Seq<u32>) -> Seq<i16> {
    Seq::new(stream.len(), |i: int| sample_of(stream[i]).unwrap())
}

/// The samples of a stream, in order, the values that stand for no sample
/// left out.
pub open spec fn lenient_samples(stream: Seq<u32>) -> Seq<i16>
    decreases stream.len(),
{
    if stream.len() == 0 {
        Seq::<i16>::empty()
    } else {
        let before = lenient_samples(stream.drop_last());
        match sample_of(stream.last()) {
            Some(sample) => before.push(sample),
            None => before,
        }
    }
}

/// A decoded file: the stream of unit-scale values, and whether the file
/// held all of its declared sample data, in whole samples.
#[derive(Debug)]
pub struct Decoded {
    pub stream: Vec<u32>,
    pub whole: bool,
}

/// What decoding a file gives: its stream and whether its data is whole,
/// or `DecodeError` where the bytes hold no header of the supported
/// configuration or the decoder refuses them.
pub open spec fn decode_outcome(bytes: Seq<u8>) -> Result<(Seq<u32>, bool), PlayerError> {
    match header_of(bytes) {
        None => Err(PlayerError::DecodeError),
        Some(header) => if decoder_accepts(bytes) {
            Ok((stream_of(bytes), data_is_whole(bytes, header)))
        } else {
            Err(PlayerError::DecodeError)
        },
    }
}

/// The playback policy on a stream: all of its samples, or `DecodeError`
/// where one value stands for no sample.
pub open spec fn strict_outcome(stream: Seq<u32>) -> Result<Seq<i16>, PlayerError> {
    if all_decodable(stream) {
        Ok(strict_samples(stream))
    } else {
        Err(PlayerError::DecodeError)
    }
}

/// The sample buffer of a decoded file for playback: `DecodeError` where
/// the data is not whole, the playback policy on the stream where it is.
pub open spec fn playback_of(stream: Seq<u32>, whole: bool) -> Result<Seq<i16>, PlayerError> {
    if whole {
        strict_outcome(stream)
    } else {
        Err(PlayerError::DecodeError)
    }
}

/// The sample buffer of a file for playback.
pub open spec fn playback_outcome(bytes: Seq<u8>) -> Result<Seq<i16>, PlayerError> {
    match decode_outcome(bytes) {
        Ok((stream, whole)) => playback_of(stream, whole),
        Err(e) => Err(e),
    }
}

/// The sample buffer of a file for display.
pub open spec fn display_outcome(bytes: Seq<u8>) -> Result<Seq<i16>, PlayerError> {
    match decode_outcome(bytes) {
        Ok((stream, _)) => Ok(lenient_samples(stream)),
        Err(e) => Err(e),
    }
}

/// Whether a returned buffer is the given outcome.
pub open spec fn yields(
    r: Result<Vec<i16>, PlayerError>,
    outcome: Result<Seq<i16>, PlayerError>,
) -> bool {
    match r {
        Ok(samples) => outcome == Ok::<Seq<i16>, PlayerError>(samples@),
        Err(e) => outcome == Err::<Seq<i16>, PlayerError>(e),
    }
}

/// Reads the header of a file and decodes its stream of unit-scale values.
/// The bytes are handed to the decoder only where they hold a header of the
/// supported configuration; whatever the decoder then refuses is a
/// `DecodeError` too.
pub fn decode_file(bytes: Vec<u8>) -> (r: Result<Decoded, PlayerError>)
    ensures
        r matches Ok(decoded) ==> decode_outcome(bytes@) == Ok::<(Seq<u32>, bool), PlayerError>(
            (decoded.stream@, decoded.whole),
        ),
        r matches Err(e) ==> decode_outcome(bytes@) == Err::<(Seq<u32>, bool), PlayerError>(e),
{
    match check_header(&bytes) {
        Err(e) => Err(e),
        Ok(header) => {
            let whole: bool = holds_whole_data(&bytes, &header);
            match drain_decoder(bytes) {
                Ok(stream) => Ok(Decoded { stream, whole }),
                Err(_) => Err(PlayerError::DecodeError),
            }
        },
    }
}

/// Reads a stream under the playback policy: every value has to stand for a
/// sample.
pub fn collect_strict(stream: &Vec<u32>) -> (r: Result<Vec<i16>, PlayerError>)
    ensures
        yields(r, strict_outcome(stream@)),
{
    let n: usize = stream.len();
    let mut samples: Vec<i16> = Vec::new();
    let mut i: usize = 0;
    while i < n
        invariant
            i <= n,
            n == stream@.len(),
            samples@.len() == i,
            forall|j: int| 0 <= j < i ==> sample_of(#[trigger] stream@[j]) == Some(samples@[j]),
        decreases n - i,
    {
        match amplitude(stream[i]) {
            Some(sample) => {
                samples.push(sample);
            },
            None => {
                assert(sample_of(stream@[i as int]) is None);
                return Err(PlayerError::DecodeError);
            },
        }
        i = i + 1;
    }
    assert(samples@ =~= strict_samples(stream@));
    Ok(samples)
}

/// Reads a stream under the display policy: a value that stands for no
/// sample is left out.
pub fn collect_lenient(stream: &Vec<u32>) -> (samples: Vec<i16>)
    ensures
        samples@ == lenient_samples(stream@),
{
    let n: usize = stream.len();
    let mut samples: Vec<i16> = Vec::new();
    let mut i: usize = 0;
    while i < n
        invariant
            i <= n,
            n == stream@.len(),
            samples@ == lenient_samples(stream@.take(i as int)),
        decreases n - i,
    {
        proof {
            assert(stream@.take(i + 1).drop_last() =~= stream@.take(i as int));
        }
        match amplitude(stream[i]) {
            Some(sample) => {
                samples.push(sample);
            },
            None => {},
        }
        i = i + 1;
    }
    assert(stream@.take(n as int) =~= stream@);
    samples
}

/// The sample buffer of a decoded file for display: the samples that
/// decoded, in order.
pub fn display_samples(decoded: &Decoded) -> (samples: Vec<i16>)
    ensures
        samples@ == lenient_samples(decoded.stream@),
{
    collect_lenient(&decoded.stream)
}

/// The sample buffer of a decoded file for playback: every sample of the
/// file, or `DecodeError` where one is missing or does not decode.
pub fn playback_samples(decoded: &Decoded) -> (r: Result<Vec<i16>, PlayerError>)
    ensures
        yields(r, playback_of(decoded.stream@, decoded.whole)),
{
    if decoded.whole {
        collect_strict(&decoded.stream)
    } else {
        Err(PlayerError::DecodeError)
    }
}

/// Decodes a file for playback: the header has to be of the supported
/// configuration, the sample data whole, and every sample has to decode.
pub fn samples_for_playback(bytes: Vec<u8>) -> (r: Result<Vec<i16>, PlayerError>)
    ensures
        yields(r, playback_outcome(bytes@)),
{
    match decode_file(bytes) {
        Ok(decoded) => playback_samples(&decoded),
        Err(e) => Err(e),
    }
}

/// Decodes a file for display: the header has to be of the supported
/// configuration, and the samples that do not decode are left out.
pub fn samples_for_display(bytes: Vec<u8>) -> (r: Result<Vec<i16>, PlayerError>)
    ensures
        yields(r, display_outcome(bytes@)),
{
    match decode_file(bytes) {
        Ok(decoded) => Ok(display_samples(&decoded)),
        Err(e) => Err(e),
    }
}

/// Decoding the same bytes twice gives the same outcome: two results that
/// meet the contract of `samples_for_playback`, or two that meet the one of
/// `samples_for_display`, are both buffers with the same samples or both
/// the same error.
pub proof fn lemma_decoding_is_deterministic(
    bytes: Seq<u8>,
    first: Result<Vec<i16>, PlayerError>,
    second: Result<Vec<i16>, PlayerError>,
)
    requires
        (yields(first, playback_outcome(bytes)) && yields(second, playback_outcome(bytes))) || (
        yields(first, display_outcome(bytes)) && yields(second, display_outcome(bytes))),
    ensures
        match (first, second) {
            (Ok(a), Ok(b)) => a@ == b@,
            (Err(a), Err(b)) => a == b,
            _ => false,
        },
{
}

/// Where every value of a stream stands for a sample, both policies give
/// the same buffer.
pub proof fn lemma_policies_agree(stream: Seq<u32>)
    requires
        all_decodable(stream),
    ensures
        lenient_samples(stream) == strict_samples(stream),
    decreases stream.len(),
{
    if stream.len() > 0 {
        let before = stream.drop_last();
        assert forall|i: int| 0 <= i < before.len() implies (#[trigger] sample_of(before[i]))
            is Some by {
            assert(before[i] == stream[i]);
            assert(sample_of(stream[i]) is Some);
        }
        lemma_policies_agree(before);
        assert(sample_of(stream[stream.len() - 1]) is Some);
    }
    assert(lenient_samples(stream) =~= strict_samples(stream));
}

/// The display policy leaves values out and adds none: its buffer is never
/// longer than the stream.
pub proof fn lemma_lenient_is_no_longer(stream: Seq<u32>)
    ensures
        lenient_samples(stream).len() <= stream.len(),
    decreases stream.len(),
{
    if stream.len() > 0 {
        lemma_lenient_is_no_longer(stream.drop_last());
    }
}

/// The unit-scale values of a buffer read back under either policy are the
/// buffer: nothing is lost between a sample and its value.
pub proof fn lemma_frames_round_trip(samples: Seq<i16>)
    ensures
        all_decodable(frames_of(samples)),
        strict_samples(frames_of(samples)) == samples,
        lenient_samples(frames_of(samples)) == samples,
{
    let frames = frames_of(samples);
    assert forall|i: int| 0 <= i < frames.len() implies (#[trigger] sample_of(frames[i])) == Some(
        samples[i],
    ) by {
        lemma_unit_pattern_round_trip(samples[i] as int);
    }
    assert(strict_samples(frames) =~= samples);
    lemma_policies_agree(frames);
}

/// A file that the decoder takes displays the samples that it holds: every
/// whole sample of its declared data that is present, in file order.
pub proof fn lemma_display_holds_the_file(bytes: Seq<u8>, header: WavHeader)
    requires
        header_of(bytes) == Some(header),
        decoder_accepts(bytes),
    ensures
        display_outcome(bytes) == Ok::<Seq<i16>, PlayerError>(samples_of(bytes, header)),
        samples_of(bytes, header).len() == samples_present(bytes, header),
{
    lemma_frames_round_trip(samples_of(bytes, header));
}

/// A file that the decoder takes plays exactly where its sample data is
/// whole, and then with every sample that its header declares: half as many
/// samples as the declared data has bytes, in file order.
pub proof fn lemma_playback_holds_the_file(bytes: Seq<u8>, header: WavHeader)
    requires
        header_of(bytes) == Some(header),
        decoder_accepts(bytes),
    ensures
        data_is_whole(bytes, header) ==> playback_outcome(bytes) == Ok::<Seq<i16>, PlayerError>(
            samples_of(bytes, header),
        ) && samples_of(bytes, header).len() * 2 == header.data_len,
        !data_is_whole(bytes, header) ==> playback_outcome(bytes) == Err::<
            Seq<i16>,
            PlayerError,
        >(PlayerError::DecodeError),
{
    lemma_frames_round_trip(samples_of(bytes, header));
}

/// A file that plays also displays, with the same samples.
pub proof fn lemma_playable_is_displayable(bytes: Seq<u8>)
    requires
        playback_outcome(bytes) is Ok,
    ensures
        display_outcome(bytes) == playback_outcome(bytes),
{
    lemma_frames_round_trip(samples_of(bytes, header_of(bytes).unwrap()));
}

} // verus!
