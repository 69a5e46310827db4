//! What is handed to the audio output: a single-channel stream at 44100
//! samples per second, each sample on the unit scale.

use vstd::prelude::*;
use crate::decoder::{frames_of, playback_outcome, samples_for_playback};
use crate::equalizer::{applied, Equalizer};
use crate::error::PlayerError;
use crate::sample::{unit_pattern, unit_pattern_of};

verus! {

/// The channel count of the output stream.
pub const PLAYBACK_CHANNELS: u16 = 1;

/// The sample rate of the output stream, in samples per second.
pub const PLAYBACK_RATE: u32 = 44100;

/// A finished stream for the output device. `frames` holds the bit pattern
/// of `sample / 32768` for each sample, in playing order.
#[derive(Debug)]
pub struct PlaybackStream {
    pub channels: u16,
    pub sample_rate: u32,
    pub frames: Vec<u32>,
}

/// Whether a stream is the output stream of a sample buffer.
pub open spec fn is_stream_of(stream: PlaybackStream, samples: Seq<i16>) -> bool {
    &&& stream.channels == 1
    &&& stream.sample_rate == 44100
    &&& stream.frames@ == frames_of(samples)
}

/// Makes the output stream of a sample buffer.
pub fn playback_stream(samples: &Vec<i16>) -> (stream: PlaybackStream)
    ensures
        is_stream_of(stream, samples@),
{
    let n: usize = samples.len();
    let mut frames: Vec<u32> = Vec::new();
    let mut i: usize = 0;
    while i < n
        invariant
            i <= n,
            n == samples@.len(),
            frames@.len() == i,
            forall|j: int| 0 <= j < i ==> frames@[j] == unit_pattern_of(samples@[j] as int),
        decreases n - i,
    {
        frames.push(unit_pattern(samples[i]));
        i = i + 1;
    }
    assert(frames@ =~= frames_of(samples@));
    PlaybackStream { channels: PLAYBACK_CHANNELS, sample_rate: PLAYBACK_RATE, frames }
}

/// What the play action yields for the bytes of a file and a gain table:
/// the decoded buffer with the gains applied, or the decode error.
pub open spec fn play_outcome(bytes: Seq<u8>, gains: Seq<crate::equalizer::Gain>) -> Result<
    Seq<i16>,
    PlayerError,
> {
    match playback_outcome(bytes) {
        Ok(samples) => Ok(applied(gains, samples)),
        Err(e) => Err(e),
    }
}

/// The play action between reading the file and driving the device: decodes
/// the bytes for playback, applies the gain table and makes the output
/// stream.
pub fn prepare_playback(bytes: Vec<u8>, equalizer: &Equalizer) -> (r: Result<
    PlaybackStream,
    PlayerError,
>)
    requires
        equalizer@.len() > 0,
    ensures
        r matches Ok(stream) ==> play_outcome(bytes@, equalizer@) is Ok && is_stream_of(
            stream,
            play_outcome(bytes@, equalizer@).unwrap(),
        ),
        r matches Err(e) ==> play_outcome(bytes@, equalizer@) == Err::<Seq<i16>, PlayerError>(e),
{
    match samples_for_playback(bytes) {
        Ok(samples) => {
            let mut samples = samples;
            equalizer.apply(&mut samples);
            Ok(playback_stream(&samples))
        },
        Err(e) => Err(e),
    }
}

/// Playback without the equalizer: decodes the bytes for playback and makes
/// the output stream of the samples as they are in the file.
pub fn prepare_direct(bytes: Vec<u8>) -> (r: Result<PlaybackStream, PlayerError>)
    ensures
        r matches Ok(stream) ==> playback_outcome(bytes@) is Ok && is_stream_of(
            stream,
            playback_outcome(bytes@).unwrap(),
        ),
        r matches Err(e) ==> playback_outcome(bytes@) == Err::<Seq<i16>, PlayerError>(e),
{
    match samples_for_playback(bytes) {
        Ok(samples) => Ok(playback_stream(&samples)),
        Err(e) => Err(e),
    }
}

} // verus!
