//! The ways in which an operation of the player can fail.

use vstd::prelude::*;

verus! {

/// Why an operation failed.
#[derive(Clone, Copy, Debug, PartialEq, Eq, Structural)]
pub enum PlayerError {
    /// The input path names no file.
    NotFound,
    /// The container is malformed or not the one supported configuration, or
    /// a sample of it could not be decoded where every sample is needed.
    DecodeError,
    /// No audio output device could be opened.
    DeviceUnavailable,
    /// A plot was asked of a buffer without samples.
    EmptySignal,
    /// A gain was set on a band that the table does not have.
    InvalidBandIndex,
}

/// The text shown to the user for each kind of failure.
pub open spec fn message_of(error: PlayerError) -> Seq<char> {
    match error {
        PlayerError::NotFound => "file not found"@,
        PlayerError::DecodeError => "the audio file could not be decoded"@,
        PlayerError::DeviceUnavailable => "no audio output device is available"@,
        PlayerError::EmptySignal => "the signal holds no samples"@,
        PlayerError::InvalidBandIndex => "no such equalizer band"@,
    }
}

impl PlayerError {
    /// A short text for the user.
    pub fn message(&self) -> (text: &'static str)
        ensures
            text@ == message_of(*self),
    {
        match self {
            PlayerError::NotFound => "file not found",
            PlayerError::DecodeError => "the audio file could not be decoded",
            PlayerError::DeviceUnavailable => "no audio output device is available",
            PlayerError::EmptySignal => "the signal holds no samples",
            PlayerError::InvalidBandIndex => "no such equalizer band",
        }
    }
}

} // verus!
