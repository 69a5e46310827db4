//! The sample-processing core of a small audio player: a positional gain
//! equalizer over 16-bit samples, the checks and collection policies around
//! decoding a waveform file, and the plan of the amplitude plot.

pub mod binary32;
pub mod error;
pub mod sample;
pub mod equalizer;
pub mod wav;
pub mod decoder;
pub mod playback;
pub mod waveform;
pub mod prompt;
pub mod session;
