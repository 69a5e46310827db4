use media_player::decoder::{collect_strict, samples_for_playback};
use media_player::equalizer::{Equalizer, Gain};
use media_player::error::PlayerError;
use media_player::playback::{
    playback_stream, prepare_direct, prepare_playback, PLAYBACK_CHANNELS, PLAYBACK_RATE,
};

fn gain(value: f32) -> Gain {
    Gain::from_bits(value.to_bits())
}

fn wav(samples: &[i16]) -> Vec<u8> {
    let data_len = (samples.len() * 2) as u32;
    let mut bytes = Vec::new();
    bytes.extend_from_slice(b"RIFF");
    bytes.extend_from_slice(&(36 + data_len).to_le_bytes());
    bytes.extend_from_slice(b"WAVEfmt ");
    bytes.extend_from_slice(&16u32.to_le_bytes());
    bytes.extend_from_slice(&1u16.to_le_bytes());
    bytes.extend_from_slice(&1u16.to_le_bytes());
    bytes.extend_from_slice(&44100u32.to_le_bytes());
    bytes.extend_from_slice(&88200u32.to_le_bytes());
    bytes.extend_from_slice(&2u16.to_le_bytes());
    bytes.extend_from_slice(&16u16.to_le_bytes());
    bytes.extend_from_slice(b"data");
    bytes.extend_from_slice(&data_len.to_le_bytes());
    for sample in samples {
        bytes.extend_from_slice(&sample.to_le_bytes());
    }
    bytes
}

fn sine(len: usize, peak: f64) -> Vec<i16> {
    (0..len)
        .map(|i| {
            let phase = 2.0 * std::f64::consts::PI * 440.0 * (i as f64) / 44100.0;
            (phase.sin() * peak) as i16
        })
        .collect()
}

fn with_all_bands(value: f32) -> Equalizer {
    let mut eq = Equalizer::new(5);
    for band in 0..5 {
        eq.set_gain(band, gain(value)).unwrap();
    }
    eq
}

#[test]
fn the_output_stream_is_mono_at_the_fixed_rate() {
    let stream = playback_stream(&vec![0, 16384, -32768, 32767]);
    assert_eq!(PLAYBACK_CHANNELS, 1);
    assert_eq!(PLAYBACK_RATE, 44100);
    assert_eq!(stream.channels, 1);
    assert_eq!(stream.sample_rate, 44100);
    let values: Vec<f32> = stream.frames.iter().map(|&bits| f32::from_bits(bits)).collect();
    assert_eq!(values, vec![0.0, 0.5, -1.0, 32767.0 / 32768.0]);
    assert!(playback_stream(&Vec::new()).frames.is_empty());
}

#[test]
fn the_frames_of_a_buffer_read_back_as_the_buffer() {
    let samples: Vec<i16> = (i16::MIN..=i16::MAX).collect();
    let stream = playback_stream(&samples);
    assert_eq!(stream.frames.len(), samples.len());
    assert_eq!(collect_strict(&stream.frames), Ok(samples));
}

#[test]
fn doubling_then_halving_restores_a_sine_of_one_second() {
    let source = sine(44100, 16000.0);
    assert_eq!(source.len(), 44100);
    let mut samples = source.clone();
    with_all_bands(2.0).apply(&mut samples);
    for i in 0..samples.len() {
        assert_eq!(samples[i] as i32, 2 * source[i] as i32);
    }
    with_all_bands(0.5).apply(&mut samples);
    for i in 0..samples.len() {
        assert!((samples[i] as i32 - source[i] as i32).abs() <= 1);
    }
    assert_eq!(samples, source);
}

#[test]
fn doubling_a_loud_sine_clips_and_never_wraps() {
    let source = sine(44100, 32767.0);
    let mut samples = source.clone();
    with_all_bands(2.0).apply(&mut samples);
    for i in 0..samples.len() {
        let exact = 2 * source[i] as i32;
        assert_eq!(samples[i] as i32, exact.clamp(-32768, 32767));
        assert!(source[i] == 0 || (samples[i] < 0) == (source[i] < 0));
    }
    with_all_bands(0.5).apply(&mut samples);
    for i in 0..samples.len() {
        let expected = if source[i] > 16383 {
            16383
        } else if source[i] < -16384 {
            -16384
        } else {
            source[i]
        };
        assert_eq!(samples[i], expected);
    }
}

#[test]
fn the_play_action_decodes_applies_and_buffers() {
    let source = vec![100i16, 200, 300, 400, 500, 600, -700];
    let mut eq = Equalizer::new(5);
    eq.set_gain(0, gain(2.0)).unwrap();
    eq.set_gain(4, gain(0.0)).unwrap();
    let stream = prepare_playback(wav(&source), &eq).unwrap();
    assert_eq!(stream.channels, 1);
    assert_eq!(stream.sample_rate, 44100);
    assert_eq!(collect_strict(&stream.frames), Ok(vec![200, 200, 300, 400, 0, 1200, -700]));
}

#[test]
fn the_play_action_reports_a_bad_file() {
    let eq = Equalizer::new(5);
    assert_eq!(prepare_playback(Vec::new(), &eq).err(), Some(PlayerError::DecodeError));
    let mut stereo = wav(&[1, 2, 3, 4]);
    stereo[22] = 2;
    assert_eq!(prepare_playback(stereo.clone(), &eq).err(), Some(PlayerError::DecodeError));
    assert_eq!(prepare_direct(stereo).err(), Some(PlayerError::DecodeError));
}

#[test]
fn direct_playback_streams_the_file_as_it_is() {
    let source = sine(44100 * 3, 25000.0);
    let stream = prepare_direct(wav(&source)).unwrap();
    assert_eq!(stream.channels, 1);
    assert_eq!(stream.sample_rate, 44100);
    assert_eq!(stream.frames.len(), 132300);
    assert_eq!(collect_strict(&stream.frames), Ok(source.clone()));
    assert_eq!(samples_for_playback(wav(&source)), Ok(source));
}
