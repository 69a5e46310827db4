use media_player::equalizer::{scale, Equalizer, Gain, DOUBLE_BITS, HALF_BITS, UNITY_BITS};
use media_player::error::PlayerError;

fn gain(value: f32) -> Gain {
    Gain::from_bits(value.to_bits())
}

/// What single-precision hardware arithmetic gives for one sample.
fn hardware(sample: i16, value: f32) -> i16 {
    (sample as f32 * value) as i16
}

#[test]
fn new_table_holds_unit_gains() {
    let eq = Equalizer::new(5);
    assert_eq!(eq.band_count(), 5);
    for band in 0..5 {
        assert_eq!(eq.gain(band), Ok(Gain::from_bits(1.0f32.to_bits())));
    }
    assert_eq!(eq.gain(5), Err(PlayerError::InvalidBandIndex));
}

#[test]
fn named_patterns_are_the_values_they_stand_for() {
    assert_eq!(UNITY_BITS, 1.0f32.to_bits());
    assert_eq!(DOUBLE_BITS, 2.0f32.to_bits());
    assert_eq!(HALF_BITS, 0.5f32.to_bits());
    assert_eq!(Gain::unity().to_bits(), 1.0f32.to_bits());
    assert_eq!(Gain::silence().to_bits(), 0.0f32.to_bits());
}

#[test]
fn set_gain_replaces_one_band() {
    let mut eq = Equalizer::new(3);
    assert_eq!(eq.set_gain(1, gain(0.25)), Ok(()));
    assert_eq!(eq.gain(0), Ok(gain(1.0)));
    assert_eq!(eq.gain(1), Ok(gain(0.25)));
    assert_eq!(eq.gain(2), Ok(gain(1.0)));
}

#[test]
fn set_gain_outside_the_table_is_refused() {
    let mut eq = Equalizer::new(3);
    assert_eq!(eq.set_gain(3, gain(0.5)), Err(PlayerError::InvalidBandIndex));
    assert_eq!(eq.set_gain(usize::MAX, gain(0.5)), Err(PlayerError::InvalidBandIndex));
    for band in 0..3 {
        assert_eq!(eq.gain(band), Ok(gain(1.0)));
    }
    let mut none = Equalizer::new(0);
    assert_eq!(none.set_gain(0, gain(0.5)), Err(PlayerError::InvalidBandIndex));
}

#[test]
fn set_gain_takes_values_beyond_the_nominal_range() {
    let mut eq = Equalizer::new(1);
    assert_eq!(eq.set_gain(0, gain(3.5)), Ok(()));
    assert_eq!(eq.gain(0), Ok(gain(3.5)));
    let mut samples = vec![100i16, -100, 20000];
    eq.apply(&mut samples);
    assert_eq!(samples, vec![350, -350, 32767]);
}

#[test]
fn unit_gains_leave_every_sample() {
    let eq = Equalizer::new(5);
    let source: Vec<i16> = (i16::MIN..=i16::MAX).collect();
    let mut samples = source.clone();
    eq.apply(&mut samples);
    assert_eq!(samples, source);
}

#[test]
fn apply_uses_the_gain_of_each_position() {
    let mut eq = Equalizer::new(3);
    eq.set_gain(0, gain(2.0)).unwrap();
    eq.set_gain(1, gain(0.5)).unwrap();
    eq.set_gain(2, gain(-1.0)).unwrap();
    let mut samples = vec![10i16, 10, 10, 7, 7, 7, -3, -3];
    eq.apply(&mut samples);
    assert_eq!(samples, vec![20, 5, -10, 14, 3, -7, -6, -1]);
}

#[test]
fn apply_on_the_empty_buffer_does_nothing() {
    let mut samples: Vec<i16> = Vec::new();
    Equalizer::new(5).apply(&mut samples);
    assert!(samples.is_empty());
    Equalizer::new(0).apply(&mut samples);
    assert!(samples.is_empty());
}

#[test]
fn changing_one_band_changes_only_its_positions() {
    let source: Vec<i16> = (0..1000).map(|i| (i * 37 % 2001 - 1000) as i16).collect();
    let mut eq = Equalizer::new(5);
    let mut before = source.clone();
    eq.apply(&mut before);
    eq.set_gain(3, gain(1.75)).unwrap();
    let mut after = source.clone();
    eq.apply(&mut after);
    for i in 0..source.len() {
        if i % 5 == 3 {
            assert_eq!(after[i], hardware(source[i], 1.75));
        } else {
            assert_eq!(after[i], before[i]);
        }
    }
}

#[test]
fn zero_gain_silences_its_band() {
    let mut eq = Equalizer::new(4);
    eq.set_gain(2, gain(0.0)).unwrap();
    let source: Vec<i16> = (0..400).map(|i| (i * 163 - 32000) as i16).collect();
    let mut samples = source.clone();
    eq.apply(&mut samples);
    for i in 0..samples.len() {
        if i % 4 == 2 {
            assert_eq!(samples[i], 0);
        } else {
            assert_eq!(samples[i], source[i]);
        }
    }
    assert_eq!(scale(i16::MIN, gain(-0.0)), 0);
    assert_eq!(scale(i16::MAX, gain(0.0)), 0);
}

#[test]
fn doubling_saturates_and_never_wraps() {
    assert_eq!(scale(16383, gain(2.0)), 32766);
    assert_eq!(scale(16384, gain(2.0)), 32767);
    assert_eq!(scale(30000, gain(2.0)), 32767);
    assert_eq!(scale(-16384, gain(2.0)), -32768);
    assert_eq!(scale(-16385, gain(2.0)), -32768);
    assert_eq!(scale(-30000, gain(2.0)), -32768);
    assert_eq!(scale(i16::MIN, gain(-1.0)), 32767);
}

#[test]
fn halving_truncates_toward_zero() {
    assert_eq!(scale(7, gain(0.5)), 3);
    assert_eq!(scale(-7, gain(0.5)), -3);
    assert_eq!(scale(1, gain(0.5)), 0);
    assert_eq!(scale(-1, gain(0.5)), 0);
    assert_eq!(scale(i16::MIN, gain(0.5)), -16384);
}

#[test]
fn the_product_is_rounded_before_it_is_truncated() {
    // 25 * 0.04 is just below 1 as an exact product and exactly 1 in single
    // precision.
    assert_eq!(scale(25, gain(0.04)), 1);
    assert_eq!(scale(-25, gain(0.04)), -1);
    assert_eq!(scale(10, gain(0.1)), 1);
    assert_eq!(scale(3, gain(0.33)), 0);
}

#[test]
fn gains_that_are_no_numbers() {
    for sample in [i16::MIN, -1, 0, 1, i16::MAX] {
        assert_eq!(scale(sample, gain(f32::NAN)), 0);
    }
    assert_eq!(scale(0, gain(f32::INFINITY)), 0);
    assert_eq!(scale(0, gain(f32::NEG_INFINITY)), 0);
    assert_eq!(scale(1, gain(f32::INFINITY)), 32767);
    assert_eq!(scale(-1, gain(f32::INFINITY)), -32768);
    assert_eq!(scale(1, gain(f32::NEG_INFINITY)), -32768);
    assert_eq!(scale(-1, gain(f32::NEG_INFINITY)), 32767);
}

#[test]
fn scale_agrees_with_single_precision_arithmetic_on_chosen_gains() {
    let gains = [
        0.0f32, -0.0, 1.0, -1.0, 2.0, 0.5, 0.04, 0.1, 0.25, 0.3, 0.33, 0.7, 0.9, 0.99, 0.999_999_94,
        1.000_000_1, 1.1, 1.25, 1.5, 1.75, 1.9, 1.99, 1.999_999_9, 3.0, 10.0, 1000.5, 40000.0,
        1.0e-3, 3.0517578e-5, 3.05e-5, 1.0e-10, 1.0e-38, 1.0e-40, 1.0e-45, 1.0e30, f32::MAX,
        f32::MIN, f32::MIN_POSITIVE, f32::EPSILON, f32::INFINITY, f32::NEG_INFINITY, f32::NAN,
        -0.04, -1.9, -1.0e-40,
    ];
    for value in gains {
        for sample in i16::MIN..=i16::MAX {
            assert_eq!(
                scale(sample, gain(value)),
                hardware(sample, value),
                "sample {} gain {:e}",
                sample,
                value
            );
        }
    }
}

#[test]
fn scale_agrees_with_single_precision_arithmetic_on_scattered_patterns() {
    let mut state: u64 = 0x2545_F491_4F6C_DD1D;
    for _ in 0..200_000 {
        state = state.wrapping_mul(6364136223846793005).wrapping_add(1442695040888963407);
        let bits = (state >> 32) as u32;
        state = state.wrapping_mul(6364136223846793005).wrapping_add(1442695040888963407);
        let sample = (state >> 48) as u16 as i16;
        let value = f32::from_bits(bits);
        assert_eq!(
            scale(sample, Gain::from_bits(bits)),
            hardware(sample, value),
            "sample {} gain bits {:#x}",
            sample,
            bits
        );
    }
}

#[test]
fn scale_agrees_with_single_precision_arithmetic_near_one() {
    // Gains in the slider's range, where the product of a small sample and a
    // gain often lies within half a unit in the last place of a whole number.
    for step in 0..=2000u32 {
        let value = step as f32 / 1000.0;
        for sample in -2000i16..=2000 {
            assert_eq!(scale(sample, gain(value)), hardware(sample, value));
        }
    }
}

#[test]
fn a_gain_that_is_not_negative_keeps_the_order_of_amplitudes() {
    let gains = [
        0.0f32, 1.0e-40, 1.0e-5, 0.04, 0.1, 0.33, 0.5, 0.999_999_94, 1.0, 1.000_000_1, 1.5, 2.0,
        3.0, 1000.5, 1.0e30, f32::MAX, f32::INFINITY,
    ];
    for value in gains {
        let mut last = scale(i16::MIN, gain(value));
        for sample in i16::MIN..=i16::MAX {
            let next = scale(sample, gain(value));
            assert!(last <= next, "sample {} gain {:e}", sample, value);
            assert!(sample == 0 || next == 0 || (next < 0) == (sample < 0));
            last = next;
        }
    }
}
