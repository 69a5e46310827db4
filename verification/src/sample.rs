//! Samples: signed 16-bit amplitudes, and how wider values are brought back
//! into their range.

use vstd::prelude::*;
use vstd::arithmetic::div_mod::{lemma_div_by_multiple, lemma_mod_multiples_basic};
use vstd::arithmetic::power2::{lemma2_to64, lemma_pow2_adds, lemma_pow2_pos, pow2};
use crate::binary32::{
    decode, encode_normal, is_whole_shift, lemma_normal_pattern_value, lemma_pow2_monotonic,
    lemma_top_bit_bounds, normal_pattern, power_of_two, shifted_floor, shifted_floor_capped,
    shifts_to_whole, top_bit, top_bit_of, value_of, Value,
};

verus! {

/// The smallest amplitude a sample can hold.
pub const SAMPLE_MIN: i16 = -32768;

/// The largest amplitude a sample can hold.
pub const SAMPLE_MAX: i16 = 32767;

/// Whether a whole number is an amplitude that a sample can hold.
pub open spec fn in_sample_range(v: int) -> bool {
    -32768 <= v <= 32767
}

/// A whole number brought into the range of a sample: a value beyond either
/// end is replaced by that end.
pub open spec fn saturate(v: int) -> int {
    if v < -32768 {
        -32768
    } else if v > 32767 {
        32767
    } else {
        v
    }
}

/// A magnitude with its sign.
pub open spec fn signed(negative: bool, magnitude: nat) -> int {
    if negative {
        -(magnitude as int)
    } else {
        magnitude as int
    }
}

/// The magnitude of an amplitude.
pub open spec fn magnitude_of(v: int) -> nat {
    if v < 0 {
        (-v) as nat
    } else {
        v as nat
    }
}

/// Brings a signed magnitude into the range of a sample.
pub fn saturate_signed(negative: bool, magnitude: u32) -> (r: i16)
    ensures
        r as int == saturate(signed(negative, magnitude as nat)),
{
    if negative {
        if magnitude >= 32768 {
            -32768i16
        } else {
            -(magnitude as i16)
        }
    } else {
        if magnitude >= 32767 {
            32767i16
        } else {
            magnitude as i16
        }
    }
}

/// The magnitude of a sample.
pub fn magnitude(sample: i16) -> (m: u32)
    ensures
        m as nat == magnitude_of(sample as int),
        m <= 32768,
{
    if sample < 0 {
        (-(sample as i32)) as u32
    } else {
        sample as u32
    }
}

/// The amplitude that a decoded value stands for.
///
/// A decoder hands out each sample on the unit scale, as a single-precision
/// value `amplitude / 32768`. A value is a sample of 16 bits where it is a
/// whole number of 32768ths from -32768 to 32767; any other value, an
/// infinity and a not-a-number stand for no sample.
pub open spec fn amplitude_of(bits: u32) -> Option<int> {
    match value_of(bits) {
        Value::Finite { negative, significand, exponent } => {
            let v = signed(negative, shifted_floor(significand as nat, exponent + 15));
            if shifts_to_whole(significand as nat, exponent + 15) && in_sample_range(v) {
                Some(v)
            } else {
                None
            }
        },
        _ => None,
    }
}

/// The sample that a decoded value stands for, as a machine integer.
pub open spec fn sample_of(bits: u32) -> Option<i16> {
    match amplitude_of(bits) {
        Some(v) => Some(v as i16),
        None => None,
    }
}

/// Reads a decoded unit-scale value as a sample, where it is one.
pub fn amplitude(bits: u32) -> (r: Option<i16>)
    ensures
        r == sample_of(bits),
{
    match decode(bits) {
        Value::Finite { negative, significand, exponent } => {
            if !is_whole_shift(significand, exponent + 15) {
                return None;
            }
            let whole: u32 = shifted_floor_capped(significand, exponent + 15);
            if negative {
                if whole <= 32768 {
                    Some((-(whole as i32)) as i16)
                } else {
                    None
                }
            } else {
                if whole <= 32767 {
                    Some(whole as i16)
                } else {
                    None
                }
            }
        },
        _ => None,
    }
}

/// The bit pattern of `sample / 32768`, the value that stands for a sample
/// on the unit scale. The amplitude 0 is the positive zero.
pub open spec fn unit_pattern_of(sample: int) -> u32 {
    if sample == 0 {
        0
    } else {
        let a = magnitude_of(sample);
        let j = top_bit(a);
        normal_pattern(sample < 0, (a * pow2((23 - j) as nat)) as u32, (j - 38) as i32)
    }
}

/// Reading the unit-scale value of a sample gives the sample back.
pub proof fn lemma_unit_pattern_round_trip(sample: int)
    requires
        in_sample_range(sample),
    ensures
        amplitude_of(unit_pattern_of(sample)) == Some(sample),
{
    lemma2_to64();
    if sample == 0 {
        lemma_pow2_pos(134);
    } else {
        let a = magnitude_of(sample);
        let j = top_bit(a);
        lemma_top_bit_bounds(a);
        if j > 15 {
            lemma_pow2_monotonic(16, j);
            assert(false);
        }
        let rest = (23 - j) as nat;
        let d = pow2(rest);
        lemma_pow2_pos(rest);
        lemma_pow2_adds(j, rest);
        lemma_pow2_adds(j + 1, rest);
        let significand = a * d;
        assert(0x80_0000 <= significand < 0x100_0000) by (nonlinear_arith)
            requires
                significand == a * d,
                pow2(j) <= a < pow2(j + 1),
                pow2(j) * d == 0x80_0000,
                pow2(j + 1) * d == 0x100_0000,
                d > 0,
        ;
        lemma_normal_pattern_value(sample < 0, significand as u32, (j - 38) as i32);
        lemma_div_by_multiple(a as int, d as int);
        lemma_mod_multiples_basic(a as int, d as int);
    }
}

/// Puts a sample on the unit scale: the bit pattern of `sample / 32768`.
pub fn unit_pattern(sample: i16) -> (bits: u32)
    ensures
        bits == unit_pattern_of(sample as int),
        sample_of(bits) == Some(sample),
{
    proof {
        lemma_unit_pattern_round_trip(sample as int);
    }
    if sample == 0 {
        return 0;
    }
    let a: u32 = magnitude(sample);
    let j: u32 = top_bit_of(a);
    proof {
        lemma2_to64();
        lemma_top_bit_bounds(a as nat);
        if j > 15 {
            lemma_pow2_monotonic(16, j as nat);
            assert(false);
        }
        lemma_pow2_adds(j as nat, (23 - j) as nat);
        lemma_pow2_adds((j + 1) as nat, (23 - j) as nat);
    }
    let d: u64 = power_of_two(23 - j);
    assert(0x80_0000 <= a * d < 0x100_0000) by (nonlinear_arith)
        requires
            pow2(j as nat) <= a < pow2((j + 1) as nat),
            pow2(j as nat) * d == 0x80_0000,
            pow2((j + 1) as nat) * d == 0x100_0000,
            d > 0,
    ;
    let significand: u32 = (a as u64 * d) as u32;
    encode_normal(sample < 0, significand, j as i32 - 38)
}

} // verus!
