//! The gain table: one multiplier per band, applied to a sample buffer by
//! position. The sample at position `i` belongs to band `i mod band_count`;
//! a band is a stride through the buffer, not a range of frequencies.

use vstd::prelude::*;
use vstd::arithmetic::power2::lemma2_to64;
use crate::binary32::{
    decode, lemma_power_of_two_product, lemma_rounded_floor_monotonic,
    lemma_rounded_floor_of_zero, rounded_floor, rounded_floor_capped, shifted_floor, sign_of,
    value_of, Value,
};
use crate::error::PlayerError;
use crate::sample::{magnitude, magnitude_of, saturate, saturate_signed, signed};

verus! {

/// A gain multiplier: a single-precision value, held by its bit pattern.
#[derive(Clone, Copy, Debug, PartialEq, Eq, Structural)]
pub struct Gain {
    pub bits: u32,
}

/// The pattern of the multiplier 0.
pub const SILENCE_BITS: u32 = 0;

/// The pattern of the multiplier 1/2.
pub const HALF_BITS: u32 = 0x3F00_0000;

/// The pattern of the multiplier 1.
pub const UNITY_BITS: u32 = 0x3F80_0000;

/// The pattern of the multiplier 2.
pub const DOUBLE_BITS: u32 = 0x4000_0000;

impl Gain {
    /// The gain with the given bit pattern.
    pub fn from_bits(bits: u32) -> (g: Gain)
        ensures
            g.bits == bits,
    {
        Gain { bits }
    }

    /// The bit pattern of this gain.
    pub fn to_bits(&self) -> (bits: u32)
        ensures
            bits == self.bits,
    {
        self.bits
    }

    /// The multiplier 1, which leaves every sample as it is.
    pub fn unity() -> (g: Gain)
        ensures
            g.bits == UNITY_BITS,
    {
        Gain { bits: UNITY_BITS }
    }

    /// The multiplier 0, which silences every sample.
    pub fn silence() -> (g: Gain)
        ensures
            g.bits == SILENCE_BITS,
    {
        Gain { bits: SILENCE_BITS }
    }
}

/// A sample multiplied by a gain.
///
/// The product is formed as single-precision arithmetic forms it: the exact
/// product of the amplitude and the gain is rounded to 24 significant bits,
/// ties to even. Its fraction is then dropped (truncation toward zero) and
/// the result is held at the ends of the sample range. A product beyond the
/// largest finite single-precision value is an infinity there and a large
/// number here; both end at the same end of the range. A gain that is not a
/// number yields 0, and so does an infinite gain on the amplitude 0.
pub open spec fn scaled(sample: int, gain: u32) -> int {
    match value_of(gain) {
        Value::Nan => 0,
        Value::Infinite { negative } => if sample == 0 {
            0
        } else if (sample < 0) != negative {
            -32768
        } else {
            32767
        },
        Value::Finite { negative, significand, exponent } => saturate(
            signed(
                (sample < 0) != negative,
                rounded_floor(magnitude_of(sample) * (significand as nat), exponent as int),
            ),
        ),
    }
}

/// Multiplies one sample by a gain.
pub fn scale(sample: i16, gain: Gain) -> (r: i16)
    ensures
        r as int == scaled(sample as int, gain.bits),
{
    match decode(gain.bits) {
        Value::Nan => 0,
        Value::Infinite { negative } => {
            if sample == 0 {
                0
            } else if (sample < 0) != negative {
                -32768
            } else {
                32767
            }
        },
        Value::Finite { negative, significand, exponent } => {
            let a: u32 = magnitude(sample);
            assert(a * significand <= 32768 * 0x100_0000) by (nonlinear_arith)
                requires
                    a <= 32768,
                    significand <= 0x100_0000,
            ;
            let product: u64 = a as u64 * significand as u64;
            let whole: u32 = rounded_floor_capped(product, exponent);
            saturate_signed((sample < 0) != negative, whole)
        },
    }
}

/// A sample buffer after a gain table has been applied to it: each sample
/// multiplied by the gain of its band.
pub open spec fn applied(gains: Seq<Gain>, samples: Seq<i16>) -> Seq<i16> {
    Seq::new(
        samples.len(),
        |i: int| scaled(samples[i] as int, gains[i % (gains.len() as int)].bits) as i16,
    )
}

/// A table of gains, one per band. The number of bands is fixed when the
/// table is made.
pub struct Equalizer {
    gains: Vec<Gain>,
}

impl View for Equalizer {
    type V = Seq<Gain>;

    closed spec fn view(&self) -> Seq<Gain> {
        self.gains@
    }
}

impl Equalizer {
    /// A table of `band_count` gains, each of them 1.
    pub fn new(band_count: usize) -> (eq: Equalizer)
        ensures
            eq@.len() == band_count,
            forall|b: int| 0 <= b < band_count ==> (#[trigger] eq@[b]).bits == UNITY_BITS,
    {
        let mut gains: Vec<Gain> = Vec::new();
        let mut b: usize = 0;
        while b < band_count
            invariant
                b <= band_count,
                gains@.len() == b,
                forall|j: int| 0 <= j < b ==> (#[trigger] gains@[j]).bits == UNITY_BITS,
            decreases band_count - b,
        {
            gains.push(Gain::unity());
            b = b + 1;
        }
        Equalizer { gains }
    }

    /// The number of bands.
    pub fn band_count(&self) -> (n: usize)
        ensures
            n == self@.len(),
    {
        self.gains.len()
    }

    /// The gain of one band, or `InvalidBandIndex` where the table has no
    /// such band.
    pub fn gain(&self, band: usize) -> (r: Result<Gain, PlayerError>)
        ensures
            band < self@.len() ==> r == Ok::<Gain, PlayerError>(self@[band as int]),
            band >= self@.len() ==> r == Err::<Gain, PlayerError>(PlayerError::InvalidBandIndex),
    {
        if band < self.gains.len() {
            Ok(self.gains[band])
        } else {
            Err(PlayerError::InvalidBandIndex)
        }
    }

    /// Replaces the gain of one band. The value is taken as it is, whatever
    /// its size. Where the table has no such band nothing changes and
    /// `InvalidBandIndex` is returned.
    pub fn set_gain(&mut self, band: usize, value: Gain) -> (r: Result<(), PlayerError>)
        ensures
            band < old(self)@.len() ==> r == Ok::<(), PlayerError>(()) && final(self)@ == old(
                self,
            )@.update(band as int, value),
            band >= old(self)@.len() ==> r == Err::<(), PlayerError>(
                PlayerError::InvalidBandIndex,
            ) && final(self)@ == old(self)@,
    {
        if band < self.gains.len() {
            self.gains.set(band, value);
            Ok(())
        } else {
            Err(PlayerError::InvalidBandIndex)
        }
    }

    /// Multiplies every sample of the buffer by the gain of its band, in
    /// place. A table without bands can be applied to the empty buffer only.
    pub fn apply(&self, samples: &mut Vec<i16>)
        requires
            self@.len() > 0 || old(samples)@.len() == 0,
        ensures
            final(samples)@ == applied(self@, old(samples)@),
    {
        let n: usize = samples.len();
        let bands: usize = self.gains.len();
        let mut i: usize = 0;
        while i < n
            invariant
                i <= n,
                n == old(samples)@.len(),
                samples@.len() == n,
                bands == self.gains@.len(),
                bands > 0 || n == 0,
                forall|j: int| 0 <= j < i ==> samples@[j] == #[trigger] applied(
                    self@,
                    old(samples)@,
                )[j],
                forall|j: int| i <= j < n ==> samples@[j] == old(samples)@[j],
            decreases n - i,
        {
            let gain: Gain = self.gains[i % bands];
            let scaled_sample: i16 = scale(samples[i], gain);
            samples.set(i, scaled_sample);
            i = i + 1;
        }
        assert(samples@ =~= applied(self@, old(samples)@));
    }
}

/// A sample multiplied by a gain that is a power of two, `2^p`: the
/// amplitude shifted by `p` places, its fraction dropped, and held at the
/// ends of the range.
pub proof fn lemma_scaled_by_power_of_two(sample: int, gain: u32, negative: bool, exponent: i32)
    requires
        -32768 <= sample <= 32767,
        value_of(gain) == (Value::Finite { negative, significand: 0x80_0000, exponent }),
    ensures
        scaled(sample, gain) == saturate(
            signed((sample < 0) != negative, shifted_floor(magnitude_of(sample), exponent + 23)),
        ),
{
    lemma_power_of_two_product(magnitude_of(sample), exponent as int);
}

/// The gain 1 leaves every sample as it is.
pub proof fn lemma_unity_is_identity(sample: int)
    requires
        -32768 <= sample <= 32767,
    ensures
        scaled(sample, UNITY_BITS) == sample,
{
    lemma2_to64();
    lemma_scaled_by_power_of_two(sample, UNITY_BITS, false, -23i32);
    assert(shifted_floor(magnitude_of(sample), 0) == magnitude_of(sample) * 1);
}

/// The gain 0, of either sign, turns every sample into 0.
pub proof fn lemma_zero_gain_silences(sample: int, gain: u32)
    requires
        gain == SILENCE_BITS || gain == 0x8000_0000,
    ensures
        scaled(sample, gain) == 0,
{
    assert(magnitude_of(sample) * 0 == 0);
    lemma_rounded_floor_of_zero(-149);
}

/// The gain 2 doubles a sample and holds the result at the ends of the
/// range: a doubled amplitude never wraps around.
pub proof fn lemma_double_saturates(sample: int)
    requires
        -32768 <= sample <= 32767,
    ensures
        scaled(sample, DOUBLE_BITS) == saturate(2 * sample),
{
    lemma2_to64();
    lemma_scaled_by_power_of_two(sample, DOUBLE_BITS, false, -22i32);
    assert(shifted_floor(magnitude_of(sample), 1) == magnitude_of(sample) * 2);
}

/// The gain 1/2 halves a sample, dropping the half that an odd amplitude
/// leaves: the result is the quotient rounded toward zero.
pub proof fn lemma_half_truncates(sample: int)
    requires
        -32768 <= sample <= 32767,
    ensures
        scaled(sample, HALF_BITS) == signed(sample < 0, magnitude_of(sample) / 2),
{
    lemma2_to64();
    lemma_scaled_by_power_of_two(sample, HALF_BITS, false, -24i32);
}

/// Doubling and then halving gives back every sample whose double is still
/// in the range of a sample.
pub proof fn lemma_double_then_half_restores(sample: int)
    requires
        -16384 <= sample <= 16383,
    ensures
        scaled(scaled(sample, DOUBLE_BITS), HALF_BITS) == sample,
{
    lemma_double_saturates(sample);
    lemma_half_truncates(2 * sample);
}

/// Doubling and then halving a sample whose double leaves the range gives
/// the end of the range halved: the sample comes back smaller in magnitude,
/// never with its sign turned.
pub proof fn lemma_double_then_half_clips(sample: int)
    requires
        -32768 <= sample <= 32767,
    ensures
        sample > 16383 ==> scaled(scaled(sample, DOUBLE_BITS), HALF_BITS) == 16383,
        sample < -16384 ==> scaled(scaled(sample, DOUBLE_BITS), HALF_BITS) == -16384,
{
    lemma_double_saturates(sample);
    lemma_half_truncates(saturate(2 * sample));
}

/// A table of unit gains leaves the whole buffer as it is.
pub proof fn lemma_unity_table_is_identity(gains: Seq<Gain>, samples: Seq<i16>)
    requires
        gains.len() > 0,
        forall|b: int| 0 <= b < gains.len() ==> (#[trigger] gains[b]).bits == UNITY_BITS,
    ensures
        applied(gains, samples) == samples,
{
    assert forall|i: int| 0 <= i < samples.len() implies applied(gains, samples)[i]
        == samples[i] by {
        let b = i % (gains.len() as int);
        assert(gains[b].bits == UNITY_BITS);
        lemma_unity_is_identity(samples[i] as int);
    }
    assert(applied(gains, samples) =~= samples);
}

/// Changing the gain of one band changes the samples of that band only:
/// a position of any other band holds the same sample under both tables,
/// and a position of the changed band holds its sample multiplied by the new
/// gain.
pub proof fn lemma_band_change_is_local(
    gains: Seq<Gain>,
    band: int,
    value: Gain,
    samples: Seq<i16>,
    i: int,
)
    requires
        0 <= band < gains.len(),
        0 <= i < samples.len(),
    ensures
        i % (gains.len() as int) != band ==> applied(gains.update(band, value), samples)[i]
            == applied(gains, samples)[i],
        i % (gains.len() as int) == band ==> applied(gains.update(band, value), samples)[i]
            as int == scaled(samples[i] as int, value.bits),
{
    let b = i % (gains.len() as int);
    assert(0 <= b < gains.len());
    lemma_scaled_in_range(samples[i] as int, value.bits);
}

/// A band whose gain is 0 holds 0 at each of its positions.
pub proof fn lemma_silenced_band_is_zero(gains: Seq<Gain>, samples: Seq<i16>, i: int)
    requires
        gains.len() > 0,
        0 <= i < samples.len(),
        gains[i % (gains.len() as int)].bits == SILENCE_BITS,
    ensures
        applied(gains, samples)[i] == 0,
{
    lemma_zero_gain_silences(samples[i] as int, SILENCE_BITS);
}

/// A scaled sample is an amplitude that a sample can hold.
pub proof fn lemma_scaled_in_range(sample: int, gain: u32)
    ensures
        -32768 <= scaled(sample, gain) <= 32767,
{
}

/// A gain that is not negative keeps the order of two amplitudes: the
/// louder of two samples of one sign stays at least as loud, and no sample
/// changes its sign.
pub proof fn lemma_order_is_kept(lower: int, upper: int, gain: u32)
    requires
        lower <= upper,
        !sign_of(gain),
    ensures
        scaled(lower, gain) <= scaled(upper, gain),
{
    if let Value::Finite { negative, significand, exponent } = value_of(gain) {
        let factor = significand as nat;
        let low = magnitude_of(lower);
        let high = magnitude_of(upper);
        if lower >= 0 || upper < 0 {
            let (small, large) = if lower >= 0 {
                (low, high)
            } else {
                (high, low)
            };
            assert(small * factor <= large * factor) by (nonlinear_arith)
                requires
                    small <= large,
            ;
            lemma_rounded_floor_monotonic(small * factor, large * factor, exponent as int);
        }
    }
}

} // verus!
