//! Single-precision values, handled by their bit patterns.
//!
//! Gains and decoded samples reach this library as IEEE 754 binary32 bit
//! patterns. Everything here is integer arithmetic on those patterns: a
//! pattern is read as not-a-number, an infinity, or a signed
//! `significand * 2^exponent`.

use vstd::prelude::*;
use vstd::arithmetic::div_mod::{
    lemma_div_by_multiple, lemma_div_is_ordered, lemma_div_multiples_vanish_quotient,
    lemma_fundamental_div_mod, lemma_fundamental_div_mod_converse, lemma_mod_multiples_basic,
    lemma_mod_pos_bound,
};
use vstd::arithmetic::power2::{
    lemma2_to64, lemma2_to64_rest, lemma_pow2_adds, lemma_pow2_pos,
    lemma_pow2_strictly_increases, lemma_pow2_unfold, pow2,
};

verus! {

/// What a binary32 bit pattern stands for.
#[derive(Clone, Copy, Debug, PartialEq, Eq, Structural)]
pub enum Value {
    /// Not a number.
    Nan,
    /// An infinity of the given sign.
    Infinite { negative: bool },
    /// `significand * 2^exponent`, negated where `negative` is set. Both zeros
    /// are finite values with significand 0.
    Finite { negative: bool, significand: u32, exponent: i32 },
}

/// Whether the sign bit of a pattern is set.
pub open spec fn sign_of(bits: u32) -> bool {
    bits >= 0x8000_0000
}

/// The eight-bit biased exponent field of a pattern.
pub open spec fn exponent_field(bits: u32) -> nat {
    ((bits as nat) / 0x80_0000) % 256
}

/// The 23-bit fraction field of a pattern.
pub open spec fn fraction_field(bits: u32) -> nat {
    (bits as nat) % 0x80_0000
}

/// The value that a bit pattern stands for. Patterns with exponent field 255
/// are the infinities (fraction 0) and the not-a-numbers; exponent field 0
/// holds the zeros and the subnormal values, which have no hidden bit.
pub open spec fn value_of(bits: u32) -> Value {
    let field = exponent_field(bits);
    let fraction = fraction_field(bits);
    if field == 255 {
        if fraction == 0 {
            Value::Infinite { negative: sign_of(bits) }
        } else {
            Value::Nan
        }
    } else if field == 0 {
        Value::Finite { negative: sign_of(bits), significand: fraction as u32, exponent: -149i32 }
    } else {
        Value::Finite {
            negative: sign_of(bits),
            significand: (0x80_0000 + fraction) as u32,
            exponent: (field - 150) as i32,
        }
    }
}

/// Reads a bit pattern.
pub fn decode(bits: u32) -> (v: Value)
    ensures
        v == value_of(bits),
        v matches Value::Finite { significand, exponent, .. } ==> significand < 0x100_0000
            && -149 <= exponent <= 104,
{
    let negative: bool = bits >= 0x8000_0000;
    let field: u32 = (bits / 0x80_0000) % 256;
    let fraction: u32 = bits % 0x80_0000;
    if field == 255 {
        if fraction == 0 {
            Value::Infinite { negative }
        } else {
            Value::Nan
        }
    } else if field == 0 {
        Value::Finite { negative, significand: fraction, exponent: -149 }
    } else {
        Value::Finite { negative, significand: 0x80_0000 + fraction, exponent: field as i32 - 150 }
    }
}

/// The pattern of the normal value `significand * 2^exponent` of the given
/// sign.
pub open spec fn normal_pattern(negative: bool, significand: u32, exponent: i32) -> u32 {
    ((if negative { 0x8000_0000 } else { 0int }) + (exponent + 150) * 0x80_0000 + (significand
        - 0x80_0000)) as u32
}

/// Builds the pattern of a normal value: the significand carries its hidden
/// bit, and the exponent is in the range of the normal values.
pub(crate) fn encode_normal(negative: bool, significand: u32, exponent: i32) -> (bits: u32)
    requires
        0x80_0000 <= significand < 0x100_0000,
        -149 <= exponent <= 104,
    ensures
        bits == normal_pattern(negative, significand, exponent),
        value_of(bits) == (Value::Finite { negative, significand, exponent }),
{
    let field: u32 = (exponent + 150) as u32;
    let magnitude: u32 = field * 0x80_0000 + (significand - 0x80_0000);
    let bits: u32 = if negative {
        magnitude + 0x8000_0000
    } else {
        magnitude
    };
    proof {
        lemma_normal_pattern_value(negative, significand, exponent);
    }
    bits
}

/// The pattern built of a sign, a significand with its hidden bit and an
/// exponent stands for that value.
pub proof fn lemma_normal_pattern_value(negative: bool, significand: u32, exponent: i32)
    requires
        0x80_0000 <= significand < 0x100_0000,
        -149 <= exponent <= 104,
    ensures
        value_of(normal_pattern(negative, significand, exponent)) == (Value::Finite {
            negative,
            significand,
            exponent,
        }),
{
    let bits = normal_pattern(negative, significand, exponent);
    let field = exponent + 150;
    let f = (significand - 0x80_0000) as int;
    let top: int = if negative { 256 } else { 0 };
    assert(bits as int == (top + field) * 0x80_0000 + f);
    lemma_fundamental_div_mod_converse(bits as int, 0x80_0000, top + field, f);
}

/// `2^k` as a machine integer.
pub(crate) fn power_of_two(k: u32) -> (r: u64)
    requires
        k < 64,
    ensures
        r == pow2(k as nat),
        r >= 1,
{
    let mut r: u64 = 1;
    let mut i: u32 = 0;
    proof {
        lemma2_to64();
    }
    while i < k
        invariant
            i <= k,
            k < 64,
            r == pow2(i as nat),
            r >= 1,
        decreases k - i,
    {
        proof {
            lemma_pow2_unfold((i + 1) as nat);
            lemma_pow2_strictly_increases((i + 1) as nat, 64);
            lemma2_to64();
            lemma2_to64_rest();
        }
        r = r * 2;
        i = i + 1;
    }
    r
}

/// The whole part of `m * 2^e`.
pub open spec fn shifted_floor(m: nat, e: int) -> nat {
    if e >= 0 {
        m * pow2(e as nat)
    } else {
        m / pow2((-e) as nat)
    }
}

/// Whether `m * 2^e` is a whole number.
pub open spec fn shifts_to_whole(m: nat, e: int) -> bool {
    e >= 0 || m % pow2((-e) as nat) == 0
}

/// `v`, held at `cap` where it is larger.
pub open spec fn capped(v: nat, cap: nat) -> nat {
    if v < cap {
        v
    } else {
        cap
    }
}

/// Powers of two grow with their exponent.
pub proof fn lemma_pow2_monotonic(a: nat, b: nat)
    requires
        a <= b,
    ensures
        pow2(a) <= pow2(b),
        pow2(a) >= 1,
{
    lemma_pow2_pos(a);
    if a < b {
        lemma_pow2_strictly_increases(a, b);
    }
}

/// The whole part of `m * 2^e`, held at 65536 where it is larger.
pub(crate) fn shifted_floor_capped(m: u32, e: i32) -> (r: u32)
    requires
        m <= 0x100_0000,
    ensures
        r == capped(shifted_floor(m as nat, e as int), 0x1_0000),
{
    if m == 0 {
        proof {
            if e >= 0 {
                assert(0 * pow2(e as nat) == 0) by (nonlinear_arith);
            } else {
                lemma_pow2_pos((-e) as nat);
            }
        }
        0
    } else if e >= 16 {
        proof {
            lemma2_to64();
            lemma_pow2_monotonic(16, e as nat);
            let p = pow2(e as nat);
            assert(m * p >= 0x1_0000) by (nonlinear_arith)
                requires
                    m >= 1,
                    p >= 0x1_0000,
            ;
        }
        0x1_0000
    } else if e >= 0 {
        let d: u64 = power_of_two(e as u32);
        proof {
            lemma2_to64();
            lemma_pow2_monotonic(e as nat, 15);
            assert(m * d <= 0x100_0000 * 0x8000) by (nonlinear_arith)
                requires
                    m <= 0x100_0000,
                    d <= 0x8000,
            ;
        }
        let p: u64 = m as u64 * d;
        if p >= 0x1_0000 {
            0x1_0000
        } else {
            p as u32
        }
    } else if e <= -25 {
        proof {
            lemma2_to64();
            lemma_pow2_monotonic(25, (-e) as nat);
            let d = pow2((-e) as nat);
            assert(m as nat / d == 0) by (nonlinear_arith)
                requires
                    m < d,
            ;
        }
        0
    } else {
        let d: u64 = power_of_two((-e) as u32);
        let q: u64 = m as u64 / d;
        assert(q <= m) by (nonlinear_arith)
            requires
                q == m as u64 / d,
                d >= 1,
        ;
        if q >= 0x1_0000 {
            0x1_0000
        } else {
            q as u32
        }
    }
}

/// How many low bits of `n` do not fit into a 24-bit significand.
pub open spec fn excess_bits(n: nat) -> nat
    decreases n,
{
    if n < 0x100_0000 {
        0
    } else {
        1 + excess_bits(n / 2)
    }
}

/// `n / 2^k` rounded to the nearest whole number, a tie going to the even
/// neighbour.
pub open spec fn round_half_even(n: nat, k: nat) -> nat {
    let d = pow2(k);
    let q = n / d;
    let r = n % d;
    if 2 * r > d || (2 * r == d && q % 2 == 1) {
        q + 1
    } else {
        q
    }
}

/// A number lies below `2^(24 + excess_bits)`, and, where bits are in
/// excess, at or above `2^(23 + excess_bits)`.
pub proof fn lemma_excess_bits_bounds(n: nat)
    ensures
        n < pow2(24 + excess_bits(n)),
        excess_bits(n) > 0 ==> n >= pow2(23 + excess_bits(n)),
    decreases n,
{
    lemma2_to64();
    if n >= 0x100_0000 {
        let k = excess_bits(n / 2);
        lemma_excess_bits_bounds(n / 2);
        lemma_pow2_unfold(25 + k);
        lemma_pow2_unfold(24 + k);
    }
}

/// Counts the low bits of `n` that do not fit into a 24-bit significand.
pub fn excess_bits_of(n: u64) -> (k: u32)
    ensures
        k == excess_bits(n as nat),
        k <= 40,
{
    let mut m: u64 = n;
    let mut k: u32 = 0;
    proof {
        lemma2_to64();
        lemma2_to64_rest();
    }
    while m >= 0x100_0000
        invariant
            k <= 40,
            m < pow2((64 - k) as nat),
            excess_bits(n as nat) == k + excess_bits(m as nat),
        decreases m,
    {
        proof {
            lemma2_to64();
            if k == 40 {
                assert(false);
            }
            lemma_pow2_unfold((64 - k) as nat);
        }
        m = m / 2;
        k = k + 1;
    }
    k
}

/// Rounds `n` to 24 significant bits: returns the rounded significand and
/// the number of low bits that were dropped.
pub fn round_to_24_bits(n: u64) -> (r: (u32, u32))
    ensures
        r.1 == excess_bits(n as nat),
        r.0 == round_half_even(n as nat, excess_bits(n as nat)),
        r.0 <= 0x100_0000,
        r.1 <= 40,
{
    let k: u32 = excess_bits_of(n);
    let d: u64 = power_of_two(k);
    let q: u64 = n / d;
    let rem: u64 = n % d;
    proof {
        lemma2_to64();
        lemma_excess_bits_bounds(n as nat);
        lemma_pow2_adds(24, k as nat);
        assert(q < 0x100_0000) by (nonlinear_arith)
            requires
                n < 0x100_0000 * d,
                d >= 1,
                q == n / d,
        ;
    }
    let up: bool = rem > d - rem || (rem == d - rem && q % 2 == 1);
    if up {
        ((q + 1) as u32, k)
    } else {
        (q as u32, k)
    }
}

/// The whole part of `n * 2^e` after `n` has been rounded to 24 significant
/// bits, ties to even.
pub open spec fn rounded_floor(n: nat, e: int) -> nat {
    let k = excess_bits(n);
    shifted_floor(round_half_even(n, k), e + k)
}

/// The whole part of `n * 2^e` after rounding to 24 significant bits, held
/// at 65536 where it is larger.
pub(crate) fn rounded_floor_capped(n: u64, e: i32) -> (r: u32)
    requires
        -1000 <= e <= 1000,
    ensures
        r == capped(rounded_floor(n as nat, e as int), 0x1_0000),
{
    let (significand, dropped) = round_to_24_bits(n);
    shifted_floor_capped(significand, e + dropped as i32)
}

/// A factor `2^j` of the significand can be moved into the exponent.
pub proof fn lemma_shifted_floor_absorbs(m: nat, j: nat, e: int)
    ensures
        shifted_floor(m * pow2(j), e) == shifted_floor(m, e + j),
{
    let pj = pow2(j);
    lemma_pow2_pos(j);
    if e >= 0 {
        let pe = pow2(e as nat);
        lemma_pow2_adds(j, e as nat);
        assert(m * pj * pe == m * (pj * pe)) by (nonlinear_arith);
    } else if e + j >= 0 {
        let d = pow2((-e) as nat);
        let t = pow2((e + j) as nat);
        lemma_pow2_pos((-e) as nat);
        lemma_pow2_adds((e + j) as nat, (-e) as nat);
        assert(m * pj == (m * t) * d) by (nonlinear_arith)
            requires
                pj == t * d,
        ;
        lemma_div_by_multiple((m * t) as int, d as int);
    } else {
        let d = pow2((-e) as nat);
        let u = pow2((-e - j) as nat);
        lemma_pow2_pos((-e - j) as nat);
        lemma_pow2_adds(j, (-e - j) as nat);
        lemma_div_multiples_vanish_quotient(pj as int, m as int, u as int);
        assert(m * pj == pj * m) by (nonlinear_arith);
    }
}

/// Rounding drops nothing where the dropped bits are all zero.
pub proof fn lemma_round_exact(q: nat, k: nat)
    ensures
        round_half_even(q * pow2(k), k) == q,
{
    let d = pow2(k);
    lemma_pow2_pos(k);
    lemma_mod_multiples_basic(q as int, d as int);
    lemma_div_by_multiple(q as int, d as int);
}

/// An amplitude times a power of two is a single-precision value as it
/// stands: rounding the product with the significand `2^23` changes nothing.
pub proof fn lemma_power_of_two_product(a: nat, e: int)
    requires
        a <= 32768,
    ensures
        rounded_floor(a * 0x80_0000, e) == shifted_floor(a, e + 23),
{
    let n = a * 0x80_0000;
    let k = excess_bits(n);
    lemma2_to64();
    lemma2_to64_rest();
    lemma_excess_bits_bounds(n);
    if k > 15 {
        lemma_pow2_monotonic(39, 23 + k);
        assert(false);
    }
    let rest = (23 - k) as nat;
    let q = a * pow2(rest);
    lemma_pow2_adds(rest, k);
    assert(n == q * pow2(k)) by (nonlinear_arith)
        requires
            n == a * 0x80_0000,
            q == a * pow2(rest),
            pow2(rest) * pow2(k) == 0x80_0000,
    ;
    lemma_round_exact(q, k);
    lemma_shifted_floor_absorbs(a, rest, e + k);
}

/// Zero stays zero, whatever the exponent.
pub proof fn lemma_rounded_floor_of_zero(e: int)
    ensures
        rounded_floor(0, e) == 0,
{
    lemma2_to64();
    assert(excess_bits(0) == 0);
    assert(round_half_even(0, 0) == 0);
    if e >= 0 {
        assert(0 * pow2(e as nat) == 0) by (nonlinear_arith);
    } else {
        lemma_pow2_pos((-e) as nat);
    }
}

/// Whether `m * 2^e` is a whole number.
pub(crate) fn is_whole_shift(m: u32, e: i32) -> (b: bool)
    requires
        m < 0x100_0000,
    ensures
        b == shifts_to_whole(m as nat, e as int),
{
    if e >= 0 {
        true
    } else if m == 0 {
        proof {
            lemma_pow2_pos((-e) as nat);
        }
        true
    } else if e <= -24 {
        proof {
            lemma2_to64();
            lemma_pow2_monotonic(24, (-e) as nat);
            let d = pow2((-e) as nat);
            assert(m as nat % d == m) by (nonlinear_arith)
                requires
                    m < d,
            ;
        }
        false
    } else {
        let d: u64 = power_of_two((-e) as u32);
        m as u64 % d == 0
    }
}

/// The position of the highest set bit of `a`: the `j` with
/// `2^j <= a < 2^(j + 1)`, and 0 for 0.
pub open spec fn top_bit(a: nat) -> nat
    decreases a,
{
    if a < 2 {
        0
    } else {
        1 + top_bit(a / 2)
    }
}

/// A number from 1 on lies between the power of two of its highest bit and
/// the next one.
pub proof fn lemma_top_bit_bounds(a: nat)
    requires
        a >= 1,
    ensures
        pow2(top_bit(a)) <= a < pow2(top_bit(a) + 1),
    decreases a,
{
    lemma2_to64();
    if a >= 2 {
        lemma_top_bit_bounds(a / 2);
        lemma_pow2_unfold(top_bit(a / 2) + 1);
        lemma_pow2_unfold(top_bit(a / 2) + 2);
    }
}

/// Finds the position of the highest set bit.
pub fn top_bit_of(a: u32) -> (j: u32)
    ensures
        j == top_bit(a as nat),
        j <= 31,
{
    let mut rest: u32 = a;
    let mut j: u32 = 0;
    proof {
        lemma2_to64();
    }
    while rest >= 2
        invariant
            j <= 31,
            rest < pow2((32 - j) as nat),
            top_bit(a as nat) == j + top_bit(rest as nat),
        decreases rest,
    {
        proof {
            lemma2_to64();
            if j == 31 {
                assert(false);
            }
            lemma_pow2_unfold((32 - j) as nat);
        }
        rest = rest / 2;
        j = j + 1;
    }
    j
}

/// A larger number has no fewer bits in excess.
pub proof fn lemma_excess_bits_monotonic(a: nat, b: nat)
    requires
        a <= b,
    ensures
        excess_bits(a) <= excess_bits(b),
{
    lemma_excess_bits_bounds(a);
    lemma_excess_bits_bounds(b);
    if excess_bits(a) > excess_bits(b) {
        lemma_pow2_monotonic(24 + excess_bits(b), 23 + excess_bits(a));
    }
}

/// A rounded significand has at most 24 bits and one more value, `2^24`;
/// where bits were dropped it has its highest bit set.
pub proof fn lemma_round_bounds(n: nat)
    ensures
        round_half_even(n, excess_bits(n)) <= 0x100_0000,
        excess_bits(n) > 0 ==> round_half_even(n, excess_bits(n)) >= 0x80_0000,
{
    let k = excess_bits(n);
    let d = pow2(k);
    lemma2_to64();
    lemma_pow2_pos(k);
    lemma_excess_bits_bounds(n);
    lemma_pow2_adds(24, k);
    lemma_pow2_adds(23, k);
    assert(n / d < 0x100_0000) by (nonlinear_arith)
        requires
            n < 0x100_0000 * d,
            d >= 1,
    ;
    if k > 0 {
        assert(n / d >= 0x80_0000) by (nonlinear_arith)
            requires
                n >= 0x80_0000 * d,
                d >= 1,
        ;
    }
}

/// Rounding to the same place keeps the order of two numbers.
pub proof fn lemma_round_monotonic(a: nat, b: nat, k: nat)
    requires
        a <= b,
    ensures
        round_half_even(a, k) <= round_half_even(b, k),
{
    let d = pow2(k);
    lemma_pow2_pos(k);
    lemma_div_is_ordered(a as int, b as int, d as int);
    lemma_fundamental_div_mod(a as int, d as int);
    lemma_fundamental_div_mod(b as int, d as int);
    lemma_mod_pos_bound(a as int, d as int);
    lemma_mod_pos_bound(b as int, d as int);
}

/// The whole part of `m * 2^e` grows with `m`.
pub proof fn lemma_shifted_floor_monotonic(a: nat, b: nat, e: int)
    requires
        a <= b,
    ensures
        shifted_floor(a, e) <= shifted_floor(b, e),
{
    if e >= 0 {
        let p = pow2(e as nat);
        assert(a * p <= b * p) by (nonlinear_arith)
            requires
                a <= b,
        ;
    } else {
        let d = pow2((-e) as nat);
        lemma_pow2_pos((-e) as nat);
        lemma_div_is_ordered(a as int, b as int, d as int);
    }
}

/// Rounding to 24 significant bits and dropping the fraction keeps the
/// order of two numbers.
pub proof fn lemma_rounded_floor_monotonic(a: nat, b: nat, e: int)
    requires
        a <= b,
    ensures
        rounded_floor(a, e) <= rounded_floor(b, e),
{
    let ka = excess_bits(a);
    let kb = excess_bits(b);
    let qa = round_half_even(a, ka);
    let qb = round_half_even(b, kb);
    lemma_excess_bits_monotonic(a, b);
    if ka == kb {
        lemma_round_monotonic(a, b, ka);
        lemma_shifted_floor_monotonic(qa, qb, e + ka);
    } else {
        let j = (kb - ka) as nat;
        let step = 0x80_0000 * pow2(j);
        lemma2_to64();
        lemma_round_bounds(a);
        lemma_round_bounds(b);
        lemma_pow2_monotonic(1, j);
        assert(step >= 0x100_0000);
        lemma_shifted_floor_monotonic(qa, step, e + ka);
        lemma_shifted_floor_absorbs(0x80_0000, j, e + ka);
        lemma_shifted_floor_monotonic(0x80_0000, qb, e + kb);
    }
}

} // verus!
