//! IEEE-754 binary32 values, read from their bit patterns.
//!
//! A bit pattern is the `u32` that `f32::to_bits` gives. Nothing here
//! computes with floating-point numbers: a value is ordered through an
//! integer key, and its magnitude is counted in units of 2^-149, the spacing
//! of the smallest binary32 values, so that every finite value is a natural
//! number of units.

use vstd::prelude::*;
use vstd::arithmetic::power2::*;

verus! {

/// Bit that carries the sign.
pub const SIGN_BIT: u32 = 0x8000_0000;

/// Bit pattern of positive infinity; every larger magnitude is a NaN.
pub const INFINITY_BITS: u32 = 0x7F80_0000;

/// Number of values that the fraction field can take, 2^23.
pub const FRACTION_SPAN: u32 = 0x80_0000;

/// Smallest natural number that needs more than 24 binary digits, 2^24.
pub const SIGNIFICAND_SPAN: u64 = 0x100_0000;

/// The value one is 2^149 units of 2^-149.
pub const UNIT_EXPONENT: u32 = 149;

/// The pattern without its sign bit.
pub open spec fn magnitude_bits(bits: u32) -> nat {
    if bits >= SIGN_BIT {
        (bits - SIGN_BIT) as nat
    } else {
        bits as nat
    }
}

/// The sign bit is set. This holds of `-0.0` and of negative NaNs too.
pub open spec fn is_negative(bits: u32) -> bool {
    bits >= SIGN_BIT
}

/// The pattern is a NaN.
pub open spec fn is_nan(bits: u32) -> bool {
    magnitude_bits(bits) > INFINITY_BITS
}

/// The pattern is positive or negative infinity.
pub open spec fn is_infinite(bits: u32) -> bool {
    magnitude_bits(bits) == INFINITY_BITS
}

/// The pattern is a zero, a subnormal or a normal number.
pub open spec fn is_finite(bits: u32) -> bool {
    magnitude_bits(bits) < INFINITY_BITS
}

/// An integer that orders patterns as their values are ordered (see
/// [`lemma_key_orders_values`]). Both zeros share the key 0, and a NaN lies
/// beyond the infinity of its sign.
pub open spec fn order_key(bits: u32) -> int {
    if is_negative(bits) {
        -(magnitude_bits(bits) as int)
    } else {
        magnitude_bits(bits) as int
    }
}

/// The biased exponent field.
pub open spec fn exponent_field(bits: u32) -> nat {
    magnitude_bits(bits) / (FRACTION_SPAN as nat)
}

/// The fraction field.
pub open spec fn fraction_field(bits: u32) -> nat {
    magnitude_bits(bits) % (FRACTION_SPAN as nat)
}

/// The integer significand: the fraction, with the hidden bit in front of
/// it unless the exponent field is zero.
pub open spec fn significand(bits: u32) -> nat {
    if exponent_field(bits) == 0 {
        fraction_field(bits)
    } else {
        FRACTION_SPAN as nat + fraction_field(bits)
    }
}

/// The power of two by which the significand is scaled to count units of
/// 2^-149.
pub open spec fn unit_shift(bits: u32) -> nat {
    if exponent_field(bits) == 0 {
        0
    } else {
        (exponent_field(bits) - 1) as nat
    }
}

/// The magnitude of a finite pattern, in units of 2^-149.
pub open spec fn magnitude_units(bits: u32) -> nat {
    significand(bits) * pow2(unit_shift(bits))
}

/// The value of a pattern that is not a NaN, in units of 2^-149. The two
/// infinities count as plus and minus 2^277 units, one step of the largest
/// exponent beyond the largest finite value.
pub open spec fn value_units(bits: u32) -> int {
    if is_negative(bits) {
        -(magnitude_units(bits) as int)
    } else {
        magnitude_units(bits) as int
    }
}

/// Among patterns that are not NaN, a larger magnitude pattern is a larger
/// magnitude.
pub proof fn lemma_magnitude_units_ascend(a: u32, b: u32)
    requires
        magnitude_bits(a) < magnitude_bits(b) <= INFINITY_BITS,
    ensures
        magnitude_units(a) < magnitude_units(b),
{
    let (ea, fa) = (exponent_field(a), fraction_field(a));
    let (eb, fb) = (exponent_field(b), fraction_field(b));
    let span = FRACTION_SPAN as nat;
    let (pa, pb) = (pow2(unit_shift(a)), pow2(unit_shift(b)));
    lemma_pow2_pos(unit_shift(a));
    lemma_pow2_pos(unit_shift(b));
    lemma2_to64();
    if ea == eb {
        if ea > 0 {
            assert((span + fa) * pa < (span + fb) * pa) by (nonlinear_arith)
                requires
                    fa < fb,
                    pa > 0,
            ;
        }
    } else {
        assert(ea < eb);
        if ea == 0 {
            assert(span * 1 <= (span + fb) * pb) by (nonlinear_arith)
                requires
                    pb >= 1,
            ;
        } else {
            lemma_pow2_unfold(ea);
            if ea < eb - 1 {
                lemma_pow2_strictly_increases(ea, (eb - 1) as nat);
            }
            assert((span + fa) * pa < span * pow2(ea)) by (nonlinear_arith)
                requires
                    fa < span,
                    pow2(ea) == 2 * pa,
                    pa > 0,
            ;
            assert(span * pow2(ea) <= (span + fb) * pb) by (nonlinear_arith)
                requires
                    pow2(ea) <= pb,
            ;
        }
    }
}

/// A pattern of magnitude zero has a magnitude of zero units.
proof fn lemma_zero_units(bits: u32)
    ensures
        magnitude_bits(bits) == 0 ==> magnitude_units(bits) == 0,
{
    if magnitude_bits(bits) == 0 {
        assert(exponent_field(bits) == 0 && fraction_field(bits) == 0);
        assert(0 * pow2(0) == 0) by (nonlinear_arith);
    }
}

/// The key orders patterns as their values are ordered: of two patterns
/// that are not NaN, one has the smaller key exactly when it has the smaller
/// value, and they share a key exactly when they share a value.
pub proof fn lemma_key_orders_values(a: u32, b: u32)
    requires
        !is_nan(a),
        !is_nan(b),
    ensures
        order_key(a) < order_key(b) <==> value_units(a) < value_units(b),
        order_key(a) == order_key(b) <==> value_units(a) == value_units(b),
{
    if magnitude_bits(a) < magnitude_bits(b) {
        lemma_magnitude_units_ascend(a, b);
    } else if magnitude_bits(b) < magnitude_bits(a) {
        lemma_magnitude_units_ascend(b, a);
    } else {
        assert(exponent_field(a) == exponent_field(b));
        assert(fraction_field(a) == fraction_field(b));
    }
    lemma_zero_units(a);
    lemma_zero_units(b);
    lemma_zero_units(0);
    if magnitude_bits(a) > 0 {
        lemma_magnitude_units_ascend(0, a);
    }
    if magnitude_bits(b) > 0 {
        lemma_magnitude_units_ascend(0, b);
    }
}

/// How many low binary digits of `x` a 24-digit significand cannot hold.
pub open spec fn excess_digits(x: nat) -> nat
    decreases x,
{
    if x < SIGNIFICAND_SPAN {
        0
    } else {
        1 + excess_digits(x / 2)
    }
}

/// `x / d` rounded to the nearest integer, a tie going to the even one.
pub open spec fn round_half_even(x: nat, d: nat) -> nat {
    let q = x / d;
    let r = x % d;
    if 2 * r < d || (2 * r == d && q % 2 == 0) {
        q
    } else {
        q + 1
    }
}

/// The binary32 value nearest to `x` units, in units: `x` rounded to 24
/// significant binary digits, a tie going to the even significand. A result
/// of 2^277 units or more stands for an overflow to infinity.
pub open spec fn round_units(x: nat) -> nat {
    let d = pow2(excess_digits(x));
    round_half_even(x, d) * d
}

/// Halving numerator and denominator together does not change the rounded
/// quotient.
pub proof fn lemma_round_half_even_doubled(x: nat, d: nat)
    requires
        d > 0,
    ensures
        round_half_even(2 * x, 2 * d) == round_half_even(x, d),
{
    let q = x / d;
    let r = x % d;
    assert(x == d * q + r && 0 <= r < d) by {
        vstd::arithmetic::div_mod::lemma_fundamental_div_mod(x as int, d as int);
        vstd::arithmetic::div_mod::lemma_mod_bound(x as int, d as int);
    }
    assert(2 * x == (2 * d) * q + 2 * r) by (nonlinear_arith)
        requires
            x == d * q + r,
    ;
    vstd::arithmetic::div_mod::lemma_fundamental_div_mod_converse(
        (2 * x) as int,
        (2 * d) as int,
        q as int,
        (2 * r) as int,
    );
}

/// A number of at most 24 binary digits is its own rounding.
pub proof fn lemma_round_units_exact(x: nat)
    requires
        x < SIGNIFICAND_SPAN,
    ensures
        round_units(x) == x,
{
    lemma2_to64();
    assert(excess_digits(x) == 0);
    assert(x / 1 == x && x % 1 == 0);
}

/// Rounding to 24 significant digits commutes with scaling by a power of
/// two.
pub proof fn lemma_round_units_scaled(n: nat, k: nat)
    ensures
        round_units(n * pow2(k)) == round_units(n) * pow2(k),
    decreases k,
{
    lemma2_to64();
    if k == 0 {
        assert(n * pow2(0) == n);
        assert(round_units(n) * pow2(0) == round_units(n));
    } else {
        let j = (k - 1) as nat;
        let x = n * pow2(j);
        lemma_round_units_scaled(n, j);
        lemma_pow2_unfold(k);
        lemma_pow2_pos(j);
        assert(n * pow2(k) == 2 * x) by (nonlinear_arith)
            requires
                x == n * pow2(j),
                pow2(k) == 2 * pow2(j),
        ;
        if 2 * x < SIGNIFICAND_SPAN {
            assert(n <= x) by (nonlinear_arith)
                requires
                    x == n * pow2(j),
                    pow2(j) > 0,
            ;
            lemma_round_units_exact(2 * x);
            lemma_round_units_exact(n);
        } else {
            let e = excess_digits(x);
            assert((2 * x) / 2 == x);
            assert(excess_digits(2 * x) == 1 + e);
            lemma_pow2_unfold(1 + e);
            lemma_pow2_pos(e);
            lemma_round_half_even_doubled(x, pow2(e));
            let t = round_half_even(x, pow2(e));
            assert(round_units(2 * x) == t * (2 * pow2(e)));
            assert(round_units(x) == t * pow2(e));
            assert(t * (2 * pow2(e)) == 2 * (t * pow2(e))) by (nonlinear_arith);
            assert(2 * (round_units(n) * pow2(j)) == round_units(n) * pow2(k)) by (nonlinear_arith)
                requires
                    pow2(k) == 2 * pow2(j),
            ;
        }
    }
}

/// A natural number rounded to 24 significant binary digits.
pub struct Rounded {
    /// The digits that are kept, at most 2^24.
    pub significand: u64,
    /// The number of low digits that were rounded away.
    pub dropped: u32,
}

/// Rounds `x` to 24 significant binary digits, a tie going to the even
/// significand.
pub fn round_to_significand(x: u64) -> (r: Rounded)
    ensures
        r.dropped == excess_digits(x as nat),
        r.significand == round_half_even(x as nat, pow2(r.dropped as nat)),
        r.significand * pow2(r.dropped as nat) == round_units(x as nat),
        r.significand <= SIGNIFICAND_SPAN,
        x > 0 ==> r.significand > 0,
        r.dropped <= 40,
{
    let mut high: u64 = x;
    let mut divisor: u64 = 1;
    let mut dropped: u32 = 0;
    proof {
        lemma2_to64();
    }
    while high >= SIGNIFICAND_SPAN
        invariant
            divisor == pow2(dropped as nat),
            divisor > 0,
            high == x / divisor,
            excess_digits(x as nat) == dropped + excess_digits(high as nat),
            dropped <= 40,
            dropped == 0 ==> high == x,
            dropped > 0 ==> high >= FRACTION_SPAN,
        decreases high,
    {
        proof {
            let d = divisor as int;
            vstd::arithmetic::div_mod::lemma_fundamental_div_mod(x as int, d);
            vstd::arithmetic::div_mod::lemma_mod_bound(x as int, d);
            assert(d * 0x100_0000 <= x) by (nonlinear_arith)
                requires
                    x == d * (x as int / d) + (x as int % d),
                    x as int / d >= 0x100_0000,
                    x as int % d >= 0,
                    d > 0,
            ;
            lemma2_to64_rest();
            if dropped >= 40 {
                if dropped > 40 {
                    lemma_pow2_strictly_increases(40, dropped as nat);
                }
                assert(false);
            }
            vstd::arithmetic::div_mod::lemma_div_denominator(x as int, d, 2);
            lemma_pow2_unfold((dropped + 1) as nat);
        }
        high = high / 2;
        divisor = divisor * 2;
        dropped = dropped + 1;
    }
    let rest: u64 = x % divisor;
    proof {
        vstd::arithmetic::div_mod::lemma_fundamental_div_mod(x as int, divisor as int);
        vstd::arithmetic::div_mod::lemma_mod_bound(x as int, divisor as int);
        lemma2_to64_rest();
        if dropped == 40 {
        } else {
            lemma_pow2_strictly_increases(dropped as nat, 40);
        }
    }
    let round_up = 2 * rest > divisor || (2 * rest == divisor && high % 2 == 1);
    let significand: u64 = if round_up {
        high + 1
    } else {
        high
    };
    Rounded { significand, dropped }
}

/// The parts of a bit pattern.
pub struct Fields {
    /// The sign bit is set.
    pub negative: bool,
    /// Biased exponent, 0 to 255.
    pub exponent: u32,
    /// Fraction, below 2^23.
    pub fraction: u32,
}

/// Splits a pattern into sign, exponent field and fraction field.
pub fn fields(bits: u32) -> (f: Fields)
    ensures
        f.negative == is_negative(bits),
        f.exponent == exponent_field(bits),
        f.fraction == fraction_field(bits),
        f.exponent <= 255,
        f.fraction < FRACTION_SPAN,
{
    let negative = bits >= SIGN_BIT;
    let magnitude: u32 = if negative {
        bits - SIGN_BIT
    } else {
        bits
    };
    Fields { negative, exponent: magnitude / FRACTION_SPAN, fraction: magnitude % FRACTION_SPAN }
}

/// The ordering key of a pattern.
pub fn key(bits: u32) -> (k: i64)
    ensures
        k == order_key(bits),
{
    if bits >= SIGN_BIT {
        -((bits - SIGN_BIT) as i64)
    } else {
        bits as i64
    }
}

/// Two to the power `n`.
pub fn power_of_two(n: u32) -> (p: u64)
    requires
        n < 64,
    ensures
        p == pow2(n as nat),
{
    proof {
        lemma2_to64();
        lemma2_to64_rest();
        if n < 63 {
            lemma_pow2_strictly_increases(n as nat, 63);
        }
        vstd::bits::lemma_u64_shl_is_mul(1, n as u64);
    }
    1u64 << n
}

} // verus!
