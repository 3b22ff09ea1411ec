//! Sign and order of IEEE 754 binary64 numbers, decided on their encodings.
//!
//! A coordinate, a radius or a noise bound crosses this library as the 64-bit
//! encoding of a binary64 number: one sign bit, eleven exponent bits and
//! fifty-two fraction bits. The functions here decide on such encodings with
//! integer arithmetic alone, and their contracts say what they decide in terms
//! of the number that the encoding stands for.

use vstd::prelude::*;
use vstd::arithmetic::power2::{pow2, lemma_pow2_pos, lemma_pow2_strictly_increases, lemma_pow2_unfold};
use vstd::arithmetic::mul::{lemma_mul_strict_inequality, lemma_mul_inequality};

verus! {

/// The encoding's top bit: set for a negative sign.
pub const SIGN_BIT: u64 = 0x8000_0000_0000_0000;

/// The encoding of positive infinity: every exponent bit set, no fraction bit.
pub const INFINITY: u64 = 0x7ff0_0000_0000_0000;

/// Two to the power 52: the number of fractions that share one exponent.
pub const FRACTION_SPAN: u64 = 0x0010_0000_0000_0000;

/// The encoding without its sign bit.
pub open spec fn magnitude(bits: u64) -> u64 {
    if bits >= SIGN_BIT {
        (bits - SIGN_BIT) as u64
    } else {
        bits
    }
}

/// Whether the sign bit is set.
pub open spec fn sign_is_negative(bits: u64) -> bool {
    bits >= SIGN_BIT
}

/// Whether the encoding stands for no number at all (a NaN): every exponent
/// bit is set and some fraction bit is.
pub open spec fn spec_is_nan(bits: u64) -> bool {
    magnitude(bits) > INFINITY
}

/// The number that a sign-free encoding stands for, multiplied by two to the
/// power 1074, which makes every finite binary64 number an integer.
///
/// With exponent field `e` and fraction field `f`, a subnormal number (`e` is
/// zero) is `f` units, and a normal one is `(2^52 + f) * 2^(e - 1)` units.
/// Infinity, whose exponent field is 2047, is given the value that the same
/// formula yields: two to the power 2098, above every finite number.
pub open spec fn magnitude_units(m: u64) -> nat {
    let exponent = m / FRACTION_SPAN;
    let fraction = m % FRACTION_SPAN;
    if exponent == 0 {
        fraction as nat
    } else {
        ((FRACTION_SPAN + fraction) * pow2((exponent - 1) as nat)) as nat
    }
}

/// The number that an encoding stands for, in units of two to the power
/// -1074. Both zeros are 0. Meaningful only where `spec_is_nan` is false.
pub open spec fn units(bits: u64) -> int {
    if sign_is_negative(bits) {
        -(magnitude_units(magnitude(bits)) as int)
    } else {
        magnitude_units(magnitude(bits)) as int
    }
}

/// `a < b` as numbers: false as soon as either side is a NaN.
pub open spec fn spec_less_than(a: u64, b: u64) -> bool {
    !spec_is_nan(a) && !spec_is_nan(b) && units(a) < units(b)
}

/// `0 < x` as numbers: false for both zeros, for negative numbers and for NaNs;
/// true for positive infinity.
pub open spec fn spec_is_positive(bits: u64) -> bool {
    !spec_is_nan(bits) && units(bits) > 0
}

/// Only the sign-free encoding 0 stands for zero.
pub proof fn lemma_units_zero(m: u64)
    requires
        m < SIGN_BIT,
    ensures
        magnitude_units(m) == 0 <==> m == 0,
{
    let exponent = m / FRACTION_SPAN;
    let fraction = m % FRACTION_SPAN;
    if exponent != 0 {
        let p = pow2((exponent - 1) as nat) as int;
        lemma_pow2_pos((exponent - 1) as nat);
        lemma_mul_strict_inequality(0, FRACTION_SPAN + fraction, p);
    } else {
        assert(m == fraction);
    }
}

/// Sign-free encodings are ordered as the numbers they stand for: a larger
/// exponent field, or the same exponent field and a larger fraction, is a
/// larger number. This is what lets the order of two numbers be read off
/// their encodings.
pub proof fn lemma_units_increase(m1: u64, m2: u64)
    requires
        m1 < m2,
        m2 < SIGN_BIT,
    ensures
        magnitude_units(m1) < magnitude_units(m2),
{
    let e1 = m1 / FRACTION_SPAN;
    let f1 = m1 % FRACTION_SPAN;
    let e2 = m2 / FRACTION_SPAN;
    let f2 = m2 % FRACTION_SPAN;
    let span = FRACTION_SPAN as int;
    if e1 == e2 {
        if e1 != 0 {
            let p = pow2((e1 - 1) as nat) as int;
            lemma_pow2_pos((e1 - 1) as nat);
            lemma_mul_strict_inequality(span + f1, span + f2, p);
        }
    } else {
        let p2 = pow2((e2 - 1) as nat) as int;
        lemma_pow2_pos((e2 - 1) as nat);
        lemma_mul_inequality(1, p2, span + f2);
        lemma_mul_inequality(span, span + f2, p2);
        assert(span * p2 <= magnitude_units(m2));
        if e1 != 0 {
            let p1 = pow2((e1 - 1) as nat) as int;
            lemma_pow2_pos((e1 - 1) as nat);
            lemma_pow2_unfold(e1 as nat);
            lemma_mul_strict_inequality(span + f1, 2 * span, p1);
            assert(2 * span * p1 == span * (2 * p1)) by (nonlinear_arith);
            if e1 < e2 - 1 {
                lemma_pow2_strictly_increases(e1 as nat, (e2 - 1) as nat);
            }
            lemma_mul_inequality(pow2(e1 as nat) as int, p2, span);
            assert(span * pow2(e1 as nat) == pow2(e1 as nat) * span) by (nonlinear_arith);
            assert(span * p2 == p2 * span) by (nonlinear_arith);
        }
    }
}

/// Whether the encoding is a NaN.
#[verifier::when_used_as_spec(spec_is_nan)]
pub fn is_nan(bits: u64) -> (r: bool)
    ensures
        r == spec_is_nan(bits),
{
    if bits >= SIGN_BIT {
        bits - SIGN_BIT > INFINITY
    } else {
        bits > INFINITY
    }
}

/// Whether the encoded number is greater than zero.
#[verifier::when_used_as_spec(spec_is_positive)]
pub fn is_positive(bits: u64) -> (r: bool)
    ensures
        r == spec_is_positive(bits),
{
    proof {
        if bits < SIGN_BIT {
            lemma_units_zero(bits);
        }
    }
    0 < bits && bits <= INFINITY
}

/// Whether the number encoded by `a` is less than the one encoded by `b`.
#[verifier::when_used_as_spec(spec_less_than)]
pub fn less_than(a: u64, b: u64) -> (r: bool)
    ensures
        r == spec_less_than(a, b),
{
    if is_nan(a) || is_nan(b) {
        return false;
    }
    let a_negative = a >= SIGN_BIT;
    let b_negative = b >= SIGN_BIT;
    let a_magnitude: u64 = if a_negative { a - SIGN_BIT } else { a };
    let b_magnitude: u64 = if b_negative { b - SIGN_BIT } else { b };
    proof {
        lemma_units_zero(a_magnitude);
        lemma_units_zero(b_magnitude);
        if a_magnitude < b_magnitude {
            lemma_units_increase(a_magnitude, b_magnitude);
        }
        if b_magnitude < a_magnitude {
            lemma_units_increase(b_magnitude, a_magnitude);
        }
    }
    if a_negative {
        if b_negative {
            b_magnitude < a_magnitude
        } else {
            a_magnitude != 0 || b_magnitude != 0
        }
    } else {
        if b_negative {
            false
        } else {
            a_magnitude < b_magnitude
        }
    }
}

} // verus!
