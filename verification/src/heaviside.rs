//! The Heaviside step on complex numbers in IEEE 754 binary64, taken by their
//! bit patterns.
//!
//! A binary64 number is a sign bit, eleven bits of exponent and fifty-two bits
//! of fraction. The step looks at the real part alone: it is one where the
//! real part is greater than zero, a value of the caller's choice where it is
//! zero, and zero everywhere else, which takes in the negative numbers and
//! the values that are no number. The result is real.
use vstd::prelude::*;

verus! {

/// The bit pattern of `1.0`.
pub const ONE: u64 = 0x3ff0_0000_0000_0000;

/// The bit pattern of `0.0`.
pub const ZERO: u64 = 0;

/// The bit pattern of positive infinity, the largest pattern of a positive
/// number.
pub const INFINITY: u64 = 0x7ff0_0000_0000_0000;

/// The sign bit of a pattern: 1 for a negative number.
pub open spec fn sign(bits: u64) -> int {
    bits as int / 0x8000_0000_0000_0000
}

/// The exponent field of a pattern.
pub open spec fn exponent(bits: u64) -> int {
    (bits as int / 0x10_0000_0000_0000) % 0x800
}

/// The fraction field of a pattern.
pub open spec fn fraction(bits: u64) -> int {
    bits as int % 0x10_0000_0000_0000
}

/// Whether the pattern is no number: all exponent bits set and a fraction
/// that is not zero.
pub open spec fn is_nan(bits: u64) -> bool {
    exponent(bits) == 0x7ff && fraction(bits) != 0
}

/// Whether the pattern is zero, of either sign.
pub open spec fn is_zero(bits: u64) -> bool {
    exponent(bits) == 0 && fraction(bits) == 0
}

/// Whether the pattern is a number greater than zero.
pub open spec fn is_positive(bits: u64) -> bool {
    sign(bits) == 0 && !is_zero(bits) && !is_nan(bits)
}

/// Whether the pattern is a number less than zero.
pub open spec fn is_negative(bits: u64) -> bool {
    sign(bits) == 1 && !is_zero(bits) && !is_nan(bits)
}

/// The real part of the step of a number with the real part `re`.
pub open spec fn step(re: u64, zero_val: u64) -> u64 {
    if is_positive(re) {
        ONE
    } else if is_zero(re) {
        zero_val
    } else {
        ZERO
    }
}

/// The Heaviside step of the complex number `re + im i`, as the pair of its
/// real and imaginary part. `zero_val` is the value at zero.
pub fn heaviside(re: u64, im: u64, zero_val: u64) -> (r: (u64, u64))
    ensures
        r.0 == step(re, zero_val),
        r.1 == ZERO,
{
    if 0 < re && re <= INFINITY {
        (ONE, ZERO)
    } else if re == 0 || re == 0x8000_0000_0000_0000 {
        (zero_val, ZERO)
    } else {
        (ZERO, ZERO)
    }
}

/// With zero as the value at zero, the step is one for a real part greater
/// than zero and zero for a real part that is zero or less than zero. The
/// imaginary part of the argument has no say, and that of the result is zero.
pub proof fn lemma_step(re: u64)
    ensures
        is_positive(re) ==> step(re, ZERO) == ONE,
        is_zero(re) ==> step(re, ZERO) == ZERO,
        is_negative(re) ==> step(re, ZERO) == ZERO,
        is_positive(re) || is_zero(re) || is_negative(re) || is_nan(re),
{
}

} // verus!
