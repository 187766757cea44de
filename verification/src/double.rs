//! Double-precision values by their IEEE 754 binary64 encoding.
//!
//! A search compares values, takes absolute values and tells finite values
//! from the others.  All of this can be read off the encoding, and is here.
//! Sums, differences and quotients cannot; a search takes them from its
//! caller.

use vstd::prelude::*;
use vstd::arithmetic::power2::{
    lemma_pow2_pos, lemma_pow2_strictly_increases, lemma_pow2_unfold, pow2,
};

verus! {

/// The sign bit of the encoding.
pub const SIGN_BIT: u64 = 0x8000_0000_0000_0000;

/// The encoding of positive infinity: every exponent bit set, no fraction bit.
pub const INFINITY_BITS: u64 = 0x7ff0_0000_0000_0000;

/// The encoding of the quiet NaN that a failed search returns.
pub const NAN_BITS: u64 = 0x7ff8_0000_0000_0000;

/// Two to the fifty-second: the number of fractions, and the weight of the
/// exponent field in the encoding.
pub const FRACTIONS: u64 = 0x0010_0000_0000_0000;

/// A double-precision value, held by its encoding: one sign bit, eleven
/// exponent bits and fifty-two fraction bits, from the highest bit down.
#[derive(Clone, Copy, Debug)]
pub struct Double {
    pub bits: u64,
}

impl Double {
    /// The quiet NaN that stands for a failed search.
    pub open spec fn spec_nan() -> Double {
        Double { bits: NAN_BITS }
    }

    /// Positive zero.
    pub open spec fn spec_zero() -> Double {
        Double { bits: 0 }
    }

    /// Whether the sign bit is set.
    pub open spec fn spec_is_sign_negative(self) -> bool {
        self.bits >= SIGN_BIT
    }

    /// The encoding without its sign bit: exponent field and fraction field.
    pub open spec fn magnitude(self) -> u64 {
        if self.bits >= SIGN_BIT {
            (self.bits - SIGN_BIT) as u64
        } else {
            self.bits
        }
    }

    /// The exponent field of the encoding.
    pub open spec fn exponent(self) -> nat {
        (self.magnitude() / FRACTIONS) as nat
    }

    /// The fraction field of the encoding.
    pub open spec fn fraction(self) -> nat {
        (self.magnitude() % FRACTIONS) as nat
    }

    /// Not a number: every exponent bit is set, and some fraction bit is.
    pub open spec fn spec_is_nan(self) -> bool {
        self.magnitude() > INFINITY_BITS
    }

    /// Neither infinite nor NaN: some exponent bit is clear.
    pub open spec fn spec_is_finite(self) -> bool {
        self.magnitude() < INFINITY_BITS
    }

    /// The absolute value of a finite double in units of `2^-1074`, the
    /// smallest positive double.  A subnormal, with exponent field 0, is its
    /// fraction in these units; a normal is `2^52` and its fraction, times
    /// two to the exponent field less one.
    pub open spec fn scaled_magnitude(self) -> nat {
        if self.exponent() == 0 {
            self.fraction()
        } else {
            ((FRACTIONS + self.fraction()) * pow2((self.exponent() - 1) as nat)) as nat
        }
    }

    /// The value of a finite double in units of `2^-1074`.
    pub open spec fn scaled_value(self) -> int {
        if self.spec_is_sign_negative() {
            -(self.scaled_magnitude() as int)
        } else {
            self.scaled_magnitude() as int
        }
    }

    /// The place of a value that is not NaN among all such values: the
    /// magnitude, taken negative under a set sign bit.  Both zeros have
    /// rank 0, and the infinities have the two outermost ranks.
    pub open spec fn rank(self) -> int {
        if self.spec_is_sign_negative() {
            -(self.magnitude() as int)
        } else {
            self.magnitude() as int
        }
    }

    /// The absolute value: the same encoding with the sign bit cleared.
    pub open spec fn spec_abs(self) -> Double {
        Double { bits: self.magnitude() }
    }

    /// The order `<` of the values: false whenever a side is NaN, and
    /// otherwise the order of the ranks.
    pub open spec fn spec_lt(self, other: Double) -> bool {
        &&& !self.spec_is_nan()
        &&& !other.spec_is_nan()
        &&& self.rank() < other.rank()
    }

    /// The value with the given encoding.
    pub fn from_bits(bits: u64) -> (value: Double)
        ensures
            value.bits == bits,
    {
        Double { bits }
    }

    /// The encoding of the value.
    pub fn to_bits(self) -> (bits: u64)
        ensures
            bits == self.bits,
    {
        self.bits
    }

    /// The quiet NaN that stands for a failed search.
    #[verifier::when_used_as_spec(spec_nan)]
    pub fn nan() -> (value: Double)
        ensures
            value == Double::spec_nan(),
    {
        Double { bits: NAN_BITS }
    }

    /// Positive zero.
    #[verifier::when_used_as_spec(spec_zero)]
    pub fn zero() -> (value: Double)
        ensures
            value == Double::spec_zero(),
    {
        Double { bits: 0 }
    }

    /// Whether the sign bit is set, as it also is in `-0.0` and may be in NaN.
    #[verifier::when_used_as_spec(spec_is_sign_negative)]
    pub fn is_sign_negative(self) -> (negative: bool)
        ensures
            negative == self.spec_is_sign_negative(),
    {
        self.bits >= SIGN_BIT
    }

    /// The absolute value.
    #[verifier::when_used_as_spec(spec_abs)]
    pub fn abs(self) -> (value: Double)
        ensures
            value == self.spec_abs(),
    {
        if self.bits >= SIGN_BIT {
            Double { bits: self.bits - SIGN_BIT }
        } else {
            self
        }
    }

    /// Whether the value is NaN.
    #[verifier::when_used_as_spec(spec_is_nan)]
    pub fn is_nan(self) -> (nan: bool)
        ensures
            nan == self.spec_is_nan(),
    {
        self.abs().bits > INFINITY_BITS
    }

    /// Whether the value is neither infinite nor NaN.
    #[verifier::when_used_as_spec(spec_is_finite)]
    pub fn is_finite(self) -> (finite: bool)
        ensures
            finite == self.spec_is_finite(),
    {
        self.abs().bits < INFINITY_BITS
    }

    /// Whether the value is less than `other`.  NaN is less than nothing and
    /// nothing is less than NaN; the two zeros are equal.
    #[verifier::when_used_as_spec(spec_lt)]
    pub fn lt(self, other: Double) -> (less: bool)
        ensures
            less == self.spec_lt(other),
    {
        if self.is_nan() || other.is_nan() {
            return false;
        }
        let a: u64 = self.abs().bits;
        let b: u64 = other.abs().bits;
        if self.is_sign_negative() {
            if other.is_sign_negative() {
                b < a
            } else {
                a != 0 || b != 0
            }
        } else {
            !other.is_sign_negative() && a < b
        }
    }
}

/// Among finite doubles the larger magnitude encodes the larger absolute
/// value.
pub proof fn lemma_magnitude_orders_absolute_values(a: Double, b: Double)
    requires
        a.is_finite(),
        b.is_finite(),
        a.magnitude() < b.magnitude(),
    ensures
        a.scaled_magnitude() < b.scaled_magnitude(),
{
    let (ea, fa) = (a.exponent(), a.fraction());
    let (eb, fb) = (b.exponent(), b.fraction());
    let p = FRACTIONS as nat;
    if ea == eb {
        if ea > 0 {
            let w = pow2((ea - 1) as nat);
            lemma_pow2_pos((ea - 1) as nat);
            assert((p + fa) * w < (p + fb) * w) by (nonlinear_arith)
                requires
                    fa < fb,
                    w > 0,
            ;
        }
    } else {
        // `a` stays under `2^52` times the weight `wa`, and `b`, whose
        // exponent field is higher, reaches `2^52` times a weight `wb` that
        // is no smaller.
        let wa = if ea == 0 {
            1nat
        } else {
            pow2(ea)
        };
        let wb = pow2((eb - 1) as nat);
        lemma_pow2_pos((eb - 1) as nat);
        if ea > 0 {
            let w = pow2((ea - 1) as nat);
            lemma_pow2_pos((ea - 1) as nat);
            lemma_pow2_unfold(ea);
            assert((p + fa) * w < p * (2 * w)) by (nonlinear_arith)
                requires
                    fa < p,
                    w > 0,
            ;
            if ea < eb - 1 {
                lemma_pow2_strictly_increases(ea, (eb - 1) as nat);
            }
        }
        assert(a.scaled_magnitude() < p * wa);
        assert(p * wa <= (p + fb) * wb) by (nonlinear_arith)
            requires
                wa <= wb,
                0 <= fb,
        ;
    }
}

/// Deciding on encodings is deciding on values: among finite doubles `lt` is
/// the order of the values, and `lt` of the absolute values the order of the
/// absolute values.
pub proof fn lemma_lt_is_the_order_of_the_values(a: Double, b: Double)
    requires
        a.is_finite(),
        b.is_finite(),
    ensures
        a.lt(b) <==> a.scaled_value() < b.scaled_value(),
        a.abs().lt(b.abs()) <==> a.scaled_magnitude() < b.scaled_magnitude(),
{
    if a.magnitude() < b.magnitude() {
        lemma_magnitude_orders_absolute_values(a, b);
    }
    if b.magnitude() < a.magnitude() {
        lemma_magnitude_orders_absolute_values(b, a);
    }
    // Only the zeros have magnitude 0, and only they have the value 0.
    let zero = Double::zero();
    assert(zero.magnitude() == 0 && zero.scaled_magnitude() == 0);
    if a.magnitude() > 0 {
        lemma_magnitude_orders_absolute_values(zero, a);
    }
    if b.magnitude() > 0 {
        lemma_magnitude_orders_absolute_values(zero, b);
    }
    assert(a.abs().magnitude() == a.magnitude());
    assert(b.abs().magnitude() == b.magnitude());
}

/// Beyond the finite: positive infinity lies above every other value that is
/// not NaN and under none, negative infinity under every other and above
/// none, and NaN neither under nor above anything.
pub proof fn lemma_lt_beyond_the_finite(a: Double, b: Double)
    ensures
        b.bits == INFINITY_BITS ==> !b.lt(a) && (a.lt(b) <==> !a.is_nan() && a.bits != b.bits),
        b.bits == SIGN_BIT + INFINITY_BITS ==> !a.lt(b) && (b.lt(a) <==> !a.is_nan() && a.bits
            != b.bits),
        a.is_nan() || b.is_nan() ==> !a.lt(b),
{
}

} // verus!
