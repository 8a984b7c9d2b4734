//! IEEE 754 binary32 numbers, held and examined as bit patterns.
//!
//! Tracked positions and distances arrive as single-precision numbers. This
//! module never computes with them in floating point: it reads the sign,
//! exponent and fraction fields of a pattern with integer arithmetic, and
//! states what it decides in terms of the exact number the pattern denotes.
use vstd::prelude::*;
use vstd::arithmetic::power2::{
    pow2,
    lemma2_to64,
    lemma_pow2_pos,
    lemma_pow2_strictly_increases,
    lemma_pow2_unfold,
};

verus! {

/// The bit that holds the sign.
pub const SIGN_BIT: u32 = 0x8000_0000;

/// The pattern of positive infinity. With the sign bit cleared, larger
/// patterns are NaNs and smaller ones are finite numbers.
pub const INFINITY_BITS: u32 = 0x7f80_0000;

/// Two to the power 23: the number of values the fraction field can take,
/// and the weight of the implicit leading bit of a normal number.
pub const HIDDEN_BIT: u32 = 0x0080_0000;

/// Every finite binary32 number is a whole multiple of two to the power
/// minus `QUANTUM_EXPONENT`, the smallest positive subnormal number.
pub const QUANTUM_EXPONENT: u32 = 149;

/// What a bit pattern denotes.
pub enum Number {
    /// Not a number: ordered with nothing, itself included.
    Nan,
    /// Positive or negative infinity.
    Infinite { negative: bool },
    /// The real number `quanta / 2^149`. Both zeros have `quanta == 0`.
    Finite { quanta: int },
}

impl Number {
    /// IEEE 754 `<`: the usual order of the extended reals, false whenever a NaN takes part.
    pub open spec fn lt(self, other: Number) -> bool {
        match (self, other) {
            (Number::Finite { quanta: a }, Number::Finite { quanta: b }) => a < b,
            (Number::Finite { .. }, Number::Infinite { negative }) => !negative,
            (Number::Infinite { negative }, Number::Finite { .. }) => negative,
            (Number::Infinite { negative: a }, Number::Infinite { negative: b }) => a && !b,
            _ => false,
        }
    }
}

/// A binary32 number as its 32-bit pattern: one sign bit, eight exponent
/// bits, twenty-three fraction bits.
#[derive(Clone, Copy, Debug, PartialEq, Eq, Structural)]
pub struct Binary32 {
    pub bits: u32,
}

impl View for Binary32 {
    type V = Number;

    /// What the pattern denotes.
    open spec fn view(&self) -> Number {
        if self.is_nan() {
            Number::Nan
        } else if self.abs_bits() == INFINITY_BITS {
            Number::Infinite { negative: self.is_sign_negative() }
        } else if self.is_sign_negative() {
            Number::Finite { quanta: -(self.magnitude() as int) }
        } else {
            Number::Finite { quanta: self.magnitude() as int }
        }
    }
}

impl Binary32 {
    /// The pattern with the sign bit cleared.
    pub open spec fn spec_abs_bits(self) -> u32 {
        if self.bits >= SIGN_BIT {
            (self.bits - SIGN_BIT) as u32
        } else {
            self.bits
        }
    }

    /// Whether the sign bit is set.
    pub open spec fn spec_is_sign_negative(self) -> bool {
        self.bits >= SIGN_BIT
    }

    /// Whether the pattern is a NaN: all exponent bits set and a fraction that is not zero.
    pub open spec fn spec_is_nan(self) -> bool {
        self.abs_bits() > INFINITY_BITS
    }

    /// Whether the pattern denotes a real number: not all exponent bits are set.
    pub open spec fn spec_is_finite(self) -> bool {
        self.abs_bits() < INFINITY_BITS
    }

    /// The exponent field, from 0 (zero and subnormals) to 255 (infinity and NaN).
    pub open spec fn biased_exponent(self) -> nat {
        (self.abs_bits() / HIDDEN_BIT) as nat
    }

    /// The fraction field.
    pub open spec fn fraction(self) -> nat {
        (self.abs_bits() % HIDDEN_BIT) as nat
    }

    /// The fraction, with the implicit leading bit where the number is normal.
    pub open spec fn significand(self) -> nat {
        if self.biased_exponent() == 0 {
            self.fraction()
        } else {
            HIDDEN_BIT as nat + self.fraction()
        }
    }

    /// The power of two by which the significand is multiplied, counted in quanta.
    pub open spec fn quantum_shift(self) -> nat {
        if self.biased_exponent() == 0 {
            0
        } else {
            (self.biased_exponent() - 1) as nat
        }
    }

    /// The absolute value of a finite number, in quanta of `2^-149`.
    pub open spec fn magnitude(self) -> nat {
        self.significand() * pow2(self.quantum_shift())
    }

    /// The number with the given pattern.
    pub fn from_bits(bits: u32) -> (number: Binary32)
        ensures
            number.bits == bits,
    {
        Binary32 { bits }
    }

    /// The pattern of the number.
    pub fn to_bits(self) -> (bits: u32)
        ensures
            bits == self.bits,
    {
        self.bits
    }

    /// The pattern with the sign bit cleared.
    #[verifier::when_used_as_spec(spec_abs_bits)]
    pub fn abs_bits(self) -> (bits: u32)
        ensures
            bits == self.spec_abs_bits(),
    {
        if self.bits >= SIGN_BIT {
            self.bits - SIGN_BIT
        } else {
            self.bits
        }
    }

    /// Whether the sign bit is set; it may be set on a zero or a NaN too.
    #[verifier::when_used_as_spec(spec_is_sign_negative)]
    pub fn is_sign_negative(self) -> (negative: bool)
        ensures
            negative == self.spec_is_sign_negative(),
    {
        self.bits >= SIGN_BIT
    }

    /// Whether the pattern is a NaN.
    #[verifier::when_used_as_spec(spec_is_nan)]
    pub fn is_nan(self) -> (nan: bool)
        ensures
            nan == self.spec_is_nan(),
            nan <==> self@ is Nan,
    {
        self.abs_bits() > INFINITY_BITS
    }

    /// Whether the pattern denotes a real number: neither a NaN nor an infinity.
    #[verifier::when_used_as_spec(spec_is_finite)]
    pub fn is_finite(self) -> (finite: bool)
        ensures
            finite == self.spec_is_finite(),
            finite <==> self@ is Finite,
    {
        self.abs_bits() < INFINITY_BITS
    }

    /// IEEE 754 `<` on the numbers that two patterns denote.
    pub fn lt(self, other: Binary32) -> (less: bool)
        ensures
            less == self@.lt(other@),
    {
        if self.is_nan() || other.is_nan() {
            return false;
        }
        proof {
            lemma_magnitude_order(self, other);
            lemma_magnitude_order(other, self);
        }
        let a: u32 = self.abs_bits();
        let b: u32 = other.abs_bits();
        if self.is_sign_negative() {
            if other.is_sign_negative() {
                b < a
            } else {
                a != 0 || b != 0
            }
        } else {
            if other.is_sign_negative() {
                false
            } else {
                a < b
            }
        }
    }
}

/// Among finite numbers, a larger pattern (sign aside) is a larger absolute value.
pub proof fn lemma_magnitude_increases(a: Binary32, b: Binary32)
    requires
        a.is_finite(),
        b.is_finite(),
        a.abs_bits() < b.abs_bits(),
    ensures
        a.magnitude() < b.magnitude(),
{
    let ea = a.biased_exponent();
    let eb = b.biased_exponent();
    let sa = a.significand();
    let sb = b.significand();
    let pa = pow2(a.quantum_shift());
    let pb = pow2(b.quantum_shift());
    let base: nat = HIDDEN_BIT as nat;
    lemma_pow2_pos(a.quantum_shift());
    lemma_pow2_pos(b.quantum_shift());
    if ea == eb {
        assert(sa * pa < sb * pa) by (nonlinear_arith)
            requires
                sa < sb,
                pa > 0,
        ;
    } else {
        assert(base * pb <= sb * pb) by (nonlinear_arith)
            requires
                base <= sb,
                pb > 0,
        ;
        if ea == 0 {
            assert(pa == 1) by {
                lemma2_to64();
            }
            assert(sa * pa == sa) by (nonlinear_arith)
                requires
                    pa == 1,
            ;
            assert(base <= base * pb) by (nonlinear_arith)
                requires
                    1 <= pb,
            ;
        } else {
            assert(sa * pa < (2 * base) * pa) by (nonlinear_arith)
                requires
                    sa < 2 * base,
                    pa > 0,
            ;
            lemma_pow2_unfold(ea);
            assert((2 * base) * pa == base * pow2(ea)) by (nonlinear_arith)
                requires
                    pow2(ea) == 2 * pa,
            ;
            if ea < eb - 1 {
                lemma_pow2_strictly_increases(ea, (eb - 1) as nat);
            }
            assert(base * pow2(ea) <= base * pb) by (nonlinear_arith)
                requires
                    pow2(ea) <= pb,
            ;
        }
    }
}

/// Among finite numbers, absolute values are ordered as the patterns are (sign
/// aside), and only a cleared pattern denotes zero.
pub proof fn lemma_magnitude_order(a: Binary32, b: Binary32)
    ensures
        a.is_finite() && b.is_finite() ==> (a.abs_bits() < b.abs_bits() <==> a.magnitude()
            < b.magnitude()),
        a.is_finite() ==> (a.abs_bits() == 0 <==> a.magnitude() == 0),
{
    if a.is_finite() {
        if b.is_finite() {
            if a.abs_bits() < b.abs_bits() {
                lemma_magnitude_increases(a, b);
            } else if b.abs_bits() < a.abs_bits() {
                lemma_magnitude_increases(b, a);
            }
        }
        let zero = Binary32 { bits: 0 };
        assert(zero.magnitude() == 0) by {
            assert(0 * pow2(zero.quantum_shift()) == 0);
        }
        if a.abs_bits() != 0 {
            lemma_magnitude_increases(zero, a);
        }
    }
}

} // verus!
