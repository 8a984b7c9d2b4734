//! Folding the scroll accumulator into a position of the alphabet.
//!
//! The accumulator is an unbounded real number. Its scroll position is the
//! floor of one and a half times its value, and the selected position of the
//! alphabet is that floor modulo the alphabet's length, never negative.
//!
//! The product is the one that single-precision multiplication yields: it is
//! rounded to 24 significant binary digits, a tie going to the even
//! neighbour, before it is floored. The format's limits of range are not
//! applied to it. Below them this changes no floor, since every product
//! that small lies strictly between minus one and one; above them single
//! precision has no number for the product, and the position here is that
//! of the rounded product all the same.
use vstd::prelude::*;
use vstd::arithmetic::div_mod::{
    lemma_div_multiples_vanish,
    lemma_fundamental_div_mod,
    lemma_fundamental_div_mod_converse,
    lemma_basic_div,
    lemma_mul_mod_noop_general,
    lemma_small_mod,
};
use vstd::arithmetic::power2::{
    pow2,
    lemma2_to64,
    lemma_pow2_adds,
    lemma_pow2_pos,
    lemma_pow2_strictly_increases,
    lemma_pow2_unfold,
};
use vstd::bits::{lemma_u64_pow2_no_overflow, lemma_u64_shl_is_mul};
use crate::alphabet::ALPHABET_LEN;
use crate::binary32::{Binary32, Number, HIDDEN_BIT, QUANTUM_EXPONENT};

verus! {

/// The gain from accumulator to scroll position is
/// `INDEX_GAIN_NUMERATOR / INDEX_GAIN_DENOMINATOR`, one and a half.
pub const INDEX_GAIN_NUMERATOR: u32 = 3;

/// See [`INDEX_GAIN_NUMERATOR`]. The computation relies on its being two.
pub const INDEX_GAIN_DENOMINATOR: u32 = 2;

/// The number of significant binary digits that single precision holds.
pub const PRECISION: u32 = 24;

/// The number of binary digits of `n`; zero has none.
pub open spec fn bit_length(n: nat) -> nat
    decreases n,
{
    if n == 0 {
        0
    } else {
        1 + bit_length(n / 2)
    }
}

/// `n` rounded to the nearest multiple of `2^drop`. Where `n` lies midway
/// between two multiples, the one that is an even multiple is taken.
pub open spec fn round_half_even(n: nat, drop: nat) -> nat {
    let step = pow2(drop);
    let below = n / step;
    let rest = n % step;
    if 2 * rest < step || (2 * rest == step && below % 2 == 0) {
        below * step
    } else {
        (below + 1) * step
    }
}

/// `n` rounded to its `PRECISION` leading binary digits.
pub open spec fn round_to_precision(n: nat) -> nat {
    let digits = bit_length(n);
    if digits > PRECISION {
        round_half_even(n, (digits - PRECISION) as nat)
    } else {
        n
    }
}

/// The floor of the index gain times the real number of `quanta` quanta of
/// `2^-149`, the product being rounded to single precision before it is
/// floored.
pub open spec fn scroll_position(quanta: int) -> int {
    let size = if quanta < 0 {
        -quanta
    } else {
        quanta
    };
    // The size of the product, in halves of a quantum.
    let halves = round_to_precision((INDEX_GAIN_NUMERATOR * size) as nat) as int;
    (if quanta < 0 {
        -halves
    } else {
        halves
    }) / (INDEX_GAIN_DENOMINATOR * pow2(QUANTUM_EXPONENT as nat))
}

/// The position of the alphabet that a finite accumulator selects.
pub open spec fn index_of(accumulator: Number) -> int
    recommends
        accumulator is Finite,
{
    scroll_position(accumulator->quanta) % (ALPHABET_LEN as int)
}

/// The selected position lies in the alphabet, whatever the accumulator.
pub proof fn lemma_index_in_alphabet(accumulator: Number)
    ensures
        0 <= index_of(accumulator) < ALPHABET_LEN,
{
}

/// A number below `2^digits` has at most `digits` binary digits.
pub proof fn lemma_bit_length_at_most(n: nat, digits: nat)
    requires
        n < pow2(digits),
    ensures
        bit_length(n) <= digits,
    decreases digits,
{
    if digits == 0 {
        lemma2_to64();
    } else if n > 0 {
        lemma_pow2_unfold(digits);
        lemma_bit_length_at_most(n / 2, (digits - 1) as nat);
    }
}

/// A number from `2^(digits - 1)` up to, but not including, `2^digits` has `digits` binary digits.
pub proof fn lemma_bit_length(n: nat, digits: nat)
    requires
        digits >= 1,
        pow2((digits - 1) as nat) <= n < pow2(digits),
    ensures
        bit_length(n) == digits,
    decreases digits,
{
    lemma_pow2_unfold(digits);
    if digits == 1 {
        lemma2_to64();
        assert(bit_length(1) == 1 + bit_length(0));
    } else {
        lemma_pow2_unfold((digits - 1) as nat);
        lemma_bit_length(n / 2, (digits - 1) as nat);
    }
}

/// Rounding commutes with scaling by a power of two.
pub proof fn lemma_round_scales(count: nat, drop: nat, shift: nat)
    ensures
        round_half_even(count * pow2(shift), drop + shift) == round_half_even(count, drop) * pow2(
            shift,
        ),
{
    let unit = pow2(shift) as int;
    let step = pow2(drop) as int;
    let wide = pow2(drop + shift) as int;
    let c = count as int;
    let below = c / step;
    let rest = c % step;
    lemma_pow2_pos(shift);
    lemma_pow2_pos(drop);
    lemma_pow2_adds(drop, shift);
    lemma_fundamental_div_mod(c, step);
    assert(c * unit == below * wide + rest * unit) by (nonlinear_arith)
        requires
            c == step * below + rest,
            wide == step * unit,
    ;
    assert(0 <= rest * unit < wide) by (nonlinear_arith)
        requires
            0 <= rest < step,
            0 < unit,
            wide == step * unit,
    ;
    lemma_fundamental_div_mod_converse(c * unit, wide, below, rest * unit);
    assert((2 * (rest * unit) < wide) == (2 * rest < step)) by (nonlinear_arith)
        requires
            0 < unit,
            wide == step * unit,
    ;
    assert((2 * (rest * unit) == wide) == (2 * rest == step)) by (nonlinear_arith)
        requires
            0 < unit,
            wide == step * unit,
    ;
    assert(below * wide == (below * step) * unit) by (nonlinear_arith)
        requires
            wide == step * unit,
    ;
    assert((below + 1) * wide == ((below + 1) * step) * unit) by (nonlinear_arith)
        requires
            wide == step * unit,
    ;
}

/// Rounding a product to single precision rounds the factor that carries
/// the digits: for `count` of at most 26 digits, scaled by a power of two.
pub proof fn lemma_round_product(count: nat, shift: nat)
    requires
        count < 0x400_0000,
        count < 0x100_0000 ==> shift == 0,
    ensures
        round_to_precision(count * pow2(shift)) == round_to_precision(count) * pow2(shift),
{
    lemma2_to64();
    let unit = pow2(shift);
    if count < 0x100_0000 {
        assert(count * unit == count) by (nonlinear_arith)
            requires
                unit == 1,
        ;
        assert(round_to_precision(count) * unit == round_to_precision(count)) by (nonlinear_arith)
            requires
                unit == 1,
        ;
    } else {
        let digits: nat = if count < 0x200_0000 {
            25
        } else {
            26
        };
        lemma_bit_length(count, digits);
        lemma_pow2_pos(shift);
        lemma_pow2_adds((digits - 1) as nat, shift);
        lemma_pow2_adds(digits, shift);
        assert(pow2((digits - 1) as nat) * unit <= count * unit < pow2(digits) * unit)
            by (nonlinear_arith)
            requires
                pow2((digits - 1) as nat) <= count < pow2(digits),
                0 < unit,
        ;
        lemma_bit_length(count * unit, digits + shift);
        lemma_round_scales(count, (digits - PRECISION) as nat, shift);
    }
}

/// `count` rounded to single precision.
fn round_to_single(count: u64) -> (rounded: u64)
    requires
        count < 0x300_0000,
    ensures
        rounded == round_to_precision(count as nat),
        rounded < 0x400_0000,
{
    proof {
        lemma2_to64();
    }
    if count < 0x100_0000 {
        proof {
            lemma_bit_length_at_most(count as nat, 24);
        }
        return count;
    }
    let step: u64 = if count < 0x200_0000 {
        2
    } else {
        4
    };
    proof {
        if count < 0x200_0000 {
            lemma_bit_length(count as nat, 25);
        } else {
            lemma_bit_length(count as nat, 26);
        }
    }
    let below: u64 = count / step;
    let rest: u64 = count % step;
    assert(below * step + rest == count && (below + 1) * step == below * step + step)
        by (nonlinear_arith)
        requires
            below == count / step,
            rest == count % step,
            step > 0,
    ;
    if 2 * rest < step || (2 * rest == step && below % 2 == 0) {
        below * step
    } else {
        (below + 1) * step
    }
}

/// Two to the power `exponent`.
fn power_of_two(exponent: u32) -> (power: u64)
    requires
        exponent < 64,
    ensures
        power == pow2(exponent as nat),
{
    proof {
        lemma_u64_pow2_no_overflow(exponent as nat);
        lemma_u64_shl_is_mul(1, exponent as u64);
    }
    1u64 << (exponent as u64)
}

/// Two to the power `exponent`, reduced modulo `modulus`.
fn power_of_two_mod(exponent: u32, modulus: u64) -> (residue: u64)
    requires
        0 < modulus <= 0x8000_0000,
    ensures
        residue == pow2(exponent as nat) % (modulus as nat),
        residue < modulus,
{
    proof {
        lemma2_to64();
    }
    let mut residue: u64 = 1 % modulus;
    let mut done: u32 = 0;
    while done < exponent
        invariant
            done <= exponent,
            0 < modulus <= 0x8000_0000,
            residue == pow2(done as nat) % (modulus as nat),
        decreases exponent - done,
    {
        proof {
            lemma_pow2_unfold((done + 1) as nat);
            lemma_mul_mod_noop_general(2, pow2(done as nat) as int, modulus as int);
        }
        residue = (2 * residue) % modulus;
        done = done + 1;
    }
    residue
}

/// Dividing `count * 2^shift` by `2^(shift + down)` leaves the quotient of
/// `count` by `2^down`: exactly that for a positive dividend, and its
/// negation rounded towards minus infinity for a negative one.
proof fn lemma_floor_of_scaled(count: nat, shift: nat, down: nat)
    ensures
        (count as int * pow2(shift)) / (pow2(shift + down) as int) == count as int / (pow2(
            down,
        ) as int),
        (-(count as int * pow2(shift))) / (pow2(shift + down) as int) == if count as int % (pow2(
            down,
        ) as int) == 0 {
            -(count as int / (pow2(down) as int))
        } else {
            -(count as int / (pow2(down) as int)) - 1
        },
{
    let unit = pow2(shift) as int;
    let step = pow2(down) as int;
    let whole = pow2(shift + down) as int;
    let c = count as int;
    lemma_pow2_pos(shift);
    lemma_pow2_pos(down);
    lemma_pow2_adds(shift, down);
    let q = c / step;
    let r = c % step;
    lemma_fundamental_div_mod(c, step);
    assert(c * unit == q * whole + r * unit) by (nonlinear_arith)
        requires
            c == step * q + r,
            whole == unit * step,
    ;
    assert(0 <= r * unit < whole) by (nonlinear_arith)
        requires
            0 <= r < step,
            0 < unit,
            whole == unit * step,
    ;
    lemma_fundamental_div_mod_converse(c * unit, whole, q, r * unit);
    if r == 0 {
        assert(-(c * unit) == (-q) * whole + 0) by (nonlinear_arith)
            requires
                c * unit == q * whole + r * unit,
                r == 0,
        ;
        lemma_fundamental_div_mod_converse(-(c * unit), whole, -q, 0);
    } else {
        assert(-(c * unit) == (-q - 1) * whole + (whole - r * unit)) by (nonlinear_arith)
            requires
                c * unit == q * whole + r * unit,
        ;
        assert(0 < r * unit) by (nonlinear_arith)
            requires
                0 < r,
                0 < unit,
        ;
        lemma_fundamental_div_mod_converse(-(c * unit), whole, -q - 1, whole - r * unit);
    }
}

/// The position of the alphabet that a finite accumulator selects:
/// the floor of one and a half times its value, modulo the alphabet's length.
pub fn selection_index(accumulator: Binary32) -> (index: usize)
    requires
        accumulator.is_finite(),
    ensures
        index == index_of(accumulator@),
        index < ALPHABET_LEN,
{
    let pattern: u32 = accumulator.abs_bits();
    let negative: bool = accumulator.is_sign_negative();
    let exponent: u32 = pattern / HIDDEN_BIT;
    let fraction: u32 = pattern % HIDDEN_BIT;
    let significand: u64 = if exponent == 0 {
        fraction as u64
    } else {
        HIDDEN_BIT as u64 + fraction as u64
    };
    let shift: u32 = if exponent == 0 {
        0
    } else {
        exponent - 1
    };
    // One and a half times the magnitude is `exact * 2^shift` halves of a
    // quantum, which single precision holds as `count * 2^shift`.
    let exact: u64 = INDEX_GAIN_NUMERATOR as u64 * significand;
    let count: u64 = round_to_single(exact);
    let halves: u32 = QUANTUM_EXPONENT + 1;
    let length: u64 = ALPHABET_LEN as u64;

    let ghost magnitude = accumulator.magnitude() as int;
    let ghost unit = pow2(shift as nat) as int;
    let ghost whole = pow2(halves as nat) as int;
    proof {
        lemma_pow2_unfold(halves as nat);
        assert(whole == INDEX_GAIN_DENOMINATOR * pow2(QUANTUM_EXPONENT as nat));
        assert(INDEX_GAIN_NUMERATOR * magnitude == exact * unit) by (nonlinear_arith)
            requires
                magnitude == significand * unit,
                exact == INDEX_GAIN_NUMERATOR * significand,
        ;
        lemma_round_product(exact as nat, shift as nat);
    }

    if shift >= halves {
        // The scroll position is the whole number `count * 2^(shift - halves)`.
        let up: u32 = shift - halves;
        let low: u64 = count % length;
        let power: u64 = power_of_two_mod(up, length);
        assert(low * power < length * length) by (nonlinear_arith)
            requires
                low < length,
                power < length,
        ;
        let residue: u64 = (low * power) % length;
        proof {
            let factor = pow2(up as nat) as int;
            let position = count * factor;
            lemma_pow2_adds(up as nat, halves as nat);
            lemma_pow2_pos(halves as nat);
            assert(count * unit == whole * position) by (nonlinear_arith)
                requires
                    unit == factor * whole,
                    position == count * factor,
            ;
            assert(-(count * unit) == whole * (-position)) by (nonlinear_arith)
                requires
                    count * unit == whole * position,
            ;
            lemma_div_multiples_vanish(position, whole);
            lemma_div_multiples_vanish(-position, whole);
            lemma_mul_mod_noop_general(count as int, factor, length as int);
        }
        if negative && residue != 0 {
            (length - residue) as usize
        } else {
            residue as usize
        }
    } else {
        // The scroll position is `count / 2^down`, rounded towards minus infinity.
        let down: u32 = halves - shift;
        proof {
            lemma_floor_of_scaled(count as nat, shift as nat, down as nat);
            lemma2_to64();
            if down > 26 {
                lemma_pow2_strictly_increases(26, down as nat);
            }
        }
        let mut floor: u64 = 0;
        let mut exact: bool = count == 0;
        if down < 26 {
            let step: u64 = power_of_two(down);
            floor = count / step;
            exact = count % step == 0;
        } else {
            proof {
                lemma_basic_div(count as int, pow2(down as nat) as int);
                lemma_small_mod(count as nat, pow2(down as nat));
            }
        }
        if negative {
            let ceiling: u64 = if exact {
                floor
            } else {
                floor + 1
            };
            let residue: u64 = ceiling % length;
            if residue != 0 {
                (length - residue) as usize
            } else {
                0
            }
        } else {
            (floor % length) as usize
        }
    }
}

} // verus!
