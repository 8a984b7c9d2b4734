use pinch_keyboard::binary32::{Binary32, HIDDEN_BIT, INFINITY_BITS, QUANTUM_EXPONENT, SIGN_BIT};

fn single(x: f32) -> Binary32 {
    Binary32::from_bits(x.to_bits())
}

fn notable_values() -> Vec<f32> {
    vec![
        0.0,
        -0.0,
        f32::from_bits(1),
        -f32::from_bits(1),
        f32::from_bits(0x007f_ffff),
        f32::MIN_POSITIVE,
        -f32::MIN_POSITIVE,
        0.01,
        0.02,
        0.03,
        0.05,
        0.06,
        0.5,
        1.0,
        -1.0,
        1.5,
        2.0,
        1000.0,
        -1000.0,
        16_777_216.0,
        f32::MAX,
        f32::MIN,
        f32::INFINITY,
        f32::NEG_INFINITY,
        f32::NAN,
        -f32::NAN,
        f32::from_bits(0x7f80_0001),
        f32::from_bits(0xffff_ffff),
    ]
}

/// A fixed stream of 32-bit patterns that visits every exponent.
fn next_pattern(state: &mut u64) -> u32 {
    *state = state.wrapping_mul(6364136223846793005).wrapping_add(1442695040888963407);
    (*state >> 32) as u32
}

#[test]
fn constants_describe_the_format() {
    assert_eq!(SIGN_BIT, (-0.0f32).to_bits());
    assert_eq!(INFINITY_BITS, f32::INFINITY.to_bits());
    assert_eq!(HIDDEN_BIT, 1 << (f32::MANTISSA_DIGITS - 1));
    assert_eq!(f32::from_bits(1) as f64, 2.0f64.powi(-(QUANTUM_EXPONENT as i32)));
}

#[test]
fn bits_round_trip() {
    for x in notable_values() {
        assert_eq!(single(x).to_bits(), x.to_bits());
        assert_eq!(single(x).bits, x.to_bits());
    }
}

#[test]
fn abs_bits_clears_the_sign() {
    for x in notable_values() {
        assert_eq!(single(x).abs_bits(), x.to_bits() & 0x7fff_ffff);
    }
}

#[test]
fn classification_matches_the_hardware() {
    for x in notable_values() {
        let s = single(x);
        assert_eq!(s.is_nan(), x.is_nan(), "is_nan of {:#x}", x.to_bits());
        assert_eq!(s.is_finite(), x.is_finite(), "is_finite of {:#x}", x.to_bits());
        assert_eq!(s.is_sign_negative(), x.is_sign_negative(), "sign of {:#x}", x.to_bits());
    }
}

#[test]
fn classification_matches_the_hardware_on_many_patterns() {
    let mut state: u64 = 1;
    for _ in 0..200_000 {
        let bits = next_pattern(&mut state);
        let x = f32::from_bits(bits);
        let s = Binary32::from_bits(bits);
        assert_eq!(s.is_nan(), x.is_nan());
        assert_eq!(s.is_finite(), x.is_finite());
        assert_eq!(s.is_sign_negative(), x.is_sign_negative());
    }
}

#[test]
fn less_than_matches_the_hardware_on_notable_values() {
    for a in notable_values() {
        for b in notable_values() {
            assert_eq!(
                single(a).lt(single(b)),
                a < b,
                "{:#x} < {:#x}",
                a.to_bits(),
                b.to_bits()
            );
        }
    }
}

#[test]
fn less_than_matches_the_hardware_on_many_patterns() {
    let mut state: u64 = 7;
    for _ in 0..200_000 {
        let a = next_pattern(&mut state);
        let b = next_pattern(&mut state);
        assert_eq!(
            Binary32::from_bits(a).lt(Binary32::from_bits(b)),
            f32::from_bits(a) < f32::from_bits(b),
            "{:#x} < {:#x}",
            a,
            b
        );
    }
}

#[test]
fn less_than_matches_the_hardware_on_neighbours() {
    let mut state: u64 = 11;
    for _ in 0..100_000 {
        let a = next_pattern(&mut state);
        for b in [a.wrapping_sub(1), a, a.wrapping_add(1), a ^ 0x8000_0000] {
            assert_eq!(
                Binary32::from_bits(a).lt(Binary32::from_bits(b)),
                f32::from_bits(a) < f32::from_bits(b),
                "{:#x} < {:#x}",
                a,
                b
            );
        }
    }
}

#[test]
fn zeros_are_equal_and_nan_is_unordered() {
    assert!(!single(-0.0).lt(single(0.0)));
    assert!(!single(0.0).lt(single(-0.0)));
    assert!(!single(f32::NAN).lt(single(1.0)));
    assert!(!single(1.0).lt(single(f32::NAN)));
    assert!(!single(f32::NAN).lt(single(f32::NAN)));
    assert!(single(f32::NEG_INFINITY).lt(single(f32::MIN)));
    assert!(single(f32::MAX).lt(single(f32::INFINITY)));
    assert!(!single(f32::INFINITY).lt(single(f32::INFINITY)));
}

#[test]
fn equality_is_equality_of_patterns() {
    assert_eq!(single(1.5), single(1.5));
    assert_ne!(single(0.0), single(-0.0));
}
