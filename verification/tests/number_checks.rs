use michaelator::number::{is_not_a_number, INFINITY_BITS, SIGN_BIT};

#[test]
fn constants_are_the_patterns_of_the_format() {
    assert_eq!(INFINITY_BITS, f32::INFINITY.to_bits());
    assert_eq!(SIGN_BIT, (-0.0f32).to_bits());
}

#[test]
fn ordinary_values_are_numbers() {
    for value in [0.0f32, -0.0, 1.0, -1.0, 20.0, f32::MAX, f32::MIN, f32::MIN_POSITIVE, 1e-45] {
        assert!(!is_not_a_number(value.to_bits()), "{}", value);
    }
}

#[test]
fn infinities_are_numbers() {
    assert!(!is_not_a_number(f32::INFINITY.to_bits()));
    assert!(!is_not_a_number(f32::NEG_INFINITY.to_bits()));
    assert!(!is_not_a_number((1.0f32 / 0.0).to_bits()));
}

#[test]
fn nan_is_not_a_number() {
    assert!(is_not_a_number(f32::NAN.to_bits()));
    assert!(is_not_a_number((-f32::NAN).to_bits()));
    assert!(is_not_a_number((0.0f32 / 0.0).to_bits()));
    assert!(is_not_a_number(0x7F80_0001));
    assert!(is_not_a_number(0xFF80_0001));
    assert!(is_not_a_number(0x7FFF_FFFF));
    assert!(is_not_a_number(0xFFFF_FFFF));
}

#[test]
fn agrees_with_the_format_on_a_sweep_of_patterns() {
    let mut bits: u32 = 0;
    loop {
        assert_eq!(is_not_a_number(bits), f32::from_bits(bits).is_nan(), "{:#x}", bits);
        match bits.checked_add(0x0000_FFF1) {
            Some(next) => bits = next,
            None => break,
        }
    }
    for bits in 0x7F7F_FF00u32..0x7F80_0100 {
        assert_eq!(is_not_a_number(bits), f32::from_bits(bits).is_nan());
        let negative = bits | 0x8000_0000;
        assert_eq!(is_not_a_number(negative), f32::from_bits(negative).is_nan());
    }
}
