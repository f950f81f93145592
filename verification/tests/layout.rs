use float16::F16;

#[test]
fn constants_have_their_words() {
    assert_eq!(F16::zero().to_bits(), 0x0000);
    assert_eq!(F16::max_value().to_bits(), 0x7fff);
    assert_eq!(F16::min_value().to_bits(), 0xffff);
    assert_eq!(F16::min_positive().to_bits(), 0x0001);
    assert_eq!(F16::max_negative().to_bits(), 0x8000);
    assert_eq!(F16::ZERO_BITS, 0x0000);
    assert_eq!(F16::MAX_BITS, 0x7fff);
    assert_eq!(F16::MIN_BITS, 0xffff);
    assert_eq!(F16::MIN_POSITIVE_BITS, 0x0001);
    assert_eq!(F16::MAX_NEGATIVE_BITS, 0x8000);
}

#[test]
fn masks_cover_the_word() {
    assert_eq!(F16::SIGN_MASK, 0x8000);
    assert_eq!(F16::EXPONENT_MASK, 0x7f00);
    assert_eq!(F16::MANTISSA_MASK, 0x00ff);
    assert_eq!(F16::SIGN_MASK | F16::EXPONENT_MASK | F16::MANTISSA_MASK, 0xffff);
    assert_eq!(F16::EXPONENT_BIAS, 64);
    assert_eq!(F16::MANTISSA_BITS, 8);
}

#[test]
fn sign_bit_stays_in_place() {
    assert_eq!(F16::from_bits(0x0000).sign_bit(), 0);
    assert_eq!(F16::from_bits(0x7fff).sign_bit(), 0);
    assert_eq!(F16::from_bits(0x8000).sign_bit(), 0x8000);
    assert_eq!(F16::from_bits(0xffff).sign_bit(), 0x8000);
    assert_eq!(F16::from_bits(0xc123).sign_bit(), 0x8000);
}

#[test]
fn exponent_is_unbiased() {
    assert_eq!(F16::from_bits(0x0000).exponent(), -64);
    assert_eq!(F16::from_bits(0x8000).exponent(), -64);
    assert_eq!(F16::from_bits(0x0001).exponent(), -64);
    assert_eq!(F16::from_bits(0x4000).exponent(), 0);
    assert_eq!(F16::from_bits(0x4100).exponent(), 1);
    assert_eq!(F16::from_bits(0x3fff).exponent(), -1);
    assert_eq!(F16::from_bits(0x7fff).exponent(), 63);
    assert_eq!(F16::from_bits(0xffff).exponent(), 63);
    assert_eq!(F16::from_bits(0x7f00).exponent(), 63);
}

#[test]
fn mantissa_bits_are_the_low_byte() {
    assert_eq!(F16::from_bits(0x0000).mantissa_bits(), 0x00);
    assert_eq!(F16::from_bits(0x0001).mantissa_bits(), 0x01);
    assert_eq!(F16::from_bits(0x7fff).mantissa_bits(), 0xff);
    assert_eq!(F16::from_bits(0xc123).mantissa_bits(), 0x23);
    assert_eq!(F16::from_bits(0x8000).mantissa_bits(), 0x00);
}

#[test]
fn fields_make_up_the_word() {
    for bits in 0..=u16::MAX {
        let value = F16::from_bits(bits);
        let exponent = value.exponent();
        assert!((-64..=63).contains(&exponent));
        let word = value.sign_bit() | (((exponent + 64) as u16) << 8) | value.mantissa_bits();
        assert_eq!(word, bits);
    }
}

#[test]
fn equality_is_equality_of_words() {
    assert!(F16::from_bits(0x1234) == F16::from_bits(0x1234));
    assert!(F16::from_bits(0x0000) != F16::from_bits(0x8000));
    assert!(F16::from_bits(0x1234) != F16::from_bits(0x1235));
    let value = F16::from_bits(0x4242);
    let copy = value;
    assert!(value == copy);
    assert!(value.clone() == copy);
}
