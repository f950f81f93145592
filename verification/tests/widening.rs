use float16::F16;

fn formula(bits: u16) -> f64 {
    if bits == 0 {
        return 0.0;
    }
    let sign = if bits & 0x8000 != 0 { -1.0 } else { 1.0 };
    let exponent = i32::from((bits >> 8) & 0x7f) - 64;
    let mantissa = f64::from(bits & 0xff);
    sign * 2f64.powi(exponent) * (1.0 + mantissa / 256.0)
}

#[test]
fn widened_f32_patterns() {
    assert_eq!(F16::zero().to_f32_bits(), 0x0000_0000);
    assert_eq!(F16::max_value().to_f32_bits(), 0x5f7f_8000);
    assert_eq!(F16::min_value().to_f32_bits(), 0xdf7f_8000);
    assert_eq!(F16::min_positive().to_f32_bits(), 0x1f80_8000);
    assert_eq!(F16::max_negative().to_f32_bits(), 0x9f80_0000);
    assert_eq!(F16::from_bits(0x4000).to_f32_bits(), 0x3f80_0000);
    assert_eq!(F16::from_bits(0x4080).to_f32_bits(), 0x3fc0_0000);
    assert_eq!(F16::from_bits(0xc100).to_f32_bits(), 0xc000_0000);
    assert_eq!(F16::from_bits(0x4549).to_f32_bits(), 0x4224_8000);
}

#[test]
fn widened_f64_patterns() {
    assert_eq!(F16::zero().to_f64_bits(), 0x0000_0000_0000_0000);
    assert_eq!(F16::max_value().to_f64_bits(), 0x43ef_f000_0000_0000);
    assert_eq!(F16::min_value().to_f64_bits(), 0xc3ef_f000_0000_0000);
    assert_eq!(F16::min_positive().to_f64_bits(), 0x3bf0_1000_0000_0000);
    assert_eq!(F16::max_negative().to_f64_bits(), 0xbbf0_0000_0000_0000);
    assert_eq!(F16::from_bits(0x4000).to_f64_bits(), 0x3ff0_0000_0000_0000);
    assert_eq!(F16::from_bits(0x4080).to_f64_bits(), 0x3ff8_0000_0000_0000);
    assert_eq!(F16::from_bits(0xc100).to_f64_bits(), 0xc000_0000_0000_0000);
    assert_eq!(F16::from_bits(0x4549).to_f64_bits(), 0x4044_9000_0000_0000);
}

#[test]
fn widened_values() {
    assert_eq!(f32::from_bits(F16::from_bits(0x4000).to_f32_bits()), 1.0);
    assert_eq!(f32::from_bits(F16::from_bits(0x4080).to_f32_bits()), 1.5);
    assert_eq!(f32::from_bits(F16::from_bits(0xc100).to_f32_bits()), -2.0);
    assert_eq!(f32::from_bits(F16::from_bits(0x4549).to_f32_bits()), 41.125);
    assert_eq!(f64::from_bits(F16::from_bits(0x4549).to_f64_bits()), 41.125);
    assert_eq!(f64::from_bits(F16::from_bits(0x3f00).to_f64_bits()), 0.5);
    assert_eq!(f64::from_bits(F16::max_negative().to_f64_bits()), -(2f64.powi(-64)));
    assert_eq!(
        f64::from_bits(F16::max_value().to_f64_bits()),
        2f64.powi(63) * (511.0 / 256.0)
    );
}

#[test]
fn widening_matches_the_formula() {
    for bits in 0..=u16::MAX {
        let value = F16::from_bits(bits);
        let expected = formula(bits);
        assert_eq!(f64::from_bits(value.to_f64_bits()), expected, "{:016b}", bits);
        assert_eq!(f64::from(f32::from_bits(value.to_f32_bits())), expected, "{:016b}", bits);
    }
}

#[test]
fn widening_keeps_the_order() {
    let mut previous = f64::from_bits(F16::from_bits(0xffff).to_f64_bits());
    for bits in (0x8000..0xffffu16).rev() {
        let next = f64::from_bits(F16::from_bits(bits).to_f64_bits());
        assert!(previous < next, "{:016b}", bits);
        previous = next;
    }
    for bits in 0x0000..=0x7fffu16 {
        let next = f64::from_bits(F16::from_bits(bits).to_f64_bits());
        assert!(previous < next, "{:016b}", bits);
        previous = next;
    }
}
