use float16::binary32;
use float16::binary64;

const SAMPLES_32: [u32; 24] = [
    0x0000_0000,
    0x8000_0000,
    0x0000_0001,
    0x8000_0001,
    0x007f_ffff,
    0x0080_0000,
    0x807f_ffff,
    0x8080_0000,
    0x1f80_0000,
    0x1f80_8000,
    0x9f80_0000,
    0x3f80_0000,
    0xbf80_0000,
    0x3f80_0001,
    0x4000_0000,
    0x5f7f_8000,
    0xdf7f_8000,
    0x7f7f_ffff,
    0xff7f_ffff,
    0x7f80_0000,
    0xff80_0000,
    0x7f80_0001,
    0x7fc0_0000,
    0xffff_ffff,
];

const SAMPLES_64: [u64; 24] = [
    0x0000_0000_0000_0000,
    0x8000_0000_0000_0000,
    0x0000_0000_0000_0001,
    0x8000_0000_0000_0001,
    0x000f_ffff_ffff_ffff,
    0x0010_0000_0000_0000,
    0x800f_ffff_ffff_ffff,
    0x8010_0000_0000_0000,
    0x3bf0_0000_0000_0000,
    0x3bf0_1000_0000_0000,
    0xbbf0_0000_0000_0000,
    0x3ff0_0000_0000_0000,
    0xbff0_0000_0000_0000,
    0x3ff0_0000_0000_0001,
    0x4000_0000_0000_0000,
    0x43ef_f000_0000_0000,
    0xc3ef_f000_0000_0000,
    0x7fef_ffff_ffff_ffff,
    0xffef_ffff_ffff_ffff,
    0x7ff0_0000_0000_0000,
    0xfff0_0000_0000_0000,
    0x7ff0_0000_0000_0001,
    0x7ff8_0000_0000_0000,
    0xffff_ffff_ffff_ffff,
];

#[test]
fn binary32_constants() {
    assert_eq!(binary32::INFINITY, f32::INFINITY.to_bits());
    assert_eq!(binary32::NEG_INFINITY, f32::NEG_INFINITY.to_bits());
    assert_eq!(binary32::SIGN_MASK, 0x8000_0000);
    assert_eq!(binary32::ABS_MASK, 0x7fff_ffff);
    assert_eq!(binary32::EXPONENT_MASK, 0x7f80_0000);
    assert_eq!(binary32::HIDDEN_BIT, 1 << 23);
    assert_eq!(binary32::EXPONENT_BIAS, 127);
}

#[test]
fn binary64_constants() {
    assert_eq!(binary64::INFINITY, f64::INFINITY.to_bits());
    assert_eq!(binary64::NEG_INFINITY, f64::NEG_INFINITY.to_bits());
    assert_eq!(binary64::SIGN_MASK, 0x8000_0000_0000_0000);
    assert_eq!(binary64::ABS_MASK, 0x7fff_ffff_ffff_ffff);
    assert_eq!(binary64::EXPONENT_MASK, 0x7ff0_0000_0000_0000);
    assert_eq!(binary64::HIDDEN_BIT, 1 << 52);
    assert_eq!(binary64::EXPONENT_BIAS, 1023);
}

#[test]
fn binary32_classes() {
    for bits in SAMPLES_32 {
        let value = f32::from_bits(bits);
        assert_eq!(binary32::is_finite(bits), value.is_finite(), "{:08x}", bits);
        assert_eq!(binary32::is_nan(bits), value.is_nan(), "{:08x}", bits);
    }
    let mut bits: u32 = 0;
    loop {
        let value = f32::from_bits(bits);
        assert_eq!(binary32::is_finite(bits), value.is_finite(), "{:08x}", bits);
        assert_eq!(binary32::is_nan(bits), value.is_nan(), "{:08x}", bits);
        match bits.checked_add(65_521) {
            Some(next) => bits = next,
            None => break,
        }
    }
}

#[test]
fn binary64_classes() {
    for bits in SAMPLES_64 {
        let value = f64::from_bits(bits);
        assert_eq!(binary64::is_finite(bits), value.is_finite(), "{:016x}", bits);
        assert_eq!(binary64::is_nan(bits), value.is_nan(), "{:016x}", bits);
    }
    let mut bits: u64 = 0;
    loop {
        let value = f64::from_bits(bits);
        assert_eq!(binary64::is_finite(bits), value.is_finite(), "{:016x}", bits);
        assert_eq!(binary64::is_nan(bits), value.is_nan(), "{:016x}", bits);
        match bits.checked_add(0x0000_0100_0000_fff1) {
            Some(next) => bits = next,
            None => break,
        }
    }
}

#[test]
fn binary32_order_is_the_order_of_floats() {
    for a in SAMPLES_32 {
        for b in SAMPLES_32 {
            let (x, y) = (f32::from_bits(a), f32::from_bits(b));
            assert_eq!(binary32::lt(a, b), x < y, "{:08x} {:08x}", a, b);
            assert_eq!(binary32::le(a, b), x <= y, "{:08x} {:08x}", a, b);
        }
    }
}

#[test]
fn binary64_order_is_the_order_of_floats() {
    for a in SAMPLES_64 {
        for b in SAMPLES_64 {
            let (x, y) = (f64::from_bits(a), f64::from_bits(b));
            assert_eq!(binary64::lt(a, b), x < y, "{:016x} {:016x}", a, b);
            assert_eq!(binary64::le(a, b), x <= y, "{:016x} {:016x}", a, b);
        }
    }
}

#[test]
fn binary32_order_on_a_sweep() {
    let mut a: u32 = 0;
    let mut b: u32 = 0x9e37_79b9;
    for _ in 0..200_000 {
        let (x, y) = (f32::from_bits(a), f32::from_bits(b));
        assert_eq!(binary32::lt(a, b), x < y, "{:08x} {:08x}", a, b);
        assert_eq!(binary32::le(a, b), x <= y, "{:08x} {:08x}", a, b);
        a = a.wrapping_mul(1_664_525).wrapping_add(1_013_904_223);
        b = b.wrapping_mul(22_695_477).wrapping_add(1);
    }
}

#[test]
fn binary64_order_on_a_sweep() {
    let mut a: u64 = 0;
    let mut b: u64 = 0x9e37_79b9_7f4a_7c15;
    for _ in 0..200_000 {
        let (x, y) = (f64::from_bits(a), f64::from_bits(b));
        assert_eq!(binary64::lt(a, b), x < y, "{:016x} {:016x}", a, b);
        assert_eq!(binary64::le(a, b), x <= y, "{:016x} {:016x}", a, b);
        a = a.wrapping_mul(6_364_136_223_846_793_005).wrapping_add(1_442_695_040_888_963_407);
        b = b.wrapping_mul(2_862_933_555_777_941_757).wrapping_add(3_037_000_493);
    }
}

#[test]
fn ordinals() {
    assert_eq!(binary32::ordinal(0x0000_0000), 0);
    assert_eq!(binary32::ordinal(0x8000_0000), 0);
    assert_eq!(binary32::ordinal(0x0000_0001), 1);
    assert_eq!(binary32::ordinal(0x8000_0001), -1);
    assert_eq!(binary32::ordinal(0x3f80_0000), 0x3f80_0000);
    assert_eq!(binary32::ordinal(0xbf80_0000), -0x3f80_0000);
    assert_eq!(binary32::ordinal(0xffff_ffff), -0x7fff_ffff);
    assert_eq!(binary64::ordinal(0x0000_0000_0000_0000), 0);
    assert_eq!(binary64::ordinal(0x8000_0000_0000_0000), 0);
    assert_eq!(binary64::ordinal(0x8000_0000_0000_0001), -1);
    assert_eq!(binary64::ordinal(0x3ff0_0000_0000_0000), 0x3ff0_0000_0000_0000);
    assert_eq!(binary64::ordinal(0xbff0_0000_0000_0000), -0x3ff0_0000_0000_0000);
    assert_eq!(binary64::ordinal(0xffff_ffff_ffff_ffff), -0x7fff_ffff_ffff_ffff);
}
