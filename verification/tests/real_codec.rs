use gdsr::number::Real;
use gdsr::utils::gds_format::{eight_byte_real, eight_byte_real_to_float, u64_to_be_bytes};

fn as_real(value: f64) -> Real {
    Real::from_bits(value.to_bits())
}

fn number(value: Real) -> f64 {
    f64::from_bits(value.to_bits())
}

fn word(bytes: [u8; 8]) -> u64 {
    u64::from_be_bytes(bytes)
}

/// The encoding by the formula of the format, in floating point: the exponent is the
/// ceiling of a quarter of the binary logarithm, one more where that is whole, and the
/// mantissa is the value scaled to fifty-six bits.
fn by_formula(value: f64) -> [u8; 8] {
    if value == 0.0 {
        return [0; 8];
    }
    let magnitude = value.abs();
    let quarter = magnitude.log2() / 4.0;
    let mut exponent = quarter.ceil() as i32;
    if quarter == exponent as f64 {
        exponent += 1;
    }
    let mantissa = (magnitude * 16f64.powi(14 - exponent)).round() as u64;
    let sign: u64 = if value < 0.0 { 1 << 63 } else { 0 };
    (sign | (((exponent + 64) as u64) << 56) | mantissa).to_be_bytes()
}

#[test]
fn one_is_encoded_as_the_format_says() {
    assert_eq!(eight_byte_real(as_real(1.0)), Some([0x41, 0x10, 0, 0, 0, 0, 0, 0]));
    assert_eq!(eight_byte_real(as_real(-1.0)), Some([0xC1, 0x10, 0, 0, 0, 0, 0, 0]));
    assert_eq!(eight_byte_real(as_real(2.0)), Some([0x41, 0x20, 0, 0, 0, 0, 0, 0]));
    assert_eq!(eight_byte_real(as_real(16.0)), Some([0x42, 0x10, 0, 0, 0, 0, 0, 0]));
    assert_eq!(eight_byte_real(as_real(0.5)), Some([0x40, 0x80, 0, 0, 0, 0, 0, 0]));
    assert_eq!(eight_byte_real(as_real(90.0)), Some([0x42, 0x5A, 0, 0, 0, 0, 0, 0]));
}

#[test]
fn both_zeros_are_the_zero_word() {
    assert_eq!(eight_byte_real(as_real(0.0)), Some([0; 8]));
    assert_eq!(eight_byte_real(as_real(-0.0)), Some([0; 8]));
    assert_eq!(eight_byte_real_to_float(0).to_bits(), 0);
}

#[test]
fn common_units_are_encoded_as_the_format_says() {
    assert_eq!(
        eight_byte_real(as_real(1e-3)),
        Some([0x3E, 0x41, 0x89, 0x37, 0x4B, 0xC6, 0xA7, 0xF0])
    );
    assert_eq!(word(eight_byte_real(as_real(1e-9)).unwrap()) >> 56, 0x39);
}

#[test]
fn encoding_agrees_with_the_formula() {
    let values = [
        1.0, -1.0, 0.001, 1e-6, 1e-9, 1e-10, 1e-4, 3.5, 45.0, 90.0, 180.0, 270.0, 359.999,
        1234.5678, -0.75, 2.0, 1e10, 6.02e23, 1e60, 1e-60, 15.999999, 16.0, 255.0, 256.0,
    ];
    for value in values {
        assert_eq!(eight_byte_real(as_real(value)), Some(by_formula(value)), "{}", value);
    }
}

#[test]
fn decoding_undoes_encoding() {
    let values = [
        0.0, 1.0, -1.0, 0.001, 1e-6, 1e-9, 1e-10, 1e-4, 3.5, 45.0, 90.0, 1234.5678, -0.75,
        1e10, 6.02e23, 1e60, 1e-60, -1e-70, 1e75, 7.2e75, 5.4e-79,
        std::f64::consts::PI, -std::f64::consts::E, 0.1, 0.2, 0.3,
    ];
    for value in values {
        let bytes = eight_byte_real(as_real(value)).unwrap();
        let back = eight_byte_real_to_float(word(bytes));
        assert_eq!(number(back), value, "{}", value);
        assert_eq!(back.to_bits(), value.to_bits(), "{}", value);
    }
}

#[test]
fn what_the_format_cannot_hold_is_refused() {
    assert_eq!(eight_byte_real(as_real(f64::NAN)), None);
    assert_eq!(eight_byte_real(as_real(f64::INFINITY)), None);
    assert_eq!(eight_byte_real(as_real(f64::NEG_INFINITY)), None);
    assert_eq!(eight_byte_real(as_real(f64::MIN_POSITIVE / 2.0)), None);
    assert_eq!(eight_byte_real(as_real(1e-80)), None);
    assert_eq!(eight_byte_real(as_real(1e76)), None);
    assert_eq!(eight_byte_real(as_real(f64::MAX)), None);
}

#[test]
fn the_bounds_of_the_format_are_held() {
    let smallest = 2f64.powi(-260);
    let below = 2f64.powi(-261);
    let largest = 2f64.powi(252) * (1.0 - 2f64.powi(-53));
    let above = 2f64.powi(252);
    assert_eq!(eight_byte_real(as_real(smallest)), Some([0x00, 0x10, 0, 0, 0, 0, 0, 0]));
    assert_eq!(eight_byte_real(as_real(below)), None);
    assert_eq!(
        eight_byte_real(as_real(largest)),
        Some([0x7F, 0xFF, 0xFF, 0xFF, 0xFF, 0xFF, 0xFF, 0xF8])
    );
    assert_eq!(eight_byte_real(as_real(above)), None);
    assert_eq!(number(eight_byte_real_to_float(0x0010_0000_0000_0000)), smallest);
    assert_eq!(number(eight_byte_real_to_float(0x7FFF_FFFF_FFFF_FFF8)), largest);
}

#[test]
fn decoding_takes_the_nearest_double() {
    assert_eq!(number(eight_byte_real_to_float(0x4110_0000_0000_0000)), 1.0);
    assert_eq!(number(eight_byte_real_to_float(0xC110_0000_0000_0000)), -1.0);
    assert_eq!(number(eight_byte_real_to_float(0x4101_0000_0000_0000)), 0.0625);
    assert_eq!(number(eight_byte_real_to_float(0x4100_0000_0000_0001)), 2f64.powi(-52));
    assert_eq!(number(eight_byte_real_to_float(0x41FF_FFFF_FFFF_FFFF)), 16.0);
    assert_eq!(
        number(eight_byte_real_to_float(0x41FF_FFFF_FFFF_FFFB)),
        16.0 - 2f64.powi(-49)
    );
    assert_eq!(number(eight_byte_real_to_float(0x41FF_FFFF_FFFF_FFFC)), 16.0);
    assert_eq!(
        number(eight_byte_real_to_float(0x4180_0000_0000_0004)),
        8.0
    );
    assert_eq!(
        number(eight_byte_real_to_float(0x4180_0000_0000_000C)),
        8.0 + 2f64.powi(-48)
    );
    assert_eq!(eight_byte_real_to_float(0x8000_0000_0000_0000).to_bits(), 1 << 63);
    assert_eq!(eight_byte_real_to_float(0x7F00_0000_0000_0000).to_bits(), 0);
}

#[test]
fn decoding_agrees_with_floating_point() {
    let words: [u64; 8] = [
        0x3E41_8937_4BC6_A7EF,
        0x3944_B82F_A09B_5A54,
        0x4112_3456_789A_BCDE,
        0xC2FF_EEDD_CCBB_AA99,
        0x0000_0000_0000_0001,
        0x7FFF_FFFF_FFFF_FFFF,
        0x4000_0000_0FFF_FFFF,
        0x41F0_0000_0000_0007,
    ];
    for word in words {
        let mantissa = (word & 0x00FF_FFFF_FFFF_FFFF) as f64 / 72057594037927936.0;
        let exponent = ((word >> 56) & 0x7F) as i32 - 64;
        let mut expected = mantissa * 16f64.powi(exponent);
        if word >> 63 == 1 {
            expected = -expected;
        }
        assert_eq!(number(eight_byte_real_to_float(word)), expected, "{:#x}", word);
    }
}

#[test]
fn words_are_laid_out_most_significant_byte_first() {
    assert_eq!(u64_to_be_bytes(0x0102_0304_0506_0708), [1, 2, 3, 4, 5, 6, 7, 8]);
}

#[test]
fn numbers_are_compared_as_numbers() {
    assert!(as_real(0.0).same_number(&as_real(-0.0)));
    assert!(!as_real(f64::NAN).same_number(&as_real(f64::NAN)));
    assert!(as_real(1.5).same_number(&as_real(1.5)));
    assert!(!as_real(1.5).same_number(&as_real(-1.5)));
    assert!(as_real(-0.0).is_zero());
    assert!(!as_real(1e-300).is_zero());
    assert!(as_real(1.0).is_one());
    assert!(as_real(f64::NAN).is_nan());
    assert!(!as_real(f64::INFINITY).is_nan());
    assert_eq!(Real::one().to_bits(), 1f64.to_bits());
    assert_eq!(Real::zero().to_bits(), 0);
}
