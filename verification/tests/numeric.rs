//! Numbers and their literals.

use mssql_odbc::conversion::error::ConvError;
use mssql_odbc::conversion::numeric::{
    check_real_range, narrow_i128, number_chars, parse_decimal_literal, parse_numeric_text,
    parse_wide_decimal, NumericSource,
};

/// Reads a number's text with the double it parses to.
fn parse(text: &str) -> Result<NumericSource, ConvError> {
    let number: String = number_chars(text).into_iter().collect();
    parse_numeric_text(text, number.parse::<f64>().ok().map(f64::to_bits))
}

fn float(value: f64) -> NumericSource {
    NumericSource::Float { bits: value.to_bits() }
}

/// The double that a wide literal or a float holds.
fn double_of(source: NumericSource) -> f64 {
    match source {
        NumericSource::WideDecimal { approx_bits, .. } => f64::from_bits(approx_bits),
        NumericSource::Float { bits } => f64::from_bits(bits),
        _ => panic!("{source:?} holds no double"),
    }
}

fn narrow_f64_to_f32(value: f64) -> Result<f32, ConvError> {
    check_real_range(value.to_bits()).map(|()| value as f32)
}

#[test]
fn the_real_range_check_is_symmetric() {
    for v in [1e39f64, -1e39, 1e-40, -1e-40] {
        assert_eq!(
            narrow_f64_to_f32(v),
            Err(ConvError::OutOfRange),
            "value {v}"
        );
    }

    for v in [
        0.0f64,
        -0.0,
        f64::from(f32::MAX),
        f64::from(f32::MIN_POSITIVE),
        -f64::from(f32::MIN_POSITIVE),
    ] {
        assert!(narrow_f64_to_f32(v).is_ok(), "value {v}");
    }
}

#[test]
fn an_infinity_is_out_of_range_but_a_nan_is_not() {
    assert_eq!(narrow_f64_to_f32(f64::INFINITY), Err(ConvError::OutOfRange));
    assert_eq!(
        narrow_f64_to_f32(f64::NEG_INFINITY),
        Err(ConvError::OutOfRange)
    );
    assert!(narrow_f64_to_f32(f64::NAN).unwrap().is_nan());
}

#[test]
fn plain_decimal_literals_parse_exactly() {
    assert_eq!(
        parse_decimal_literal("-12.34"),
        Some(NumericSource::Scaled {
            mantissa: -1234,
            scale: 2
        })
    );
    assert_eq!(
        parse_decimal_literal("+7"),
        Some(NumericSource::Scaled {
            mantissa: 7,
            scale: 0
        })
    );
    assert_eq!(
        parse(" .5 ").unwrap(),
        NumericSource::Scaled {
            mantissa: 5,
            scale: 1
        }
    );
    assert_eq!(
        parse_decimal_literal("-0.01"),
        Some(NumericSource::Scaled {
            mantissa: -1,
            scale: 2
        })
    );
}

#[test]
fn non_decimal_text_is_rejected() {
    assert_eq!(parse_decimal_literal("1e3"), None);
    assert_eq!(parse_decimal_literal("abc"), None);
    assert_eq!(parse_decimal_literal(""), None);
    assert_eq!(parse_decimal_literal("-"), None);
}

#[test]
fn a_nul_ends_the_number_in_either_direction() {
    assert_eq!(
        parse("-42\u{0}").unwrap().to_i128_truncating(),
        Some((-42, false))
    );
    assert_eq!(
        parse("1\u{0}2").unwrap().to_i128_truncating(),
        Some((1, false))
    );
    assert_eq!(
        parse("\u{0}12"),
        Err(ConvError::InvalidCharacterValue)
    );
}

#[test]
fn a_wide_decimal_keeps_its_sign_through_underflow() {
    let tiny = format!("-0.{}{}", "0".repeat(400), "9".repeat(39));
    let source = parse(&tiny).unwrap();
    assert_eq!(double_of(source), -0.0, "precondition: underflows");
    assert!(source.is_negative());

    let zero = format!("-0.{}", "0".repeat(40));
    assert!(!parse(&zero).unwrap().is_negative());
}

#[test]
fn an_underflowing_exponent_loses_its_fraction_as_msodbcsql_does() {
    let plain = format!("0.{}1", "0".repeat(400));
    assert_eq!(
        parse(&plain).unwrap().to_i128_truncating(),
        Some((0, true)),
        "a plain literal keeps the digit walk"
    );
    assert_eq!(
        parse("1e-400").unwrap().to_i128_truncating(),
        Some((0, false)),
        "an exponent literal is whatever the double holds"
    );

    assert_eq!(
        parse("1e-320").unwrap().to_i128_truncating(),
        Some((0, true))
    );

    assert!(!parse("-1e-400").unwrap().is_negative());
}

#[test]
fn a_wide_decimal_keeps_its_value_for_float_targets() {
    let wide = "1.234567890123456789012345678901234567890";
    let source = parse(wide).unwrap();
    assert!(
        (double_of(source) - 1.234_567_890_123_456_7).abs() < 1e-15,
        "got {}",
        double_of(source)
    );
    assert_eq!(source.to_i128_truncating(), Some((1, true)));
    assert!(!source.is_negative());

    let negative = parse("-0.500000000000000000000000000000000000000001").unwrap();
    assert!((double_of(negative) + 0.5).abs() < 1e-15);
    assert_eq!(negative.to_i128_truncating(), Some((0, true)));
    assert!(negative.is_negative());
}

#[test]
fn truncation_toward_zero_reports_dropped_fraction() {
    let n = NumericSource::Scaled {
        mantissa: -1234,
        scale: 2,
    };
    assert_eq!(n.to_i128_truncating(), Some((-12, true)));
    assert!(n.is_negative());

    let exact = NumericSource::Scaled {
        mantissa: 1200,
        scale: 2,
    };
    assert_eq!(exact.to_i128_truncating(), Some((12, false)));
}

#[test]
fn scale_beyond_i128_pow_yields_zero_with_truncation() {
    let n = NumericSource::Scaled {
        mantissa: 5,
        scale: 40,
    };
    assert_eq!(n.to_i128_truncating(), Some((0, true)));
}

#[test]
fn non_finite_and_oversized_floats_are_unrepresentable() {
    assert_eq!(float(f64::NAN).to_i128_truncating(), None);
    assert_eq!(
        float(f64::INFINITY).to_i128_truncating(),
        None
    );
    assert_eq!(float(1e39).to_i128_truncating(), None);
}

#[test]
fn narrowing_out_of_range_is_reported_not_wrapped() {
    assert_eq!(narrow_i128::<i8>(127), Ok(127i8));
    assert_eq!(narrow_i128::<i8>(128), Err(ConvError::OutOfRange));
    assert_eq!(narrow_i128::<u8>(-1), Err(ConvError::OutOfRange));
}

#[test]
fn a_wide_decimal_needs_its_double() {
    let wide = "1.234567890123456789012345678901234567890";
    assert_eq!(parse_wide_decimal(wide, None), None);
    assert_eq!(
        parse_wide_decimal(wide, Some(1.5f64.to_bits())),
        Some(NumericSource::WideDecimal {
            approx_bits: 1.5f64.to_bits(),
            negative: false,
            int_part: 1,
            fraction_dropped: true,
        })
    );
}

#[test]
fn an_exact_decimal_ignores_its_double() {
    assert_eq!(
        parse_numeric_text("12.5", None),
        parse_numeric_text("12.5", Some(99.0f64.to_bits()))
    );
}

#[test]
fn doubles_are_truncated_exactly() {
    assert_eq!(float(-2.75).to_i128_truncating(), Some((-2, true)));
    assert_eq!(float(1e20).to_i128_truncating(), Some((100_000_000_000_000_000_000, false)));
    assert_eq!(float(2_251_799_813_685_248.5).to_i128_truncating(), Some((2_251_799_813_685_248, true)));
    assert_eq!(float(-1.7e38).to_i128_truncating().map(|(v, _)| v), Some(-1.7e38 as i128));
    assert_eq!(float(-0.0).to_i128_truncating(), Some((0, false)));
    assert!(!float(-0.0).is_negative());
    assert!(float(-5e-324).is_negative());
}

#[test]
fn text_that_is_no_number_is_refused() {
    for text in ["", "abc", "1,000", "0x10", "--1", "."] {
        assert_eq!(parse(text), Err(ConvError::InvalidCharacterValue), "{text:?}");
    }
}

#[test]
fn only_the_number_text_is_read() {
    for text in ["  12.5  ", "12.5\0junk", " 12.5 \0 7", "\t12.5", " 1 2 ", "", "   "] {
        let number: String = number_chars(text).into_iter().collect();
        assert_eq!(parse(text), parse(&number), "{text:?}");
    }
    for text in ["1 2", "\t1", "1\n", "\u{A0}1", "   ", ""] {
        for double in [None, Some(12.0), Some(f64::INFINITY), Some(f64::NAN)] {
            assert_eq!(
                parse_numeric_text(text, double.map(f64::to_bits)),
                Err(ConvError::InvalidCharacterValue),
                "{text:?}"
            );
        }
    }
}

#[test]
fn wide_decimals_truncate_as_exact_ones() {
    for text in ["-12.34", "12.00", "+0.5", "-.5", "-0.0", "7.", "-7.", "00.100"] {
        let exact = parse_decimal_literal(text).unwrap();
        let double = text.parse::<f64>().ok().map(f64::to_bits);
        let wide = parse_wide_decimal(text, double).unwrap();
        assert_eq!(wide.to_i128_truncating(), exact.to_i128_truncating(), "{text}");
        assert_eq!(wide.is_negative(), exact.is_negative(), "{text}");
    }
}
