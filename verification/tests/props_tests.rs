use kube_quantity::{parse_quantity_string, Format, ParseQuantityError, ParsedQuantity, Scale};
use rust_decimal::Decimal;

#[test]
fn test_empty_string_error() {
    let q = parse_quantity_string("");
    assert!(matches!(q, Err(ParseQuantityError::EmptyString)));
    assert_eq!(q.unwrap_err().message(), "empty string");
}

#[test]
fn test_parsing_failed_error() {
    let q = parse_quantity_string("1.25.123K");
    assert!(matches!(q, Err(ParseQuantityError::ParsingFailed(_))));

    let q = parse_quantity_string("1.5.0");
    assert!(matches!(q, Err(ParseQuantityError::ParsingFailed(_))));

    let q = parse_quantity_string("5Kix");
    assert!(matches!(q, Err(ParseQuantityError::ParsingFailed(_))));

    let q = parse_quantity_string("hello");
    assert!(matches!(q, Err(ParseQuantityError::ParsingFailed(_))));
}

#[test]
fn test_decimal_parsing_failed_error() {
    let q = parse_quantity_string("nan");
    assert!(matches!(q, Err(ParseQuantityError::DecimalParsingFailed)));
    assert_eq!(q.unwrap_err().message(), "decimal parsing failed");

    let q = parse_quantity_string("inf");
    assert!(matches!(q, Err(ParseQuantityError::DecimalParsingFailed)));
}

#[test]
fn test_round_trip_simple() {
    for s in [
        "1.25Ki", "100m", "1250000", "0", "-5", "-1.25Mi", "3Gi", "4Ti", "5Pi", "7k", "8M",
        "9G", "10T", "11P", "0.5", "2.75", "-0.125k",
    ] {
        let q = parse_quantity_string(s).unwrap();
        assert_eq!(q.to_string(), s);
    }
}

#[test]
fn test_exa_suffix_after_digits_is_rejected() {
    // After digits, `E` reads as an exponent marker with no digits, so the
    // exa suffixes are reachable only without a mantissa.
    assert!(matches!(
        parse_quantity_string("12E"),
        Err(ParseQuantityError::ParsingFailed(_))
    ));
    assert!(matches!(
        parse_quantity_string("6Ei"),
        Err(ParseQuantityError::ParsingFailed(_))
    ));
    let q = parse_quantity_string("Ei").unwrap();
    assert_eq!(q.scale, Scale::Exa);
    assert_eq!(q.format, Format::BinarySI);
}

#[test]
fn test_plus_sign_is_dropped() {
    let q = parse_quantity_string("+5Ki").unwrap();
    assert_eq!(q.to_string(), "5Ki");
}

#[test]
fn test_sign_and_suffix_only() {
    let q = parse_quantity_string("-Ki").unwrap();
    assert_eq!(q.scale, Scale::Kilo);
    assert_eq!(q.format, Format::BinarySI);
    assert_eq!(q.value, Decimal::new(0, 0));
}

#[test]
fn test_rounding_half_away_from_zero() {
    let q = parse_quantity_string("6.4").unwrap();
    assert_eq!(q.to_string_with_precision(0), "6");

    let q = parse_quantity_string("6.5").unwrap();
    assert_eq!(q.to_string_with_precision(0), "7");

    let q = parse_quantity_string("-6.5").unwrap();
    assert_eq!(q.to_string_with_precision(0), "-7");

    let q = parse_quantity_string("2.0249").unwrap();
    assert_eq!(q.to_string_with_precision(3), "2.025");
}

#[test]
fn test_precision_strips_zeros() {
    let q1 = parse_quantity_string("1k").unwrap();
    let q2 = parse_quantity_string("1Ki").unwrap();
    let q3 = q1.add(q2);
    assert_eq!(q3.to_string_with_precision(3), "2.024k");
    assert_eq!(q3.to_string_with_precision(2), "2.02k");
    assert_eq!(q3.to_string_with_precision(1), "2k");
    assert_eq!(q3.to_string_with_precision(0), "2k");
}

#[test]
fn test_negative_zero_forms() {
    // A parsed negative zero keeps its sign in the rendering; rounding a
    // nonzero value down to zero drops the sign.
    let q = parse_quantity_string("-0").unwrap();
    assert_eq!(q.to_string(), "-0");

    let q = parse_quantity_string("-0.2").unwrap();
    assert_eq!(q.to_string_with_precision(0), "0");

    let q = parse_quantity_string("-0.5").unwrap();
    assert_eq!(q.to_string_with_precision(0), "-1");
}

#[test]
fn test_neg_flips_sign() {
    let q = parse_quantity_string("5Mi").unwrap();
    let n = q.neg();
    assert_eq!(n.to_string(), "-5Mi");
    let p = n.neg();
    assert_eq!(p.to_string(), "5Mi");
}

#[test]
fn test_to_bytes_u8_refuses_scaled_values() {
    let q = parse_quantity_string("1Ki").unwrap();
    assert_eq!(q.to_bytes_u8(), None);

    let q = parse_quantity_string("1k").unwrap();
    assert_eq!(q.to_bytes_u8(), None);

    let q = parse_quantity_string("100m").unwrap();
    assert_eq!(q.to_bytes_u8(), None);

    let q = parse_quantity_string("100").unwrap();
    assert_eq!(q.to_bytes_u8(), Some(100));
}

#[test]
fn test_to_bytes_i8_refuses_scaled_values() {
    let q = parse_quantity_string("1Ki").unwrap();
    assert_eq!(q.to_bytes_i8(), None);

    let q = parse_quantity_string("-100").unwrap();
    assert_eq!(q.to_bytes_i8(), Some(-100));
}

#[test]
fn test_to_bytes_unsigned() {
    let q = parse_quantity_string("1Ki").unwrap();
    assert_eq!(q.to_bytes_u64(), Some(1024));
    assert_eq!(q.to_bytes_u32(), Some(1024));
    assert_eq!(q.to_bytes_u16(), Some(1024));
    assert_eq!(q.to_bytes_u128(), Some(1024));
    assert_eq!(q.to_bytes_usize(), Some(1024));

    let q = parse_quantity_string("100Ki").unwrap();
    assert_eq!(q.to_bytes_u16(), None);
    assert_eq!(q.to_bytes_u32(), Some(102400));

    let q = parse_quantity_string("2M").unwrap();
    assert_eq!(q.to_bytes_u64(), Some(2000000));

    let q = parse_quantity_string("100m").unwrap();
    assert_eq!(q.to_bytes_u64(), None);

    let q = parse_quantity_string("-1").unwrap();
    assert_eq!(q.to_bytes_u64(), None);
}

#[test]
fn test_to_bytes_signed() {
    let q = parse_quantity_string("-2Ki").unwrap();
    assert_eq!(q.to_bytes_i64(), Some(-2048));
    assert_eq!(q.to_bytes_i32(), Some(-2048));
    assert_eq!(q.to_bytes_i16(), Some(-2048));
    assert_eq!(q.to_bytes_i128(), Some(-2048));
    assert_eq!(q.to_bytes_isize(), Some(-2048));

    let q = parse_quantity_string("100Ki").unwrap();
    assert_eq!(q.to_bytes_i16(), None);

    let q = parse_quantity_string("100m").unwrap();
    assert_eq!(q.to_bytes_i64(), None);
}

#[test]
fn test_to_bytes_truncates() {
    let q = parse_quantity_string("1.5").unwrap();
    assert_eq!(q.to_bytes_u64(), Some(1));
    assert_eq!(q.to_bytes_i64(), Some(1));

    let q = parse_quantity_string("1.5Ki").unwrap();
    assert_eq!(q.to_bytes_u64(), Some(1024));
}

#[test]
fn test_exact_conversion_factors() {
    // Scale shifts multiply by the exact power of the base.
    let q = parse_quantity_string("1T").unwrap().add(parse_quantity_string("1").unwrap());
    assert_eq!(q.to_string(), "1000000000001");

    let q = parse_quantity_string("1P").unwrap().add(parse_quantity_string("1").unwrap());
    assert_eq!(q.to_string(), "1000000000000001");

    let exa = ParsedQuantity {
        value: Decimal::new(1, 0),
        scale: Scale::Exa,
        format: Format::DecimalSI,
    };
    let q = exa.add(parse_quantity_string("1").unwrap());
    assert_eq!(q.to_string(), "1000000000000000001");

    // Format conversion multiplies by the exact power of 1024/1000.
    let q = parse_quantity_string("1T").unwrap().add(parse_quantity_string("1Ti").unwrap());
    assert_eq!(q.to_string(), "2.099511627776T");

    // Equality on magnitudes is symmetric across formats.
    let a = parse_quantity_string("1.024k").unwrap();
    let b = parse_quantity_string("1Ki").unwrap();
    assert!(a.eq(&b));
    assert!(b.eq(&a));
}

#[test]
fn test_addition_commutes_on_magnitudes() {
    // a + b keeps a's format and b + a keeps b's, but the magnitudes agree.
    let a = parse_quantity_string("1k").unwrap();
    let b = parse_quantity_string("1Ki").unwrap();
    assert!(a.add(b).eq(&b.add(a)));

    let a = parse_quantity_string("12Mi").unwrap();
    let b = parse_quantity_string("12M").unwrap();
    assert!(a.add(b).eq(&b.add(a)));
}

#[test]
fn test_mul_div_round_trip() {
    let q = parse_quantity_string("7.5Mi").unwrap();
    let c = Decimal::new(25, 1);
    assert!(q.mul(c).div(c).eq(&q));

    let c = Decimal::new(-3, 0);
    assert!(q.mul(c).div(c).eq(&q));
}

#[test]
fn test_cross_format_order() {
    // 1Ki == 1024, and 1Ki > 1020
    let q1 = parse_quantity_string("1Ki").unwrap();
    let q2 = parse_quantity_string("1024").unwrap();
    assert!(q1.eq(&q2));

    let q3 = parse_quantity_string("1020").unwrap();
    assert!(q1.cmp(&q3) == core::cmp::Ordering::Greater);
    assert!(q1.partial_cmp(&q3) == Some(core::cmp::Ordering::Greater));
}

#[test]
fn test_scale_exponent_round_trip() {
    for (s, e) in [
        (Scale::Milli, -1),
        (Scale::One, 0),
        (Scale::Kilo, 1),
        (Scale::Mega, 2),
        (Scale::Giga, 3),
        (Scale::Tera, 4),
        (Scale::Peta, 5),
        (Scale::Exa, 6),
    ] {
        assert_eq!(s.exponent(), e);
        assert_eq!(Scale::try_from_exponent(e), Ok(s));
    }
    assert_eq!(Scale::try_from_exponent(7), Err(()));
    assert_eq!(Scale::try_from_exponent(-2), Err(()));
}

#[test]
fn test_defaults() {
    assert_eq!(Scale::default(), Scale::One);
    assert_eq!(Format::default(), Format::BinarySI);
}

#[test]
fn test_parse_keeps_exact_digits() {
    // If the number conversion dropped or altered digits, these would not
    // come back exactly.
    let q = parse_quantity_string("123.456").unwrap();
    assert_eq!(q.value, Decimal::new(123456, 3));

    let q = parse_quantity_string("-0.001").unwrap();
    assert_eq!(q.value, Decimal::new(-1, 3));
}

#[test]
fn test_pure_function_determinism() {
    let a1 = parse_quantity_string("1.5Mi").unwrap();
    let a2 = parse_quantity_string("1.5Mi").unwrap();
    let b = parse_quantity_string("12M").unwrap();
    let r1 = a1.add(b);
    let r2 = a2.add(b);
    assert_eq!(r1.to_string(), r2.to_string());
    assert!(r1.eq(&r2));
}
