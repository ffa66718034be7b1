use kube_quantity::{parse_quantity_string, Format, ParsedQuantity, Scale};
use rust_decimal::Decimal;

#[test]
fn test_quantity_string_parsing() {
    let quantity = parse_quantity_string("1.25Ki");
    assert!(quantity.is_ok());

    let quantity = quantity.unwrap();
    assert_eq!(quantity.value, Decimal::new(125, 2));
    assert_eq!(quantity.scale, Scale::Kilo);
    assert_eq!(quantity.format, Format::BinarySI);

    assert_eq!(quantity.to_string(), "1.25Ki".to_owned());
}

#[test]
fn test_scientific_notation() {
    let quantity = parse_quantity_string("1.25e3");
    assert!(quantity.is_ok());

    let quantity = quantity.unwrap();
    assert_eq!(quantity.value, Decimal::new(1250, 0));
    assert_eq!(quantity.scale, Scale::One);
    // The decimal-exponent display form is not preserved: the exponent is
    // folded into the value and the result rendered as a plain decimal.
    assert_eq!(quantity.format, Format::DecimalSI);

    assert_eq!(quantity.to_string(), "1250".to_owned());
}

#[test]
fn test_decimal_notation() {
    let quantity = parse_quantity_string("1250000");
    assert!(quantity.is_ok());

    let quantity = quantity.unwrap();
    assert_eq!(quantity.value, Decimal::new(1250000, 0));
    assert_eq!(quantity.scale, Scale::One);
    assert_eq!(quantity.format, Format::DecimalSI);

    assert_eq!(quantity.to_string(), "1250000".to_owned());
}

#[test]
fn test_incorrect_quantity() {
    let quantity = parse_quantity_string("1.25.123K");
    assert!(quantity.is_err());
}

#[test]
fn test_zero_quantity() {
    let quantity = parse_quantity_string("0");
    assert!(quantity.is_ok());

    let quantity = quantity.unwrap();
    assert_eq!(quantity.value, Decimal::new(0, 0));
    assert_eq!(quantity.scale, Scale::One);
    assert_eq!(quantity.format, Format::DecimalSI);

    assert_eq!(quantity.to_string(), "0".to_owned());
}

#[test]
fn test_milli_quantity() {
    let quantity = parse_quantity_string("100m");
    assert!(quantity.is_ok());

    let quantity = quantity.unwrap();
    assert_eq!(quantity.value, Decimal::new(100, 0));
    assert_eq!(quantity.scale, Scale::Milli);
    assert_eq!(quantity.format, Format::DecimalSI);

    assert_eq!(quantity.to_string(), "100m");
}

#[test]
fn test_quantity_addition_binary_si() {
    let q1 = parse_quantity_string("1Ki").unwrap();
    let q2 = parse_quantity_string("2Ki").unwrap();

    let q3 = q1.add(q2);

    assert_eq!(q3.to_string(), "3Ki");
}

#[test]
fn test_quantity_addition_binary_si_2() {
    let q1 = parse_quantity_string("1.5Mi").unwrap();
    let q2 = parse_quantity_string("2Mi").unwrap();

    let q3 = q1.add(q2);

    assert_eq!(q3.to_string(), "3.5Mi");
}

#[test]
fn test_quantity_addition_binary_si_mixed_scales() {
    let q1 = parse_quantity_string("1Ki").unwrap();
    let q2 = parse_quantity_string("2Mi").unwrap();

    let q3 = q1.add(q2);

    assert_eq!(q3.to_string(), "2049Ki");
}

#[test]
fn test_quantity_addition_binary_si_decimal_exponent() {
    let q1 = parse_quantity_string("12Mi").unwrap();
    let q2 = parse_quantity_string("12e6").unwrap();

    let q3 = q1.add(q2);

    assert_eq!(q3.to_string(), "24582912");
}

#[test]
fn test_quantity_addition_binary_si_decimal_si() {
    let q1 = parse_quantity_string("12Mi").unwrap();
    let q2 = parse_quantity_string("12M").unwrap();

    let q3 = q1.add(q2);

    assert_eq!(q3.to_string(), "23.444091796875Mi");
}

#[test]
fn test_quantity_addition_binary_si_decimal_si_2() {
    let q1 = parse_quantity_string("12Ki").unwrap();
    let q2 = parse_quantity_string("1000").unwrap();

    let q3 = q1.add(q2);

    assert_eq!(q3.to_string(), "13288");
}

#[test]
fn test_quantity_addition_decimal_si_milli_addition() {
    let q1 = parse_quantity_string("100m").unwrap();
    let q2 = parse_quantity_string("200m").unwrap();

    let q3 = q1.add(q2);

    assert_eq!(q3.to_string(), "300m");
}

#[test]
fn test_quantity_addition_decimal_si_milli_addition_2() {
    let q1 = parse_quantity_string("100m").unwrap();
    let q2 = parse_quantity_string("1").unwrap();

    let q3 = q1.add(q2);

    assert_eq!(q3.to_string(), "1100m");
}

#[test]
fn test_quantity_addition_decimal_exponent() {
    let q1 = parse_quantity_string("10e3").unwrap();
    let q2 = parse_quantity_string("10e3").unwrap();

    let q3 = q1.add(q2);

    assert_eq!(q3.to_string(), "20000");
}

#[test]
fn test_quantity_addition_decimal_exponent_2() {
    let q1 = parse_quantity_string("10e4").unwrap();
    let q2 = parse_quantity_string("10e3").unwrap();

    let q3 = q1.add(q2);

    assert_eq!(q3.to_string(), "110000");
}

#[test]
fn test_quantity_addition_decimal_exponent_binary_si() {
    let q1 = parse_quantity_string("10e3").unwrap();
    let q2 = parse_quantity_string("1Ki").unwrap();

    let q3 = q1.add(q2);

    assert_eq!(q3.to_string_with_precision(0), "11024");
}

#[test]
fn test_quantity_addition_decimal_exponent_decimal_si() {
    let q1 = parse_quantity_string("10e3").unwrap();
    let q2 = parse_quantity_string("1k").unwrap();

    let q3 = q1.add(q2);

    assert_eq!(q3.to_string(), "11000");
}

#[test]
fn test_quantity_addition_decimal_exponent_decimal_si_2() {
    let q1 = parse_quantity_string("10e2").unwrap();
    let q2 = parse_quantity_string("1k").unwrap();

    let q3 = q1.add(q2);

    assert_eq!(q3.to_string(), "2000");
}

#[test]
fn test_quantity_addition_decimal_si() {
    let q1 = parse_quantity_string("1M").unwrap();
    let q2 = parse_quantity_string("2M").unwrap();

    let q3 = q1.add(q2);

    assert_eq!(q3.to_string(), "3M");
}

#[test]
fn test_quantity_addition_decimal_si_2() {
    let q1 = parse_quantity_string("1k").unwrap();
    let q2 = parse_quantity_string("2M").unwrap();

    let q3 = q1.add(q2);

    assert_eq!(q3.to_string(), "2001k");
}

#[test]
fn test_quantity_addition_decimal_si_binary_si() {
    let q1 = parse_quantity_string("1k").unwrap();
    let q2 = parse_quantity_string("1Ki").unwrap();

    let q3 = q1.add(q2);

    assert_eq!(q3.to_string_with_precision(3), "2.024k");
}

#[test]
fn test_quantity_addition_decimal_si_binary_si_2() {
    let q1 = parse_quantity_string("1M").unwrap();
    let q2 = parse_quantity_string("1Mi").unwrap();

    let q3 = q1.add(q2);

    assert_eq!(q3.to_string(), "2.048576M");
}

#[test]
fn parser_test_quantity_subtraction() {
    let q1 = parse_quantity_string("5Mi").unwrap();
    let q2 = parse_quantity_string("2Mi").unwrap();

    let q3 = q1.sub(q2);

    assert_eq!(q3.to_string(), "3Mi");
}

#[test]
fn test_quantity_add_assign() {
    let mut q1 = parse_quantity_string("5Mi").unwrap();
    let q2 = parse_quantity_string("2Mi").unwrap();

    q1.add_assign(q2);

    assert_eq!(q1.to_string(), "7Mi");
}

#[test]
fn test_quantity_sub_assign() {
    let mut q1 = parse_quantity_string("5Mi").unwrap();
    let q2 = parse_quantity_string("2Mi").unwrap();

    q1.sub_assign(q2);

    assert_eq!(q1.to_string(), "3Mi");
}

#[test]
fn test_quantity_sub_mixed() {
    let q1 = parse_quantity_string("2M").unwrap();
    let q2 = parse_quantity_string("500k").unwrap();

    let q3 = q1.sub(q2);

    assert_eq!(q3.to_string(), "1500k");
}

#[test]
fn test_parsed_quantity_reexport() {
    let q: ParsedQuantity = parse_quantity_string("3Gi").unwrap();
    assert_eq!(q.to_string(), "3Gi");
}
