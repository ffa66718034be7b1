use kube_quantity::{parse_quantity_string, Format, ParseQuantityError, ParsedQuantity, Scale};
use rust_decimal::prelude::FromPrimitive;
use rust_decimal::Decimal;

#[test]
fn test_quantity_addition() {
    let q1: Result<ParsedQuantity, _> = parse_quantity_string("1Ki");
    let q2: Result<ParsedQuantity, _> = parse_quantity_string("1Ki");

    assert!(q1.is_ok());
    assert!(q2.is_ok());

    let q3: ParsedQuantity = q1.unwrap().add(q2.unwrap());

    assert_eq!(q3.to_string(), "2Ki");
}

#[test]
fn test_quantity_addition_2() {
    let q1: Result<ParsedQuantity, _> = parse_quantity_string("1");
    let q2: Result<ParsedQuantity, _> = parse_quantity_string("500m");

    assert!(q1.is_ok());
    assert!(q2.is_ok());

    let q3: ParsedQuantity = q1.unwrap().add(q2.unwrap());

    assert_eq!(q3.to_string(), "1500m");
}

#[test]
fn test_quantity_addition_assign() {
    let q1: Result<ParsedQuantity, _> = parse_quantity_string("5M");
    let q2: Result<ParsedQuantity, _> = parse_quantity_string("7M");

    assert!(q1.is_ok());
    assert!(q2.is_ok());

    let mut q1 = q1.unwrap();
    q1.add_assign(q2.unwrap());

    assert_eq!(q1.to_string(), "12M");
}

#[test]
fn lib_test_quantity_subtraction() {
    let q1: Result<ParsedQuantity, _> = parse_quantity_string("1");
    let q2: Result<ParsedQuantity, _> = parse_quantity_string("500m");

    assert!(q1.is_ok());
    assert!(q2.is_ok());

    let q3: ParsedQuantity = q1.unwrap().sub(q2.unwrap());

    assert_eq!(q3.to_string(), "500m");
}

#[test]
fn test_quantity_subtraction_assign() {
    let q1: Result<ParsedQuantity, _> = parse_quantity_string("10Gi");
    let q2: Result<ParsedQuantity, _> = parse_quantity_string("500Mi");

    assert!(q1.is_ok());
    assert!(q2.is_ok());

    let mut q1 = q1.unwrap();
    q1.sub_assign(q2.unwrap());

    assert_eq!(q1.to_string(), "9740Mi");
}

#[test]
fn test_quantity_subtraction_assign_2() {
    let q1: Result<ParsedQuantity, _> = parse_quantity_string("10G");
    let q2: Result<ParsedQuantity, _> = parse_quantity_string("500M");

    assert!(q1.is_ok());
    assert!(q2.is_ok());

    let mut q1 = q1.unwrap();
    q1.sub_assign(q2.unwrap());

    assert_eq!(q1.to_string(), "9500M");
}

#[test]
fn test_failing_parsing() {
    let q: Result<ParsedQuantity, ParseQuantityError> = parse_quantity_string("1.5.0");

    assert!(q.is_err());
    assert_eq!(q.unwrap_err().message(), "quantity parsing failed");
}

#[test]
fn test_div() {
    let exp_result = ParsedQuantity {
        value: Decimal::from_f32(2.0).unwrap(),
        scale: Scale::Kilo,
        format: Format::BinarySI,
    };

    let q1 = ParsedQuantity {
        value: Decimal::from_f32(4.0).unwrap(),
        scale: Scale::Kilo,
        format: Format::BinarySI,
    };
    let q2 = Decimal::from_f32(2.0).unwrap();

    let result = q1.div(q2);

    assert!(result.eq(&exp_result));
}

#[test]
fn test_div_decimal_f32() {
    let exp_result = ParsedQuantity {
        value: Decimal::from_f32(2.0).unwrap(),
        scale: Scale::Kilo,
        format: Format::BinarySI,
    };

    let q1 = ParsedQuantity {
        value: Decimal::from_f32(5.0).unwrap(),
        scale: Scale::Kilo,
        format: Format::BinarySI,
    };
    let q2 = Decimal::from_f32(2.5).unwrap();

    let result = q1.div(q2);

    assert!(result.eq(&exp_result));
}

#[test]
fn test_div_decimal_u8() {
    let exp_result = ParsedQuantity {
        value: Decimal::from_f32(2.0).unwrap(),
        scale: Scale::Kilo,
        format: Format::BinarySI,
    };

    let q1 = ParsedQuantity {
        value: Decimal::from_f32(6.0).unwrap(),
        scale: Scale::Kilo,
        format: Format::BinarySI,
    };
    let q2: u8 = 3;

    let result = q1.div(Decimal::from(q2));

    assert!(result.eq(&exp_result));
}

#[test]
fn test_div_assign() {
    let exp_result = ParsedQuantity {
        value: Decimal::from_f32(2.0).unwrap(),
        scale: Scale::Kilo,
        format: Format::BinarySI,
    };

    let mut q1 = ParsedQuantity {
        value: Decimal::from_f32(4.0).unwrap(),
        scale: Scale::Kilo,
        format: Format::BinarySI,
    };
    let q2 = Decimal::from_f32(2.0).unwrap();

    q1.div_assign(q2);

    assert!(q1.eq(&exp_result));
}

#[test]
fn test_mul() {
    let exp_result = ParsedQuantity {
        value: Decimal::from_f32(8.0).unwrap(),
        scale: Scale::Kilo,
        format: Format::BinarySI,
    };

    let q1 = ParsedQuantity {
        value: Decimal::from_f32(4.0).unwrap(),
        scale: Scale::Kilo,
        format: Format::BinarySI,
    };
    let q2 = Decimal::from_f32(2.0).unwrap();

    let result = q1.mul(q2);

    assert!(result.eq(&exp_result));
}

#[test]
fn test_mul_f32() {
    let exp_result = ParsedQuantity {
        value: Decimal::from_f32(10.0).unwrap(),
        scale: Scale::Kilo,
        format: Format::BinarySI,
    };

    let q1 = ParsedQuantity {
        value: Decimal::from_f32(5.0).unwrap(),
        scale: Scale::Kilo,
        format: Format::BinarySI,
    };
    let q2 = Decimal::from_f32(2.0).unwrap();

    let result = q1.mul(q2);

    assert!(result.eq(&exp_result));
}

#[test]
fn test_mul_u8() {
    let exp_result = ParsedQuantity {
        value: Decimal::from_f32(9.0).unwrap(),
        scale: Scale::Kilo,
        format: Format::BinarySI,
    };

    let q1 = ParsedQuantity {
        value: Decimal::from_f32(4.5).unwrap(),
        scale: Scale::Kilo,
        format: Format::BinarySI,
    };
    let q2: u8 = 2;

    let result = q1.mul(Decimal::from(q2));

    assert!(result.eq(&exp_result));
}

#[test]
fn test_mul_assign() {
    let exp_result = ParsedQuantity {
        value: Decimal::from_f32(8.0).unwrap(),
        scale: Scale::Kilo,
        format: Format::BinarySI,
    };

    let mut q1 = ParsedQuantity {
        value: Decimal::from_f32(4.0).unwrap(),
        scale: Scale::Kilo,
        format: Format::BinarySI,
    };
    let q2 = Decimal::from_f32(2.0).unwrap();

    q1.mul_assign(q2);

    assert!(q1.eq(&exp_result));
}
