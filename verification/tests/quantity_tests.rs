use core::cmp::Ordering;

use kube_quantity::{Format, ParsedQuantity, Scale};
use rust_decimal::prelude::FromPrimitive;
use rust_decimal::Decimal;

#[test]
fn test_partial_eq() {
    let q1 = ParsedQuantity {
        value: Decimal::from_f32(1.0).unwrap(),
        scale: Scale::Kilo,
        format: Format::BinarySI,
    };
    let q2 = ParsedQuantity {
        value: Decimal::from_f32(1.0).unwrap(),
        scale: Scale::Kilo,
        format: Format::BinarySI,
    };

    assert!(q1.eq(&q2));
}

#[test]
fn test_partial_ne() {
    let q1 = ParsedQuantity {
        value: Decimal::from_f32(1.0).unwrap(),
        scale: Scale::Kilo,
        format: Format::BinarySI,
    };
    let q2 = ParsedQuantity {
        value: Decimal::from_f32(1.0).unwrap(),
        scale: Scale::Mega,
        format: Format::DecimalSI,
    };

    assert!(!q1.eq(&q2));
}

#[test]
fn test_ord_le() {
    let q1 = ParsedQuantity {
        value: Decimal::from_f32(1.0).unwrap(),
        scale: Scale::Kilo,
        format: Format::BinarySI,
    };
    let q2 = ParsedQuantity {
        value: Decimal::from_f32(1.0).unwrap(),
        scale: Scale::Mega,
        format: Format::DecimalSI,
    };

    assert!(q1.cmp(&q2) == Ordering::Less);
}

#[test]
fn test_ord_leq() {
    let q1 = ParsedQuantity {
        value: Decimal::from_f32(1.0).unwrap(),
        scale: Scale::Kilo,
        format: Format::DecimalSI,
    };
    let q2 = ParsedQuantity {
        value: Decimal::from_f32(1.0).unwrap(),
        scale: Scale::Kilo,
        format: Format::DecimalSI,
    };

    assert!(q1.cmp(&q2) != Ordering::Greater);
}

#[test]
fn test_ord_le_different_formats() {
    let q1 = ParsedQuantity {
        value: Decimal::from_f32(1.0).unwrap(),
        scale: Scale::One,
        format: Format::BinarySI,
    };
    let q2 = ParsedQuantity {
        value: Decimal::from_f32(1.0).unwrap(),
        scale: Scale::One,
        format: Format::DecimalSI,
    };

    assert!(q1.cmp(&q2) != Ordering::Greater);
    assert!(q1.eq(&q2));
}

#[test]
fn test_eq_different_formats_and_scales() {
    let q1 = ParsedQuantity {
        value: Decimal::from_f32(1.0).unwrap(),
        scale: Scale::Kilo,
        format: Format::BinarySI,
    };

    let q2 = ParsedQuantity {
        value: Decimal::from_f32(1024.0).unwrap(),
        scale: Scale::One,
        format: Format::DecimalSI,
    };

    assert!(q1.eq(&q2));
}

#[test]
fn test_ord_gt() {
    let q1 = ParsedQuantity {
        value: Decimal::from_f32(1.0).unwrap(),
        scale: Scale::Kilo,
        format: Format::BinarySI,
    };

    let q2 = ParsedQuantity {
        value: Decimal::from_f32(1020.0).unwrap(),
        scale: Scale::One,
        format: Format::DecimalSI,
    };

    assert!(q1.cmp(&q2) == Ordering::Greater);
}
