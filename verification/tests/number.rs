use js_string::{JsString, NumericLiteral};

fn literal(text: &str) -> NumericLiteral {
    JsString::from(text).to_numeric_literal()
}

fn value_of(literal: NumericLiteral) -> f64 {
    match literal {
        NumericLiteral::Zero => 0.0,
        NumericLiteral::Infinity => f64::INFINITY,
        NumericLiteral::NegInfinity => f64::NEG_INFINITY,
        NumericLiteral::NotANumber => f64::NAN,
        NumericLiteral::Integer(value) => f64::from(value),
        NumericLiteral::Digits { base, digits } => digits
            .iter()
            .fold(0.0, |value: f64, digit| value.mul_add(f64::from(base), f64::from(*digit))),
        NumericLiteral::Decimal(text) => fast_float::parse(text).unwrap_or(f64::NAN),
    }
}

fn to_number(text: &str) -> f64 {
    value_of(literal(text))
}

#[test]
fn to_number_of_literals() {
    assert_eq!(to_number("  0x1F "), 31.0);
    assert_eq!(to_number("Infinity"), f64::INFINITY);
    assert_eq!(to_number("+Infinity"), f64::INFINITY);
    assert_eq!(to_number("-Infinity"), f64::NEG_INFINITY);
    assert_eq!(to_number(""), 0.0);
    assert_eq!(to_number(" \u{FEFF}\n"), 0.0);
    assert!(to_number("abc").is_nan());
    assert_eq!(to_number("42"), 42.0);
    assert_eq!(to_number(" -1.5e3\t"), -1500.0);
    assert_eq!(to_number("0b101"), 5.0);
    assert_eq!(to_number("0O17"), 15.0);
    assert_eq!(to_number("0XfF"), 255.0);
}

#[test]
fn sign_after_a_prefix_is_not_a_number() {
    assert!(to_number("0x+1F").is_nan());
    assert!(to_number("0x-1F").is_nan());
    assert!(to_number("0b+1").is_nan());
    assert!(to_number("0o+7").is_nan());
    assert!(to_number("0x+100000000").is_nan());
}

#[test]
fn sign_before_a_prefix_is_not_a_number() {
    assert_eq!(literal("-0b11"), NumericLiteral::Decimal(String::from("-0b11")));
    assert!(to_number("-0b11").is_nan());
    assert!(to_number("+0x10").is_nan());
    assert!(to_number("-0o7").is_nan());
}

#[test]
fn classification() {
    assert_eq!(literal(""), NumericLiteral::Zero);
    assert_eq!(literal("   "), NumericLiteral::Zero);
    assert_eq!(literal("Infinity"), NumericLiteral::Infinity);
    assert_eq!(literal("\u{2028}+Infinity\u{3000}"), NumericLiteral::Infinity);
    assert_eq!(literal("-Infinity"), NumericLiteral::NegInfinity);
    assert_eq!(literal("infinity"), NumericLiteral::NotANumber);
    assert_eq!(literal("Inf"), NumericLiteral::NotANumber);
    assert_eq!(literal("i"), NumericLiteral::NotANumber);
    assert_eq!(literal("Infinity1"), NumericLiteral::NotANumber);
    assert_eq!(literal("0x"), NumericLiteral::NotANumber);
    assert_eq!(literal("0b"), NumericLiteral::NotANumber);
    assert_eq!(literal("0b12"), NumericLiteral::NotANumber);
    assert_eq!(literal("0o8"), NumericLiteral::NotANumber);
    assert_eq!(literal("0xG"), NumericLiteral::NotANumber);
    assert_eq!(literal("0x-1"), NumericLiteral::NotANumber);
    assert_eq!(literal("0x+"), NumericLiteral::NotANumber);
    assert_eq!(literal("0x 1"), NumericLiteral::NotANumber);
    assert_eq!(literal("0x1F"), NumericLiteral::Integer(31));
    assert_eq!(literal("0x+1F"), NumericLiteral::NotANumber);
    assert_eq!(literal("0xFFFFFFFF"), NumericLiteral::Integer(u32::MAX));
    assert_eq!(literal("0x0"), NumericLiteral::Integer(0));
    assert_eq!(literal("0b11111111111111111111111111111111"), NumericLiteral::Integer(u32::MAX));
    assert_eq!(
        literal("0x100000000"),
        NumericLiteral::Digits { base: 16, digits: vec![1, 0, 0, 0, 0, 0, 0, 0, 0] }
    );
    assert_eq!(literal("0x+100000000"), NumericLiteral::NotANumber);
    assert_eq!(literal("12"), NumericLiteral::Decimal(String::from("12")));
    assert_eq!(literal(" 0 "), NumericLiteral::Decimal(String::from("0")));
    assert_eq!(literal("0"), NumericLiteral::Decimal(String::from("0")));
    assert_eq!(literal("1 2"), NumericLiteral::Decimal(String::from("1 2")));
    assert_eq!(literal("\u{e9}"), NumericLiteral::Decimal(String::from("\u{e9}")));
}

#[test]
fn wide_radix_literals_accumulate() {
    assert_eq!(to_number("0x100000000"), 4294967296.0);
    assert_eq!(to_number("0xFFFFFFFFFFFFFFFFF"), 295147905179352825855.0);
    assert_eq!(
        to_number("0b100000000000000000000000000000000"),
        4294967296.0
    );
}

#[test]
fn unpaired_surrogates_are_not_a_number() {
    let s = JsString::from(&[0x31u16, 0xD800][..]);
    assert_eq!(s.to_numeric_literal(), NumericLiteral::NotANumber);
    let t = JsString::from(&[0x20u16, 0xDC00, 0x20][..]);
    assert_eq!(t.to_numeric_literal(), NumericLiteral::NotANumber);
}
