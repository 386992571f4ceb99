use luth_lang::ast::Operator;
use luth_lang::value::Value;
use luth_lang::value::RuntimeError;
use luth_lang::value::apply_arithmetic;
use luth_lang::value::apply_comparison;

fn num(n: i64) -> Value {
    Value::NumberLiteral(n)
}

fn s(text: &str) -> Value {
    Value::StringLiteral(text.to_string())
}

#[test]
fn addition_yields_sum() {
    assert_eq!(apply_arithmetic(Operator::Plus, &num(2), &num(3)), num(5));
    assert_eq!(apply_arithmetic(Operator::Plus, &num(-7), &num(7)), num(0));
}

#[test]
fn addition_overflow_degrades_to_nil() {
    assert_eq!(apply_arithmetic(Operator::Plus, &num(i64::MAX), &num(1)), Value::Nil);
    assert_eq!(apply_arithmetic(Operator::Minus, &num(i64::MIN), &num(1)), Value::Nil);
}

#[test]
fn arithmetic_on_non_numbers_degrades_to_nil() {
    assert_eq!(apply_arithmetic(Operator::Plus, &s("a"), &num(1)), Value::Nil);
    assert_eq!(apply_arithmetic(Operator::Star, &Value::Nil, &num(2)), Value::Nil);
    assert_eq!(apply_arithmetic(Operator::Minus, &Value::BooleanLiteral(true), &s("x")), Value::Nil);
}

#[test]
fn multiplication_and_subtraction() {
    assert_eq!(apply_arithmetic(Operator::Star, &num(3), &num(4)), num(12));
    assert_eq!(apply_arithmetic(Operator::Minus, &num(3), &num(4)), num(-1));
}

#[test]
fn division_truncates_toward_zero() {
    assert_eq!(apply_arithmetic(Operator::Slash, &num(7), &num(2)), num(3));
    assert_eq!(apply_arithmetic(Operator::Slash, &num(7), &num(-2)), num(-3));
    assert_eq!(apply_arithmetic(Operator::Slash, &num(-7), &num(2)), num(-3));
    assert_eq!(apply_arithmetic(Operator::Slash, &num(-7), &num(-2)), num(3));
}

#[test]
fn division_by_zero_degrades_to_nil() {
    assert_eq!(apply_arithmetic(Operator::Slash, &num(1), &num(0)), Value::Nil);
    assert_eq!(apply_arithmetic(Operator::Percent, &num(1), &num(0)), Value::Nil);
}

#[test]
fn remainder_takes_the_sign_of_the_dividend() {
    assert_eq!(apply_arithmetic(Operator::Percent, &num(7), &num(-2)), num(1));
    assert_eq!(apply_arithmetic(Operator::Percent, &num(-7), &num(2)), num(-1));
    assert_eq!(apply_arithmetic(Operator::Percent, &num(-7), &num(-2)), num(-1));
}

#[test]
fn power_of_numbers() {
    assert_eq!(num(2).pow(&num(10)), num(1024));
    assert_eq!(num(0).pow(&num(0)), num(1));
    assert_eq!(num(0).pow(&num(5)), num(0));
    assert_eq!(num(-1).pow(&num(5)), num(-1));
    assert_eq!(num(-2).pow(&num(63)), num(i64::MIN));
}

#[test]
fn power_out_of_range_degrades_to_nil() {
    assert_eq!(num(2).pow(&num(64)), Value::Nil);
    assert_eq!(num(2).pow(&num(-1)), Value::Nil);
    assert_eq!(s("a").pow(&num(2)), Value::Nil);
}

#[test]
fn truthiness_boundaries() {
    assert!(!num(0).is_truthy());
    assert!(num(1).is_truthy());
    assert!(num(-1).is_truthy());
    assert!(!s("").is_truthy());
    assert!(s("x").is_truthy());
    assert!(Value::BooleanLiteral(true).is_truthy());
    assert!(!Value::BooleanLiteral(false).is_truthy());
    assert!(!Value::Nil.is_truthy());
}

#[test]
fn value_equality_is_by_content_within_a_variant() {
    assert_eq!(s("ab"), s("ab"));
    assert_ne!(s("ab"), s("ac"));
    assert_eq!(Value::Nil, Value::Nil);
    assert_ne!(num(1), s("1"));
    assert_ne!(Value::BooleanLiteral(true), num(1));
}

#[test]
fn comparison_operators_on_numbers() {
    let lt = apply_comparison(Operator::LessThan, &num(1), &num(2)).unwrap();
    assert_eq!(lt, Value::BooleanLiteral(true));
    let ge = apply_comparison(Operator::GreaterThanEqual, &num(1), &num(2)).unwrap();
    assert_eq!(ge, Value::BooleanLiteral(false));
    let eq = apply_comparison(Operator::EqualEqual, &s("a"), &s("a")).unwrap();
    assert_eq!(eq, Value::BooleanLiteral(true));
    let ne = apply_comparison(Operator::NotEqual, &num(3), &Value::Nil).unwrap();
    assert_eq!(ne, Value::BooleanLiteral(true));
}

#[test]
fn ordering_non_numbers_is_an_error() {
    let r = apply_comparison(Operator::LessThan, &s("a"), &num(1));
    assert!(matches!(r, Err(RuntimeError::InvalidComparison)));
}

#[test]
fn render_default_textual_forms() {
    assert_eq!(num(0).render(), "0");
    assert_eq!(num(42).render(), "42");
    assert_eq!(num(-5).render(), "-5");
    assert_eq!(num(i64::MIN).render(), "-9223372036854775808");
    assert_eq!(num(i64::MAX).render(), "9223372036854775807");
    assert_eq!(s("hello").render(), "hello");
    assert_eq!(Value::BooleanLiteral(true).render(), "true");
    assert_eq!(Value::BooleanLiteral(false).render(), "false");
    assert_eq!(Value::Nil.render(), "nil");
}
