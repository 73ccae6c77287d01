use lox_rs::error_reporter::ErrorReporter;
use lox_rs::token::{Token, Type};
use lox_rs::value::{number_eq, number_is_nan, number_lt, UnwindType, Value};

fn samples() -> Vec<f64> {
    vec![
        0.0,
        -0.0,
        1.0,
        -1.0,
        0.5,
        -0.5,
        2.0,
        1e300,
        -1e300,
        5e-324,
        -5e-324,
        f64::MAX,
        f64::MIN,
        f64::MIN_POSITIVE,
        f64::INFINITY,
        f64::NEG_INFINITY,
        f64::NAN,
        -f64::NAN,
        f64::from_bits(0x7FF0_0000_0000_0001),
        f64::from_bits(0xFFF8_0000_0000_0000),
        3.141592653589793,
        -2.718281828459045,
    ]
}

#[test]
fn number_equality_is_that_of_doubles() {
    for a in samples() {
        for b in samples() {
            assert_eq!(number_eq(a.to_bits(), b.to_bits()), a == b, "{} == {}", a, b);
        }
    }
}

#[test]
fn number_order_is_that_of_doubles() {
    for a in samples() {
        for b in samples() {
            assert_eq!(number_lt(a.to_bits(), b.to_bits()), a < b, "{} < {}", a, b);
        }
    }
}

#[test]
fn nan_is_recognised_on_its_bits() {
    for a in samples() {
        assert_eq!(number_is_nan(a.to_bits()), a.is_nan(), "{}", a);
    }
}

#[test]
fn zero_equals_negative_zero() {
    assert!(number_eq(0.0f64.to_bits(), (-0.0f64).to_bits()));
    assert!(!number_lt((-0.0f64).to_bits(), 0.0f64.to_bits()));
}

#[test]
fn truthiness_of_values() {
    assert!(!Value::Nil.is_truthy());
    assert!(!Value::False.is_truthy());
    assert!(Value::True.is_truthy());
    assert!(Value::Number(0.0f64.to_bits()).is_truthy());
    assert!(Value::String(String::new()).is_truthy());
    assert!(Value::Callable(0).is_truthy());
    assert!(Value::Instance(0).is_truthy());
}

#[test]
fn not_negates_truthiness() {
    assert!(matches!(Value::Nil.not(), Value::True));
    assert!(matches!(Value::False.not(), Value::True));
    assert!(matches!(Value::True.not(), Value::False));
    assert!(matches!(Value::Number(0).not(), Value::False));
    for value in [Value::Nil, Value::False, Value::True, Value::Number(7), Value::Callable(1)] {
        assert_eq!(value.not().not().is_truthy(), value.is_truthy());
    }
}

#[test]
fn from_bool_gives_the_two_booleans() {
    assert!(matches!(Value::from_bool(true), Value::True));
    assert!(matches!(Value::from_bool(false), Value::False));
}

#[test]
fn values_of_different_kinds_are_not_equal() {
    let one = Value::Number(1.0f64.to_bits());
    let text = Value::String("1".to_string());
    assert!(!one.equals(&text));
    assert!(!Value::Nil.equals(&Value::False));
    assert!(!Value::Callable(3).equals(&Value::Instance(3)));
    assert!(Value::Callable(3).equals(&Value::Callable(3)));
    assert!(!Value::Callable(3).equals(&Value::Callable(4)));
    assert!(Value::Instance(2).equals(&Value::Instance(2)));
    assert!(Value::String("ab".to_string()).equals(&Value::String("ab".to_string())));
    assert!(!Value::String("ab".to_string()).equals(&Value::String("abc".to_string())));
    let nan = Value::Number(f64::NAN.to_bits());
    assert!(!nan.equals(&nan));
}

#[test]
fn as_number_reports_at_the_operator() {
    let mut reporter = ErrorReporter::new();
    let minus = Token::new(Type::Minus, "-".to_string(), 4);
    let number = Value::Number(2.0f64.to_bits());
    assert!(matches!(number.as_number(Some(&minus), &mut reporter), Ok(bits) if bits == 2.0f64.to_bits()));
    assert!(reporter.reports.is_empty());
    let result = Value::Nil.as_number(Some(&minus), &mut reporter);
    assert!(matches!(result, Err(UnwindType::Error)));
    assert!(reporter.had_runtime_error);
    assert_eq!(reporter.reports[0].render(), "[line 4] Error at '-': Operand must be a number.");
    let silent = Value::True.as_number(None, &mut reporter);
    assert!(matches!(silent, Err(UnwindType::Error)));
    assert_eq!(reporter.reports.len(), 1);
}

#[test]
fn duplicate_gives_an_equal_value() {
    for value in [
        Value::String("text".to_string()),
        Value::Number(1.5f64.to_bits()),
        Value::True,
        Value::False,
        Value::Nil,
        Value::Callable(2),
        Value::Instance(5),
    ] {
        assert!(value.duplicate().equals(&value));
    }
}
