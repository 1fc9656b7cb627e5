use minilang::ast_nodes::BinaryOp;
use minilang::values::{equal_numbers, less, negate, relate, zero, Value};

fn samples() -> Vec<f64> {
    vec![
        0.0,
        -0.0,
        1.0,
        -1.0,
        0.5,
        -0.5,
        2.5,
        1e300,
        -1e300,
        5e-324,
        -5e-324,
        f64::MIN_POSITIVE,
        f64::MAX,
        f64::MIN,
        f64::INFINITY,
        f64::NEG_INFINITY,
        f64::NAN,
        -f64::NAN,
        f64::from_bits(0x7ff0_0000_0000_0001),
    ]
}

#[test]
fn comparison_on_bits_agrees_with_the_numbers() {
    for a in samples() {
        for b in samples() {
            let (x, y) = (a.to_bits(), b.to_bits());
            assert_eq!(equal_numbers(x, y), a == b, "{a} == {b}");
            assert_eq!(less(x, y), a < b, "{a} < {b}");
            assert_eq!(relate(BinaryOp::Lesser, x, y), a < b, "{a} < {b}");
            assert_eq!(relate(BinaryOp::LesserEqual, x, y), a <= b, "{a} <= {b}");
            assert_eq!(relate(BinaryOp::Greater, x, y), a > b, "{a} > {b}");
            assert_eq!(relate(BinaryOp::GreaterEqual, x, y), a >= b, "{a} >= {b}");
        }
    }
}

#[test]
fn negation_and_zero_test_on_bits_agree_with_the_numbers() {
    for a in samples() {
        assert_eq!(negate(a.to_bits()), (-a).to_bits(), "-{a}");
        assert_eq!(negate(negate(a.to_bits())), a.to_bits());
        assert_eq!(zero(a.to_bits()), a == 0.0, "{a}");
    }
    assert_eq!(negate(1.5f64.to_bits()), (-1.5f64).to_bits());
    assert_eq!(negate(0), 0x8000_0000_0000_0000);
}

#[test]
fn values_compare_by_structure() {
    let one = Value::Number(1f64.to_bits());
    assert!(one.equals(&Value::Number(1f64.to_bits())));
    assert!(!one.equals(&Value::Str("1".to_string())));
    assert!(!Value::Str("1".to_string()).equals(&one));
    assert!(!one.equals(&Value::Bool(true)));
    assert!(!Value::Null.equals(&Value::Bool(false)));
    assert!(Value::Null.equals(&Value::Null));
    assert!(Value::Str("a".to_string()).equals(&Value::Str("a".to_string())));
    assert!(!Value::Str("a".to_string()).equals(&Value::Str("b".to_string())));
    assert!(Value::Number(0f64.to_bits()).equals(&Value::Number((-0f64).to_bits())));
    assert!(!Value::Number(f64::NAN.to_bits()).equals(&Value::Number(f64::NAN.to_bits())));
    assert!(Value::Function.equals(&Value::Function));
    assert!(!Value::Function.equals(&Value::Null));
    assert!(Value::Function.is_truthy());
}

#[test]
fn truthiness_of_values() {
    assert!(!Value::Null.is_truthy());
    assert!(!Value::Bool(false).is_truthy());
    assert!(Value::Bool(true).is_truthy());
    assert!(!Value::Number(0f64.to_bits()).is_truthy());
    assert!(!Value::Number((-0f64).to_bits()).is_truthy());
    assert!(Value::Number(0.1f64.to_bits()).is_truthy());
    assert!(Value::Number(f64::NAN.to_bits()).is_truthy());
    assert!(Value::Str(String::new()).is_truthy());
    assert_eq!(Value::Str("s".to_string()).copy(), Value::Str("s".to_string()));
}
