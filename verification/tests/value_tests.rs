use rustcode::value::{values_equal, ArithOp, Eval, FloatOperand, FloatQuery, Value, VmError};

fn as_f64(op: FloatOperand) -> f64 {
    match op {
        FloatOperand::Int(i) => i as f64,
        FloatOperand::Bits(b) => f64::from_bits(b),
    }
}

#[test]
fn test_value_arithmetic() {
    let a = Value::Integer(5);
    let b = Value::Integer(3);

    assert_eq!(a.add(&b).unwrap(), Eval::Ready(Value::Integer(8)));
    assert_eq!(a.sub(&b).unwrap(), Eval::Ready(Value::Integer(2)));
    assert_eq!(a.mul(&b).unwrap(), Eval::Ready(Value::Integer(15)));
    assert_eq!(a.div(&b).unwrap(), Eval::Ready(Value::Integer(1)));
}

#[test]
fn test_value_conversion() {
    let v = Value::Integer(42);
    assert_eq!(v.as_integer().unwrap(), Eval::Ready(42));
    assert_eq!(as_f64(v.as_float().unwrap()), 42.0);
    assert_eq!(v.as_bool(), Eval::Ready(true));

    let v = Value::Boolean(false);
    assert_eq!(v.as_bool(), Eval::Ready(false));
}

#[test]
fn test_string_concat() {
    let a = Value::String("Hello, ".to_string());
    let b = Value::String("World!".to_string());

    assert_eq!(a.add(&b).unwrap(), Eval::Ready(Value::String("Hello, World!".to_string())));
}

#[test]
fn integer_division_rounds_toward_zero() {
    let r = Value::Integer(-7).div(&Value::Integer(2)).unwrap();
    assert_eq!(r, Eval::Ready(Value::Integer(-3)));
    assert!(matches!(Value::Integer(1).div(&Value::Integer(0)), Err(VmError::DivisionByZero)));
}

#[test]
fn float_arithmetic_is_asked() {
    let f = Value::Float(2.5f64.to_bits());
    match Value::Integer(1).add(&f).unwrap() {
        Eval::NeedsFloat(FloatQuery::Arith(ArithOp::Add, a, b)) => {
            assert_eq!(as_f64(a) + as_f64(b), 3.5);
        }
        other => panic!("unexpected {:?}", other),
    }
    assert!(matches!(f.div(&Value::Integer(0)), Err(VmError::DivisionByZero)));
    assert_eq!(f.as_integer().unwrap(), Eval::NeedsFloat(FloatQuery::ToInteger(2.5f64.to_bits())));
}

#[test]
fn type_errors_are_reported() {
    assert!(matches!(Value::Null.add(&Value::Integer(1)), Err(VmError::CannotAdd(_, _))));
    assert!(matches!(
        Value::String("a".to_string()).sub(&Value::String("b".to_string())),
        Err(VmError::CannotSubtract(_, _))
    ));
    assert!(matches!(Value::Boolean(true).mul(&Value::Integer(1)), Err(VmError::CannotMultiply(_, _))));
    assert!(matches!(Value::Null.div(&Value::Null), Err(VmError::CannotDivide(_, _))));
    assert!(matches!(Value::Null.as_integer(), Err(VmError::CannotConvertToInteger(Value::Null))));
    assert!(matches!(
        Value::String("x".to_string()).as_float(),
        Err(VmError::CannotConvertToFloat(_))
    ));
}

#[test]
fn truthiness_of_each_kind() {
    assert_eq!(Value::Integer(0).as_bool(), Eval::Ready(false));
    assert_eq!(Value::String(String::new()).as_bool(), Eval::Ready(false));
    assert_eq!(Value::String("x".to_string()).as_bool(), Eval::Ready(true));
    assert_eq!(Value::Null.as_bool(), Eval::Ready(false));
    assert_eq!(
        Value::Float(0).as_bool(),
        Eval::NeedsFloat(FloatQuery::IsNonZero(0))
    );
    assert_eq!(Value::Boolean(true).as_integer().unwrap(), Eval::Ready(1));
    assert_eq!(Value::Boolean(true).as_float().unwrap(), FloatOperand::Int(1));
}

#[test]
fn equality_of_values() {
    assert_eq!(values_equal(&Value::Integer(1), &Value::Integer(1)), Eval::Ready(true));
    assert_eq!(values_equal(&Value::Integer(1), &Value::Boolean(true)), Eval::Ready(false));
    assert_eq!(values_equal(&Value::Null, &Value::Null), Eval::Ready(true));
    assert_eq!(
        values_equal(&Value::String("a".to_string()), &Value::String("a".to_string())),
        Eval::Ready(true)
    );
    assert_eq!(
        values_equal(&Value::Float(1), &Value::Float(1)),
        Eval::NeedsFloat(FloatQuery::Equal(1, 1))
    );
}
