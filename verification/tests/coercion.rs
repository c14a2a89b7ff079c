use etch::coerce::{coerce, Coerce};
use etch::errors::Error;
use etch::value::Value;

fn s(t: &str) -> Value {
    Value::Str(t.to_string())
}

#[test]
fn int_round_trip() {
    match coerce(s("42"), Some(Coerce::Int)) {
        Ok(Value::Int(i)) => assert_eq!(i, 42),
        _ => panic!("expected Int"),
    }
    match coerce(s("-17"), Some(Coerce::Int)) {
        Ok(Value::Int(i)) => assert_eq!(i, -17),
        _ => panic!("expected Int"),
    }
}

#[test]
fn int_rounds_to_nearest() {
    match coerce(s("3.7"), Some(Coerce::Int)) {
        Ok(Value::Int(i)) => assert_eq!(i, 4),
        _ => panic!("expected Int"),
    }
    match coerce(s("3.4"), Some(Coerce::Int)) {
        Ok(Value::Int(i)) => assert_eq!(i, 3),
        _ => panic!("expected Int"),
    }
    // Ties round away from zero.
    match coerce(s("2.5"), Some(Coerce::Int)) {
        Ok(Value::Int(i)) => assert_eq!(i, 3),
        _ => panic!("expected Int"),
    }
    match coerce(s("-2.5"), Some(Coerce::Int)) {
        Ok(Value::Int(i)) => assert_eq!(i, -3),
        _ => panic!("expected Int"),
    }
    // Exponents count.
    match coerce(s("3e2"), Some(Coerce::Int)) {
        Ok(Value::Int(i)) => assert_eq!(i, 300),
        _ => panic!("expected Int"),
    }
}

#[test]
fn bool_round_trip() {
    for t in ["true", "TRUE", "y", "1"] {
        match coerce(s(t), Some(Coerce::Bool)) {
            Ok(Value::Bool(b)) => assert!(b, "{t}"),
            _ => panic!("expected Bool for {t}"),
        }
    }
    for t in ["false", "False", "n", "0"] {
        match coerce(s(t), Some(Coerce::Bool)) {
            Ok(Value::Bool(b)) => assert!(!b, "{t}"),
            _ => panic!("expected Bool for {t}"),
        }
    }
    assert!(coerce(s("maybe"), Some(Coerce::Bool)).is_err());
    assert!(coerce(Value::Int(2), Some(Coerce::Bool)).is_err());
    match coerce(Value::Int(1), Some(Coerce::Bool)) {
        Ok(Value::Bool(b)) => assert!(b),
        _ => panic!("expected Bool"),
    }
}

#[test]
fn float_round_trip() {
    match coerce(s(" 3.5 "), Some(Coerce::Float)) {
        Ok(Value::Float(t)) => assert_eq!(t, "3.5"),
        _ => panic!("expected Float"),
    }
    assert!(coerce(s("abc"), Some(Coerce::Float)).is_err());
    match coerce(Value::Int(4), Some(Coerce::Float)) {
        Ok(Value::Int(i)) => assert_eq!(i, 4),
        _ => panic!("numbers pass through"),
    }
}

#[test]
fn trimming_is_unconditional() {
    match coerce(s("  padded \n"), None) {
        Ok(Value::Str(t)) => assert_eq!(t, "padded"),
        _ => panic!("expected Str"),
    }
    match coerce(Value::Int(9), None) {
        Ok(Value::Int(i)) => assert_eq!(i, 9),
        _ => panic!("expected Int"),
    }
}

#[test]
fn str_target_stringifies() {
    match coerce(Value::Int(5), Some(Coerce::Str)) {
        Ok(Value::Str(t)) => assert_eq!(t, "5"),
        _ => panic!("expected Str"),
    }
    match coerce(Value::Bool(true), Some(Coerce::Str)) {
        Ok(Value::Str(t)) => assert_eq!(t, "true"),
        _ => panic!("expected Str"),
    }
    match coerce(Value::Null, Some(Coerce::Str)) {
        Ok(Value::Str(t)) => assert_eq!(t, "null"),
        _ => panic!("expected Str"),
    }
    let list = Value::List(vec![Value::Int(1), Value::Str("a\"b".to_string())]);
    match coerce(list, Some(Coerce::Str)) {
        Ok(Value::Str(t)) => assert_eq!(t, "[1,\"a\\\"b\"]"),
        _ => panic!("expected Str"),
    }
    match coerce(s("keep"), Some(Coerce::Str)) {
        Ok(Value::Str(t)) => assert_eq!(t, "keep"),
        _ => panic!("strings pass through"),
    }
}

#[test]
fn json_target_parses() {
    // The surrounding trim plus the parse both show: the canonical text has
    // no inner spaces left.
    match coerce(s(" {\"a\": 1, \"b\": [true, null]} "), Some(Coerce::Json)) {
        Ok(Value::Tree(t)) => assert_eq!(t, "{\"a\":1,\"b\":[true,null]}"),
        _ => panic!("expected Tree"),
    }
    assert!(coerce(s("{oops"), Some(Coerce::Json)).is_err());
    assert!(coerce(Value::Int(1), Some(Coerce::Json)).is_err());
}

#[test]
fn coercion_error_is_bounded_and_named() {
    let long = "x".repeat(400);
    let err = coerce(s(&long), Some(Coerce::Bool)).unwrap_err();
    match &err {
        Error::Coercion(_) => {}
        _ => panic!("expected a coercion error"),
    }
    let msg = err.message();
    assert!(msg.contains("bool"));
    assert!(msg.contains("..."));
    // 300 shown characters plus the fixed wording: well under the input size.
    assert!(msg.len() < 450);
}

#[test]
fn int_error_names_type() {
    let err = coerce(s("wat"), Some(Coerce::Int)).unwrap_err();
    assert_eq!(
        err.message(),
        "Failed to coerce to type 'int'. Input: \"wat\". the text is not a numeric value"
    );
}
