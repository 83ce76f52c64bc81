use log_viewer::json::{Number, Value};

fn object(members: Vec<(&str, Value)>) -> Value {
    Value::Object(members.into_iter().map(|(k, v)| (k.to_string(), v)).collect())
}

#[test]
fn values_are_built_from_their_parts() {
    assert_eq!(Value::string("abc"), Value::String("abc".to_string()));
    assert_eq!(Value::array(vec![Value::Null]), Value::Array(vec![Value::Null]));
    assert_eq!(
        Value::object(vec![("k".to_string(), Value::Bool(true))]),
        object(vec![("k", Value::Bool(true))])
    );
    assert_eq!(
        Value::singleton("k", Value::Number(Number::NegInt(-1))),
        object(vec![("k", Value::Number(Number::NegInt(-1)))])
    );
}

#[test]
fn a_field_is_taken_out_of_an_object() {
    let value = object(vec![("a", Value::Bool(true)), ("b", Value::Null)]);
    assert_eq!(value.into_field("a"), Some(Value::Bool(true)));
    let value = object(vec![("a", Value::Bool(true)), ("b", Value::Null)]);
    assert_eq!(value.into_field("b"), Some(Value::Null));
    let value = object(vec![("a", Value::Bool(true)), ("b", Value::Null)]);
    assert_eq!(value.into_field("c"), None);
    let value = object(vec![("a", Value::Bool(true)), ("a", Value::Bool(false))]);
    assert_eq!(value.into_field("a"), Some(Value::Bool(false)));
    assert_eq!(Value::Null.into_field("a"), None);
    assert_eq!(Value::Array(vec![Value::Null]).into_field("a"), None);
    assert_eq!(Value::String("a".to_string()).into_field("a"), None);
}

#[test]
fn a_copy_is_the_same_tree() {
    let value = object(vec![
        ("a", Value::Array(vec![Value::Null, Value::Bool(false), Value::string("x")])),
        ("b", object(vec![("c", Value::Number(Number::Float(0x3ff8000000000000)))])),
        ("d", Value::Number(Number::PosInt(7))),
    ]);
    let copy = value.clone();
    assert_eq!(copy, value);
    assert_eq!(Value::Null.clone(), Value::Null);
    assert_eq!(Value::Array(vec![]).clone(), Value::Array(vec![]));
}
