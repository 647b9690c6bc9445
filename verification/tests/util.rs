use radical_search::util::{value_to_arr, value_to_bool, value_to_str, Options, Value};

#[test]
fn default_options() {
    let options = Options::default();
    assert_eq!(options.limit, 0);
    assert_eq!(options.query, "");
    assert!(!options.interactive);
}

#[test]
fn values_give_what_they_hold() {
    assert!(value_to_bool(&Value::Bool(true)));
    assert!(!value_to_bool(&Value::Bool(false)));
    assert_eq!(value_to_str(&Value::String("猫".to_string())), "猫");
    let array = Value::Array(vec![Value::Null, Value::Bool(true)]);
    let elements = value_to_arr(&array);
    assert_eq!(elements.len(), 2);
    assert!(matches!(elements[0], Value::Null));
    assert!(matches!(elements[1], Value::Bool(true)));
}

#[test]
fn members_are_found_by_name() {
    let object = Value::Object(vec![
        ("a".to_string(), Value::Bool(true)),
        ("語".to_string(), Value::Null),
        ("a".to_string(), Value::Bool(false)),
    ]);
    assert!(matches!(object.get("a"), Some(Value::Bool(true))));
    assert!(matches!(object.get("語"), Some(Value::Null)));
    assert!(object.get("b").is_none());
    assert!(object.get("").is_none());
    assert!(Value::Array(vec![Value::Null]).get("a").is_none());
    assert!(Value::String("a".to_string()).get("a").is_none());
}
