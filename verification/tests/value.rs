use serde_envfile::{from_str, to_string, StructuredValue, Value};

fn pairs(items: &[(&str, &str)]) -> Vec<(String, String)> {
    items.iter().map(|(k, v)| (k.to_string(), v.to_string())).collect()
}

#[test]
fn value_to_string() {
    //* Given
    let env = Value::from_iter(pairs(&[("KEY1", "VALUE1"), ("KEY2", "VALUE2")]));

    //* When
    let value_serialized =
        to_string(&env.to_structured()).expect("Failed to convert Value to String");
    let value_deserialized = from_str(&value_serialized).expect("Failed to deserialize Value");

    //* Then
    // Assert that both expected lines are present
    assert!(value_serialized.contains(r#"KEY1="VALUE1""#));
    assert!(value_serialized.contains(r#"KEY2="VALUE2""#));

    // Assert the serialized output follows the order of the original input
    let expected_serialized = "KEY1=\"VALUE1\"\nKEY2=\"VALUE2\"";
    assert_eq!(value_serialized, expected_serialized);

    // Create a new Value with lowercase keys to match the deserialization behavior
    let expected_deserialized = Value::from_iter(pairs(&[("key1", "VALUE1"), ("key2", "VALUE2")]));
    assert_eq!(value_deserialized, expected_deserialized);
}

#[test]
fn new_value_is_empty() {
    let env = Value::new();
    assert_eq!(env.len(), 0);
    assert!(env.is_empty());
    assert_eq!(env.get("a"), None);
    assert_eq!(env.get_index(0), None);
}

#[test]
fn insert_replaces_in_place_and_appends() {
    let mut env = Value::new();
    assert_eq!(env.insert("a".into(), "1".into()), None);
    assert_eq!(env.insert("b".into(), "2".into()), None);
    assert_eq!(env.insert("a".into(), "3".into()), Some("1".to_string()));
    assert_eq!(env.len(), 2);
    assert!(!env.is_empty());
    assert_eq!(env.get("a"), Some(&"3".to_string()));
    assert_eq!(env.get("b"), Some(&"2".to_string()));
    assert_eq!(env.get("c"), None);
    assert_eq!(env.get_index(0), Some((&"a".to_string(), &"3".to_string())));
    assert_eq!(env.get_index(1), Some((&"b".to_string(), &"2".to_string())));
    assert_eq!(env.get_index(2), None);
    assert!(env.contains_key("a"));
    assert!(!env.contains_key("A"));
}

#[test]
fn from_iter_inserts_in_order() {
    let env = Value::from_iter(pairs(&[("KEY1", "VALUE1"), ("KEY2", "VALUE2"), ("KEY1", "x")]));
    assert_eq!(env.get("KEY1").unwrap(), "x");
    assert_eq!(env.get("KEY2").unwrap(), "VALUE2");
    assert_eq!(env.len(), 2);
    assert_eq!(env.get_index(0), Some((&"KEY1".to_string(), &"x".to_string())));
}

#[test]
fn clone_holds_the_same_pairs() {
    let env = Value::from_iter(pairs(&[("a", "1"), ("b", "2")]));
    let copy = env.clone();
    assert_eq!(copy, env);
    assert_eq!(copy.get_index(1), Some((&"b".to_string(), &"2".to_string())));
}

#[test]
fn to_structured_has_one_string_field_for_each_pair() {
    let env = Value::from_iter(pairs(&[("a", "1"), ("b", "")]));
    assert_eq!(
        env.to_structured(),
        StructuredValue::Compound(vec![
            ("a".to_string(), StructuredValue::Str("1".to_string())),
            ("b".to_string(), StructuredValue::Str(String::new())),
        ])
    );
}

#[test]
fn pairs_come_out_in_order() {
    let env = Value::from_iter(pairs(&[("b", "2"), ("a", "1"), ("b", "3")]));
    assert_eq!(env.pairs(), pairs(&[("b", "3"), ("a", "1")]));
    assert_eq!(Value::new().pairs(), pairs(&[]));
    assert_eq!(Value::default(), Value::new());
}
