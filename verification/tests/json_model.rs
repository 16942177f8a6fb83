use rockbuild::json::{field_strings, valueToVec, JsonNumber, JsonValue};

fn s(x: &str) -> JsonValue {
    JsonValue::Str(x.to_string())
}

fn obj(members: Vec<(&str, JsonValue)>) -> JsonValue {
    JsonValue::Object(members.into_iter().map(|(k, v)| (k.to_string(), v)).collect())
}

#[test]
fn value_to_vec_of_a_string_is_that_string() {
    assert_eq!(valueToVec(&s("a.c")), vec!["a.c".to_string()]);
}

#[test]
fn value_to_vec_of_an_array_keeps_its_strings_in_order() {
    let v = JsonValue::Array(vec![s("a"), JsonValue::Bool(true), s("b"), JsonValue::Null, s("c")]);
    assert_eq!(valueToVec(&v), vec!["a".to_string(), "b".to_string(), "c".to_string()]);
}

#[test]
fn value_to_vec_of_other_values_is_empty() {
    assert!(valueToVec(&JsonValue::Null).is_empty());
    assert!(valueToVec(&JsonValue::Bool(false)).is_empty());
    assert!(valueToVec(&JsonValue::Number(JsonNumber::PosInt(3))).is_empty());
    assert!(valueToVec(&obj(vec![("a", s("x"))])).is_empty());
}

#[test]
fn field_reads_the_first_member_with_the_key() {
    let j = obj(vec![("Target", s("one")), ("Target", s("two"))]);
    match j.field("Target") {
        Some(JsonValue::Str(t)) => assert_eq!(t, "one"),
        _ => panic!("missing member"),
    }
    assert!(j.field("Version").is_none());
    assert!(s("x").field("Target").is_none());
}

#[test]
fn scalar_readers_accept_only_their_kind() {
    assert_eq!(JsonValue::Number(JsonNumber::PosInt(7)).as_u64(), Some(7));
    assert_eq!(JsonValue::Number(JsonNumber::NegInt(-7)).as_u64(), None);
    assert_eq!(JsonValue::Number(JsonNumber::Float).as_u64(), None);
    assert_eq!(JsonValue::Bool(true).as_bool(), Some(true));
    assert_eq!(s("true").as_bool(), None);
    assert_eq!(s("x").as_str().map(|t| t.as_str()), Some("x"));
    assert!(JsonValue::Null.as_array().is_none());
}

#[test]
fn field_strings_of_a_missing_member_is_empty() {
    let j = obj(vec![("CSource", JsonValue::Array(vec![s("a.c"), s("b.c")]))]);
    assert_eq!(field_strings(&j, "CSource"), vec!["a.c".to_string(), "b.c".to_string()]);
    assert!(field_strings(&j, "ASMSource").is_empty());
}
