use schermz::encoding::{decimal_text, range_string};
use schermz::{JsonMember, JsonValue, Schema, SchemaField, SchemaValueType};

fn text(value: &str) -> JsonValue {
    JsonValue::String(value.to_string())
}

fn member(key: &str, value: JsonValue) -> JsonMember {
    JsonMember { key: key.to_string(), value }
}

#[test]
fn decimal_digits_of_lengths() {
    assert_eq!(decimal_text(0), "0");
    assert_eq!(decimal_text(7), "7");
    assert_eq!(decimal_text(10), "10");
    assert_eq!(decimal_text(109), "109");
    assert_eq!(decimal_text(9_876_543_210), "9876543210");
    assert_eq!(decimal_text(usize::MAX), usize::MAX.to_string());
}

#[test]
fn text_of_a_string_range() {
    assert_eq!(range_string(5, 5), "STRING(5)");
    assert_eq!(range_string(1, 7), "STRING(1, 7)");
    assert_eq!(range_string(0, 0), "STRING(0)");
    assert_eq!(range_string(0, 1234), "STRING(0, 1234)");
}

#[test]
fn encoding_of_each_kind_of_entry() {
    assert_eq!(SchemaValueType::Primitive("NULL".to_string()).to_json(), text("NULL"));
    assert_eq!(SchemaValueType::Primitive("BOOL".to_string()).to_json(), text("BOOL"));
    assert_eq!(SchemaValueType::Primitive("NUMBER".to_string()).to_json(), text("NUMBER"));
    assert_eq!(SchemaValueType::String(12, 12).to_json(), text("STRING(12)"));
    assert_eq!(SchemaValueType::String(3, 40).to_json(), text("STRING(3, 40)"));

    let items = SchemaValueType::Array(vec![
        SchemaValueType::Primitive("BOOL".to_string()),
        SchemaValueType::String(2, 2),
    ]);
    let expected = JsonValue::Object(vec![member(
        "ARRAY",
        JsonValue::Array(vec![text("BOOL"), text("STRING(2)")]),
    )]);
    assert_eq!(items.to_json(), expected);
    let empty = JsonValue::Object(vec![member("ARRAY", JsonValue::Array(vec![]))]);
    assert_eq!(SchemaValueType::Array(vec![]).to_json(), empty);
}

#[test]
fn object_entries_are_encoded_without_a_marker() {
    let nested = Schema {
        name: "inner".to_string(),
        fields: vec![SchemaField {
            name: "x".to_string(),
            types: vec![SchemaValueType::Primitive("NUMBER".to_string())],
        }],
    };
    let encoded_nested = JsonValue::Object(vec![member(
        "x",
        JsonValue::Object(vec![member("types", JsonValue::Array(vec![text("NUMBER")]))]),
    )]);
    assert_eq!(nested.to_json(), encoded_nested);
    assert_eq!(SchemaValueType::Object(nested.clone()).to_json(), encoded_nested);

    let outer = Schema {
        name: "root".to_string(),
        fields: vec![SchemaField {
            name: "o".to_string(),
            types: vec![SchemaValueType::Object(nested), SchemaValueType::String(1, 1)],
        }],
    };
    let expected = JsonValue::Object(vec![member(
        "o",
        JsonValue::Object(vec![member(
            "types",
            JsonValue::Array(vec![encoded_nested, text("STRING(1)")]),
        )]),
    )]);
    assert_eq!(outer.to_json(), expected);
}

#[test]
fn json_values_compare_by_content() {
    let build = || {
        JsonValue::Object(vec![
            member("a", JsonValue::Array(vec![JsonValue::Null, JsonValue::Bool(true)])),
            member("b", JsonValue::Number("12".to_string())),
        ])
    };
    assert_eq!(build(), build());
    assert_ne!(build(), JsonValue::Object(vec![]));
    assert_ne!(JsonValue::Bool(true), JsonValue::Bool(false));
    assert_ne!(JsonValue::Number("1".to_string()), JsonValue::Number("1.0".to_string()));
    assert_ne!(JsonValue::Number("1".to_string()), text("1"));
    assert_ne!(JsonValue::Null, JsonValue::Array(vec![]));
    let swapped = JsonValue::Object(vec![
        member("b", JsonValue::Number("12".to_string())),
        member("a", JsonValue::Array(vec![JsonValue::Null, JsonValue::Bool(true)])),
    ]);
    assert_ne!(build(), swapped);
}
