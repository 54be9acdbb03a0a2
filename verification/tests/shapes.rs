use schermz::{
    JsonMember, JsonValue, Schema, SchemaField, SchemaObject, SchemaObjectKey, SchemaValueType,
    ValueType,
};

fn key(id: &str, v_type: ValueType) -> SchemaObjectKey {
    SchemaObjectKey { id: id.to_string(), v_type }
}

fn shape(keys: Vec<SchemaObjectKey>) -> SchemaObject {
    SchemaObject { keys }
}

fn primitive(tag: &str) -> SchemaValueType {
    SchemaValueType::Primitive(tag.to_string())
}

fn field(name: &str, types: Vec<SchemaValueType>) -> SchemaField {
    SchemaField { name: name.to_string(), types }
}

fn named(name: &str, fields: Vec<SchemaField>) -> Schema {
    Schema { name: name.to_string(), fields }
}

fn key_ids(object: &SchemaObject) -> Vec<&str> {
    object.keys.iter().map(|key| key.id.as_str()).collect()
}

#[test]
fn classification_keeps_order_and_repetitions() {
    let json = JsonValue::Array(vec![
        JsonValue::Null,
        JsonValue::Bool(false),
        JsonValue::Number("1.5e3".to_string()),
        JsonValue::String("abc".to_string()),
        JsonValue::String("abc".to_string()),
        JsonValue::Array(vec![]),
        JsonValue::Object(vec![JsonMember {
            key: "k".to_string(),
            value: JsonValue::String("".to_string()),
        }]),
    ]);
    match ValueType::from_json(&json) {
        ValueType::Array(items) => {
            assert_eq!(items.len(), 7);
            assert!(matches!(items[0], ValueType::Null));
            assert!(matches!(items[1], ValueType::Bool));
            assert!(matches!(items[2], ValueType::Number));
            assert!(matches!(items[3], ValueType::String(3)));
            assert!(matches!(items[4], ValueType::String(3)));
            assert!(matches!(&items[5], ValueType::Array(inner) if inner.is_empty()));
            match &items[6] {
                ValueType::Object(object) => {
                    assert_eq!(key_ids(object), vec!["k"]);
                    assert!(matches!(object.keys[0].v_type, ValueType::String(0)));
                }
                other => panic!("{:?}", other),
            }
        }
        other => panic!("{:?}", other),
    }
}

#[test]
fn shape_of_an_object_lists_its_members_in_order() {
    let json = JsonValue::Object(vec![
        JsonMember { key: "b".to_string(), value: JsonValue::Null },
        JsonMember { key: "a".to_string(), value: JsonValue::String("xy".to_string()) },
    ]);
    let object = SchemaObject::from_json(&json);
    assert_eq!(key_ids(&object), vec!["b", "a"]);
    assert!(matches!(object.keys[0].v_type, ValueType::Null));
    assert!(matches!(object.keys[1].v_type, ValueType::String(2)));
}

#[test]
fn summary_of_a_single_value() {
    assert!(ValueType::Null.to_schema_value_type(true) == primitive("NULL"));
    assert!(ValueType::Bool.to_schema_value_type(false) == primitive("BOOL"));
    assert!(ValueType::Number.to_schema_value_type(true) == primitive("NUMBER"));
    assert!(ValueType::String(4).to_schema_value_type(true) == SchemaValueType::String(4, 4));

    let object = ValueType::Object(shape(vec![key("n", ValueType::Number)]));
    let expected =
        SchemaValueType::Object(named("object", vec![field("n", vec![primitive("NUMBER")])]));
    assert!(object.to_schema_value_type(false) == expected);

    let items = ValueType::Array(vec![
        ValueType::Number,
        ValueType::Null,
        ValueType::Number,
        ValueType::String(2),
        ValueType::String(2),
        ValueType::String(5),
    ]);
    let expected = SchemaValueType::Array(vec![
        primitive("NUMBER"),
        primitive("NULL"),
        SchemaValueType::String(2, 2),
        SchemaValueType::String(5, 5),
    ]);
    assert!(items.to_schema_value_type(true) == expected);
}

#[test]
fn fingerprint_ignores_key_order_and_values() {
    let left = shape(vec![key("beta", ValueType::Number), key("alpha", ValueType::Null)]);
    let right = shape(vec![key("alpha", ValueType::String(9)), key("beta", ValueType::Bool)]);
    let other = shape(vec![key("alpha", ValueType::Null), key("gamma", ValueType::Null)]);
    assert_eq!(Schema::keys_fingerprint(&left), Schema::keys_fingerprint(&right));
    assert_ne!(Schema::keys_fingerprint(&left), Schema::keys_fingerprint(&other));
    assert_ne!(Schema::keys_fingerprint(&left), Schema::keys_fingerprint(&shape(vec![])));
}

#[test]
fn fingerprint_is_of_the_joined_names() {
    let split = shape(vec![key("ab", ValueType::Null), key("c", ValueType::Null)]);
    let joined = shape(vec![key("abc", ValueType::Null)]);
    assert_eq!(Schema::keys_fingerprint(&split), Schema::keys_fingerprint(&joined));
}

#[test]
fn grouping_cuts_at_every_change_of_fingerprint() {
    let a = || shape(vec![key("a", ValueType::Null)]);
    let b = || shape(vec![key("b", ValueType::Null)]);
    let ab = || shape(vec![key("b", ValueType::Null), key("a", ValueType::Null)]);
    let ba = || shape(vec![key("a", ValueType::Number), key("b", ValueType::Null)]);

    let groups =
        Schema::group_objects_by_keys_fingerprint(vec![a(), a(), b(), ab(), ba(), a(), b(), b()]);
    let sizes: Vec<usize> = groups.iter().map(|group| group.len()).collect();
    assert_eq!(sizes, vec![2, 1, 2, 1, 2]);
    assert_eq!(key_ids(&groups[2][0]), vec!["b", "a"]);
    assert_eq!(key_ids(&groups[2][1]), vec!["a", "b"]);
    assert_eq!(key_ids(&groups[3][0]), vec!["a"]);

    assert!(Schema::group_objects_by_keys_fingerprint(vec![]).is_empty());
    let single = Schema::group_objects_by_keys_fingerprint(vec![ab()]);
    assert_eq!(single.len(), 1);
    assert_eq!(single[0].len(), 1);
}

#[test]
fn reduction_of_no_shapes_has_no_fields() {
    let schema = Schema::from_objects("anything".to_string(), vec![], false);
    assert_eq!(schema.name, "anything");
    assert!(schema.fields.is_empty());
    assert!(Schema::create_map(vec![], true).is_empty());
}

#[test]
fn reduction_of_hand_built_shapes() {
    let shapes = || {
        vec![
            shape(vec![
                key("id", ValueType::Number),
                key("tag", ValueType::String(3)),
                key("child", ValueType::Object(shape(vec![key("x", ValueType::Bool)]))),
            ]),
            shape(vec![
                key("tag", ValueType::String(10)),
                key("id", ValueType::Null),
                key("child", ValueType::Object(shape(vec![key("y", ValueType::Bool)]))),
            ]),
            shape(vec![key("id", ValueType::Number)]),
        ]
    };
    let merged = Schema::from_objects("root".to_string(), shapes(), true);
    let expected = named(
        "root",
        vec![
            field(
                "child",
                vec![SchemaValueType::Object(named(
                    "child",
                    vec![field("x", vec![primitive("BOOL")]), field("y", vec![primitive("BOOL")])],
                ))],
            ),
            field("id", vec![primitive("NUMBER"), primitive("NULL")]),
            field("tag", vec![SchemaValueType::String(3, 10)]),
        ],
    );
    assert!(merged == expected);

    let fields = Schema::create_map(shapes(), false);
    let expected = vec![
        field(
            "child",
            vec![
                SchemaValueType::Object(named("child", vec![field("x", vec![primitive("BOOL")])])),
                SchemaValueType::Object(named("child", vec![field("y", vec![primitive("BOOL")])])),
            ],
        ),
        field("id", vec![primitive("NUMBER"), primitive("NULL")]),
        field("tag", vec![SchemaValueType::String(3, 10)]),
    ];
    assert_eq!(fields.len(), expected.len());
    for (left, right) in fields.iter().zip(expected.iter()) {
        assert_eq!(left.name, right.name);
        assert!(left.types == right.types);
    }
}

#[test]
fn a_key_that_occurs_twice_is_observed_twice() {
    let twice = shape(vec![key("k", ValueType::String(1)), key("k", ValueType::String(6))]);
    let schema = Schema::from_objects("root".to_string(), vec![twice], true);
    assert!(schema == named("root", vec![field("k", vec![SchemaValueType::String(1, 6)])]));
}

#[test]
fn copies_are_equal_and_changes_are_not() {
    let schema = Schema::from_objects(
        "root".to_string(),
        vec![shape(vec![
            key("a", ValueType::Array(vec![ValueType::Number, ValueType::String(1)])),
            key("b", ValueType::Object(shape(vec![key("c", ValueType::Null)]))),
        ])],
        true,
    );
    let copy = schema.clone();
    assert!(copy == schema);
    assert!(copy.fields[0].clone().types == schema.fields[0].types);

    let mut renamed = schema.clone();
    renamed.name = "other".to_string();
    assert!(renamed != schema);

    let mut shorter = schema.clone();
    shorter.fields.pop();
    assert!(shorter != schema);

    let mut changed = schema.clone();
    changed.fields[0].types[0] = SchemaValueType::String(0, 0);
    assert!(changed != schema);

    assert!(SchemaValueType::String(1, 2) != SchemaValueType::String(1, 3));
    assert!(primitive("NULL") != primitive("BOOL"));
    assert!(primitive("NULL").clone() == primitive("NULL"));
}

#[test]
fn copies_of_shapes_reduce_alike() {
    let object = shape(vec![
        key("a", ValueType::Array(vec![ValueType::Bool, ValueType::String(7)])),
        key("b", ValueType::Object(shape(vec![key("c", ValueType::Number)]))),
    ]);
    let copy = object.clone();
    assert_eq!(key_ids(&copy), vec!["a", "b"]);
    assert!(matches!(copy.keys[0].clone().v_type, ValueType::Array(items) if items.len() == 2));
    let left = Schema::from_objects("s".to_string(), vec![object], false);
    let right = Schema::from_objects("s".to_string(), vec![copy], false);
    assert!(left == right);
    assert!(matches!(ValueType::String(3).clone(), ValueType::String(3)));
}
