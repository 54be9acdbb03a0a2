use schermz::{JsonMember, JsonValue, Schema, SchemaError};

fn text(value: &str) -> JsonValue {
    JsonValue::String(value.to_string())
}

fn number(literal: &str) -> JsonValue {
    JsonValue::Number(literal.to_string())
}

fn array(items: Vec<JsonValue>) -> JsonValue {
    JsonValue::Array(items)
}

fn object(members: Vec<(&str, JsonValue)>) -> JsonValue {
    JsonValue::Object(
        members
            .into_iter()
            .map(|(key, value)| JsonMember { key: key.to_string(), value })
            .collect(),
    )
}

/// The encoding of a schema with these fields, which a schema lists in
/// ascending order of their names.
fn schema_json(mut fields: Vec<(&str, JsonValue)>) -> JsonValue {
    fields.sort_by(|left, right| left.0.cmp(right.0));
    object(fields)
}

/// The encoding of a field with these types.
fn types(entries: Vec<JsonValue>) -> JsonValue {
    object(vec![("types", array(entries))])
}

/// The encoding of an array entry with these element summaries.
fn array_of(entries: Vec<JsonValue>) -> JsonValue {
    object(vec![("ARRAY", array(entries))])
}

/// Whether two encodings agree when the members of objects are matched by key
/// and the lists under `types` and `ARRAY` are compared as sets.
fn same_encoding(left: &JsonValue, right: &JsonValue) -> bool {
    match (left, right) {
        (JsonValue::Object(a), JsonValue::Object(b)) => {
            a.len() == b.len()
                && a.iter().all(|member| {
                    b.iter().any(|other| {
                        member.key == other.key
                            && same_member(&member.key, &member.value, &other.value)
                    })
                })
        }
        (JsonValue::Array(a), JsonValue::Array(b)) => {
            a.len() == b.len() && a.iter().zip(b.iter()).all(|(x, y)| same_encoding(x, y))
        }
        _ => left == right,
    }
}

fn same_member(key: &str, left: &JsonValue, right: &JsonValue) -> bool {
    match (left, right) {
        (JsonValue::Array(a), JsonValue::Array(b)) if key == "types" || key == "ARRAY" => {
            a.iter().all(|x| b.iter().any(|y| same_encoding(x, y)))
                && b.iter().all(|y| a.iter().any(|x| same_encoding(x, y)))
        }
        _ => same_encoding(left, right),
    }
}

fn sherlock() -> JsonValue {
    object(vec![
        ("name", text("Sherlock Holmes")),
        ("title", text("")),
        ("age", number("34")),
        (
            "personal_data",
            object(vec![("gender", text("male")), ("marital_status", text("single"))]),
        ),
        (
            "address",
            object(vec![
                ("street", text("10 Downing Street")),
                ("city", text("London")),
                ("zip", text("12345")),
                ("country_code", text("UK")),
            ]),
        ),
        (
            "phones",
            array(vec![
                text("+44 1234567"),
                text("+44 2345678"),
                number("12311"),
                object(vec![("mobile", text("+44 3456789"))]),
            ]),
        ),
    ])
}

fn tony() -> JsonValue {
    object(vec![
        ("name", text("Tony Soprano")),
        ("title", text("")),
        ("age", number("39")),
        (
            "personal_data",
            object(vec![("gender", text("male")), ("marital_status", text("married"))]),
        ),
        (
            "address",
            object(vec![
                ("street", text("14 Aspen Drive")),
                ("city", text("Caldwell")),
                ("zip", text("NJ 07006")),
                ("country", text("USA")),
                ("state", text("New Jersey")),
                ("country_code", text("US")),
            ]),
        ),
        (
            "phones",
            array(vec![
                text("+1 1234567"),
                text("+1 2345678"),
                text("+1 11111111111"),
                text("+1 301234566"),
                number("11224234"),
                object(vec![("mobile", text("+1 3456789"))]),
            ]),
        ),
    ])
}

fn angela() -> JsonValue {
    object(vec![
        ("name", text("Angela Merkel")),
        ("title", text("")),
        ("age", number("65")),
        (
            "personal_data",
            object(vec![("gender", text("female")), ("marital_status", text("married"))]),
        ),
        (
            "address",
            object(vec![
                ("street", text("Gr. Weg 3")),
                ("city", text("Potsdam")),
                ("zip", text("14467")),
                ("country", text("Germany")),
                ("state", text("Brandenburg")),
            ]),
        ),
        (
            "phones",
            array(vec![
                text("+49 1234222567"),
                text("+49 2343231678"),
                text("+49 1111131111111"),
                text("+49 301212334566"),
                number("9999222"),
                object(vec![("mobile", text("+49 343156789")), ("fax", text("+49 343156780"))]),
            ]),
        ),
    ])
}

fn jane() -> JsonValue {
    object(vec![
        ("name", text("Jane Doe")),
        ("title", text("Dr.")),
        ("age", text("73")),
        ("personal_data", object(vec![("gender", text("female"))])),
        ("address", JsonValue::Null),
        ("phones", JsonValue::Null),
    ])
}

fn people() -> JsonValue {
    array(vec![sherlock(), tony(), angela(), jane()])
}

#[test]
#[should_panic]
fn invalid_input() {
    Schema::from_json(&JsonValue::Null, false).unwrap();
}

#[test]
fn test_schema_from_object() {
    let json = object(vec![
        ("name", text("John Doe")),
        ("title", text("")),
        ("age", number("43")),
        (
            "address",
            object(vec![("street", text("10 Downing Street")), ("city", text("London"))]),
        ),
        (
            "phones",
            array(vec![
                text("+44 1234567"),
                text("+44 2345678"),
                number("123456"),
                object(vec![("mobile", text("+44 3456789"))]),
            ]),
        ),
    ]);
    let expected = schema_json(vec![
        ("name", types(vec![text("STRING(8)")])),
        ("title", types(vec![text("STRING(0)")])),
        ("age", types(vec![text("NUMBER")])),
        (
            "address",
            types(vec![schema_json(vec![
                ("street", types(vec![text("STRING(17)")])),
                ("city", types(vec![text("STRING(6)")])),
            ])]),
        ),
        (
            "phones",
            types(vec![array_of(vec![
                schema_json(vec![("mobile", types(vec![text("STRING(11)")]))]),
                text("NUMBER"),
                text("STRING(11)"),
            ])]),
        ),
    ]);
    let encoded = Schema::from_json(&json, true).unwrap().to_json();
    assert!(same_encoding(&encoded, &expected));
    assert_eq!(encoded, expected);
}

#[test]
fn test_schema_from_array_merged() {
    let expected = schema_json(vec![
        ("name", types(vec![text("STRING(8, 15)")])),
        ("title", types(vec![text("STRING(0, 3)")])),
        ("age", types(vec![text("STRING(2)"), text("NUMBER")])),
        (
            "personal_data",
            types(vec![schema_json(vec![
                ("gender", types(vec![text("STRING(4, 6)")])),
                ("marital_status", types(vec![text("STRING(6, 7)")])),
            ])]),
        ),
        (
            "address",
            types(vec![
                schema_json(vec![
                    ("street", types(vec![text("STRING(9, 17)")])),
                    ("city", types(vec![text("STRING(6, 8)")])),
                    ("zip", types(vec![text("STRING(5, 8)")])),
                    ("country_code", types(vec![text("STRING(2)")])),
                    ("country", types(vec![text("STRING(3, 7)")])),
                    ("state", types(vec![text("STRING(10, 11)")])),
                ]),
                text("NULL"),
            ]),
        ),
        (
            "phones",
            types(vec![
                text("NULL"),
                array_of(vec![
                    schema_json(vec![
                        ("mobile", types(vec![text("STRING(10, 13)")])),
                        ("fax", types(vec![text("STRING(13)")])),
                    ]),
                    text("NUMBER"),
                    text("STRING(10, 17)"),
                ]),
            ]),
        ),
    ]);
    let encoded = Schema::from_json(&people(), true).unwrap().to_json();
    assert!(same_encoding(&encoded, &expected));
    assert_eq!(encoded, expected);
}

#[test]
fn test_schema_from_array_unmerged() {
    let expected = schema_json(vec![
        ("name", types(vec![text("STRING(8, 15)")])),
        ("title", types(vec![text("STRING(0, 3)")])),
        ("age", types(vec![text("STRING(2)"), text("NUMBER")])),
        (
            "personal_data",
            types(vec![
                schema_json(vec![
                    ("gender", types(vec![text("STRING(4, 6)")])),
                    ("marital_status", types(vec![text("STRING(6, 7)")])),
                ]),
                schema_json(vec![("gender", types(vec![text("STRING(6)")]))]),
            ]),
        ),
        (
            "address",
            types(vec![
                schema_json(vec![
                    ("street", types(vec![text("STRING(17)")])),
                    ("city", types(vec![text("STRING(6)")])),
                    ("zip", types(vec![text("STRING(5)")])),
                    ("country_code", types(vec![text("STRING(2)")])),
                ]),
                schema_json(vec![
                    ("street", types(vec![text("STRING(14)")])),
                    ("city", types(vec![text("STRING(8)")])),
                    ("zip", types(vec![text("STRING(8)")])),
                    ("country", types(vec![text("STRING(3)")])),
                    ("state", types(vec![text("STRING(10)")])),
                    ("country_code", types(vec![text("STRING(2)")])),
                ]),
                schema_json(vec![
                    ("street", types(vec![text("STRING(9)")])),
                    ("city", types(vec![text("STRING(7)")])),
                    ("zip", types(vec![text("STRING(5)")])),
                    ("country", types(vec![text("STRING(7)")])),
                    ("state", types(vec![text("STRING(11)")])),
                ]),
                text("NULL"),
            ]),
        ),
        (
            "phones",
            types(vec![
                text("NULL"),
                array_of(vec![
                    schema_json(vec![("mobile", types(vec![text("STRING(10, 11)")]))]),
                    schema_json(vec![
                        ("mobile", types(vec![text("STRING(13)")])),
                        ("fax", types(vec![text("STRING(13)")])),
                    ]),
                    text("NUMBER"),
                    text("STRING(10, 17)"),
                ]),
            ]),
        ),
    ]);
    let encoded = Schema::from_json(&people(), false).unwrap().to_json();
    assert!(same_encoding(&encoded, &expected));
    assert_eq!(encoded, expected);
}

#[test]
fn top_level_scalars_are_refused() {
    assert_eq!(
        Schema::from_json(&JsonValue::Null, true).err(),
        Some(SchemaError::InvalidTopLevelInput)
    );
    assert_eq!(
        Schema::from_json(&text("x"), false).err(),
        Some(SchemaError::InvalidTopLevelInput)
    );
    assert_eq!(
        Schema::from_json(&number("1"), false).err(),
        Some(SchemaError::InvalidTopLevelInput)
    );
    assert_eq!(
        Schema::from_json(&JsonValue::Bool(true), true).err(),
        Some(SchemaError::InvalidTopLevelInput)
    );
}

#[test]
fn array_without_objects_gives_no_fields() {
    let input = array(vec![number("1"), number("2"), text("x")]);
    for merge in [true, false] {
        let schema = Schema::from_json(&input, merge).unwrap();
        assert_eq!(schema.name, "root");
        assert!(schema.fields.is_empty());
        assert_eq!(schema.to_json(), object(vec![]));
    }
    let empty = Schema::from_json(&array(vec![]), true).unwrap();
    assert!(empty.fields.is_empty());
}

#[test]
fn elements_that_are_no_objects_are_dropped() {
    let mixed = array(vec![
        object(vec![("a", number("1"))]),
        number("5"),
        object(vec![("a", number("2"))]),
    ]);
    let plain = array(vec![object(vec![("a", number("1"))]), object(vec![("a", number("2"))])]);
    for merge in [true, false] {
        let left = Schema::from_json(&mixed, merge).unwrap();
        let right = Schema::from_json(&plain, merge).unwrap();
        assert!(left == right);
        assert_eq!(left.to_json(), schema_json(vec![("a", types(vec![text("NUMBER")]))]));
    }
}

#[test]
fn string_range_of_one_field() {
    let several = array(vec![
        object(vec![("s", text("abc"))]),
        object(vec![("s", text("abcdefg"))]),
        object(vec![("s", text("abcdefg"))]),
        object(vec![("s", text("a"))]),
    ]);
    let schema = Schema::from_json(&several, true).unwrap();
    assert_eq!(schema.to_json(), schema_json(vec![("s", types(vec![text("STRING(1, 7)")]))]));

    let equal = array(vec![
        object(vec![("s", text("12345"))]),
        object(vec![("s", text("abcde"))]),
        object(vec![("s", text("vwxyz"))]),
    ]);
    let schema = Schema::from_json(&equal, false).unwrap();
    assert_eq!(schema.to_json(), schema_json(vec![("s", types(vec![text("STRING(5)")]))]));
}

#[test]
fn string_lengths_count_bytes() {
    let input = object(vec![("s", text("h\u{e9}llo"))]);
    let schema = Schema::from_json(&input, true).unwrap();
    assert_eq!(schema.to_json(), schema_json(vec![("s", types(vec![text("STRING(6)")]))]));
}

#[test]
fn array_elements_are_gathered_over_instances() {
    let input = array(vec![
        object(vec![(
            "f",
            array(vec![text("a"), number("1"), object(vec![("m", text("x"))])]),
        )]),
        object(vec![("f", array(vec![text("b"), number("2")]))]),
    ]);
    let expected = schema_json(vec![(
        "f",
        types(vec![array_of(vec![
            schema_json(vec![("m", types(vec![text("STRING(1)")]))]),
            text("NUMBER"),
            text("STRING(1)"),
        ])]),
    )]);
    for merge in [true, false] {
        let schema = Schema::from_json(&input, merge).unwrap();
        assert_eq!(schema.to_json(), expected);
    }
}

#[test]
fn arrays_without_objects_still_give_an_entry() {
    let input = array(vec![
        object(vec![("tags", array(vec![text("a"), text("bcd")]))]),
        object(vec![("tags", array(vec![]))]),
        object(vec![("none", array(vec![]))]),
    ]);
    let expected = schema_json(vec![
        ("tags", types(vec![array_of(vec![text("STRING(1, 3)")])])),
        ("none", types(vec![array_of(vec![])])),
    ]);
    assert_eq!(Schema::from_json(&input, true).unwrap().to_json(), expected);
}

#[test]
fn type_list_keeps_the_bucket_order() {
    let input = array(vec![
        object(vec![("v", array(vec![JsonValue::Bool(true)]))]),
        object(vec![("v", JsonValue::Null)]),
        object(vec![("v", object(vec![("k", number("1"))]))]),
        object(vec![("v", JsonValue::Bool(false))]),
        object(vec![("v", text("abcd"))]),
        object(vec![("v", number("7"))]),
        object(vec![("v", JsonValue::Null)]),
    ]);
    let expected = schema_json(vec![(
        "v",
        types(vec![
            text("STRING(4)"),
            schema_json(vec![("k", types(vec![text("NUMBER")]))]),
            text("NULL"),
            text("BOOL"),
            text("NUMBER"),
            array_of(vec![text("BOOL")]),
        ]),
    )]);
    assert_eq!(Schema::from_json(&input, true).unwrap().to_json(), expected);
    assert_eq!(Schema::from_json(&input, false).unwrap().to_json(), expected);
}

#[test]
fn nested_arrays_are_summarised_by_themselves() {
    let input = object(vec![(
        "grid",
        array(vec![
            array(vec![number("1"), JsonValue::Null, number("2")]),
            array(vec![number("3"), JsonValue::Null]),
            array(vec![text("ab"), text("ab"), text("c")]),
            array(vec![object(vec![("x", number("1"))])]),
            array(vec![]),
        ]),
    )]);
    let expected = schema_json(vec![(
        "grid",
        types(vec![array_of(vec![
            array_of(vec![text("NUMBER"), text("NULL")]),
            array_of(vec![text("STRING(2)"), text("STRING(1)")]),
            array_of(vec![schema_json(vec![("x", types(vec![text("NUMBER")]))])]),
            array_of(vec![]),
        ])]),
    )]);
    assert_eq!(Schema::from_json(&input, true).unwrap().to_json(), expected);
}

#[test]
fn merging_unites_the_fields_of_all_objects() {
    let input = array(vec![
        object(vec![("o", object(vec![("a", text("x"))]))]),
        object(vec![("o", object(vec![("b", number("1"))]))]),
        object(vec![("o", object(vec![("a", text("yyy")), ("c", JsonValue::Null)]))]),
    ]);
    let expected = schema_json(vec![(
        "o",
        types(vec![schema_json(vec![
            ("a", types(vec![text("STRING(1, 3)")])),
            ("b", types(vec![text("NUMBER")])),
            ("c", types(vec![text("NULL")])),
        ])]),
    )]);
    assert_eq!(Schema::from_json(&input, true).unwrap().to_json(), expected);
}

#[test]
fn without_merging_each_run_is_an_entry() {
    let first = object(vec![("o", object(vec![("a", text("x"))]))]);
    let second = object(vec![("o", object(vec![("a", text("yy"))]))]);
    let other = object(vec![("o", object(vec![("b", number("1"))]))]);

    let neighbours = array(vec![first.clone_value(), second.clone_value(), other.clone_value()]);
    let expected = schema_json(vec![(
        "o",
        types(vec![
            schema_json(vec![("a", types(vec![text("STRING(1, 2)")]))]),
            schema_json(vec![("b", types(vec![text("NUMBER")]))]),
        ]),
    )]);
    assert_eq!(Schema::from_json(&neighbours, false).unwrap().to_json(), expected);

    let parted = array(vec![first, other, second]);
    let expected = schema_json(vec![(
        "o",
        types(vec![
            schema_json(vec![("a", types(vec![text("STRING(1)")]))]),
            schema_json(vec![("b", types(vec![text("NUMBER")]))]),
            schema_json(vec![("a", types(vec![text("STRING(2)")]))]),
        ]),
    )]);
    assert_eq!(Schema::from_json(&parted, false).unwrap().to_json(), expected);
}

#[test]
fn merged_schema_does_not_depend_on_instance_order() {
    let forward = array(vec![sherlock(), tony(), angela(), jane()]);
    let backward = array(vec![jane(), angela(), tony(), sherlock()]);
    let shuffled = array(vec![angela(), sherlock(), jane(), tony()]);
    let reference = Schema::from_json(&forward, true).unwrap().to_json();
    assert!(same_encoding(&reference, &Schema::from_json(&backward, true).unwrap().to_json()));
    assert!(same_encoding(&reference, &Schema::from_json(&shuffled, true).unwrap().to_json()));
}

trait CloneValue {
    fn clone_value(&self) -> JsonValue;
}

impl CloneValue for JsonValue {
    fn clone_value(&self) -> JsonValue {
        match self {
            JsonValue::Null => JsonValue::Null,
            JsonValue::Bool(flag) => JsonValue::Bool(*flag),
            JsonValue::Number(literal) => JsonValue::Number(literal.clone()),
            JsonValue::String(value) => JsonValue::String(value.clone()),
            JsonValue::Array(items) => {
                JsonValue::Array(items.iter().map(|item| item.clone_value()).collect())
            }
            JsonValue::Object(members) => JsonValue::Object(
                members
                    .iter()
                    .map(|member| JsonMember {
                        key: member.key.clone(),
                        value: member.value.clone_value(),
                    })
                    .collect(),
            ),
        }
    }
}

#[test]
fn fields_ascend_by_name_whatever_the_document_order() {
    let input = array(vec![
        object(vec![("zeta", number("1")), ("alpha", text("a"))]),
        object(vec![("midway", JsonValue::Null), ("Alpha", JsonValue::Bool(true))]),
    ]);
    let schema = Schema::from_json(&input, true).unwrap();
    let names: Vec<&str> = schema.fields.iter().map(|field| field.name.as_str()).collect();
    assert_eq!(names, vec!["Alpha", "alpha", "midway", "zeta"]);
    let expected = object(vec![
        ("Alpha", types(vec![text("BOOL")])),
        ("alpha", types(vec![text("STRING(1)")])),
        ("midway", types(vec![text("NULL")])),
        ("zeta", types(vec![text("NUMBER")])),
    ]);
    assert_eq!(schema.to_json(), expected);
}

#[test]
fn nested_schemas_are_equal_whatever_the_key_order() {
    let input = object(vec![(
        "rows",
        array(vec![
            array(vec![object(vec![("a", number("1")), ("b", text("x"))])]),
            array(vec![object(vec![("b", text("y")), ("a", number("2"))])]),
        ]),
    )]);
    let expected = object(vec![(
        "rows",
        types(vec![array_of(vec![array_of(vec![object(vec![
            ("a", types(vec![text("NUMBER")])),
            ("b", types(vec![text("STRING(1)")])),
        ])])])]),
    )]);
    assert_eq!(Schema::from_json(&input, true).unwrap().to_json(), expected);
    assert_eq!(Schema::from_json(&input, false).unwrap().to_json(), expected);
}

#[test]
fn field_names_ascend_by_code_point() {
    let input = object(vec![
        ("\u{10000}", JsonValue::Null),
        ("\u{ffff}", JsonValue::Null),
        ("z", JsonValue::Null),
        ("\u{e4}", JsonValue::Null),
        ("za", JsonValue::Null),
        ("", JsonValue::Null),
    ]);
    let schema = Schema::from_json(&input, false).unwrap();
    let names: Vec<&str> = schema.fields.iter().map(|field| field.name.as_str()).collect();
    assert_eq!(names, vec!["", "z", "za", "\u{e4}", "\u{ffff}", "\u{10000}"]);
}
