use schermz::{JsonMember, JsonValue, Schema, SchemaObject, SchemaObjectKey, ValueType};

/// A small generator of repeatable pseudo-random numbers.
struct Numbers(u64);

impl Numbers {
    fn next(&mut self, bound: u64) -> u64 {
        self.0 = self.0.wrapping_mul(6364136223846793005).wrapping_add(1442695040888963407);
        (self.0 >> 33) % bound
    }
}

const NAMES: [&str; 5] = ["a", "b", "ab", "c", "\u{e4}"];

fn random_value(numbers: &mut Numbers, depth: u32) -> JsonValue {
    let kinds = if depth == 0 { 4 } else { 6 };
    match numbers.next(kinds) {
        0 => JsonValue::Null,
        1 => JsonValue::Bool(numbers.next(2) == 0),
        2 => JsonValue::Number(numbers.next(100).to_string()),
        3 => JsonValue::String("x".repeat(numbers.next(4) as usize)),
        4 => {
            let count = numbers.next(4);
            JsonValue::Array((0..count).map(|_| random_value(numbers, depth - 1)).collect())
        }
        _ => random_object(numbers, depth - 1),
    }
}

fn random_object(numbers: &mut Numbers, depth: u32) -> JsonValue {
    let mut members: Vec<JsonMember> = Vec::new();
    for name in NAMES {
        if numbers.next(2) == 0 {
            members.push(JsonMember { key: name.to_string(), value: random_value(numbers, depth) });
        }
    }
    if numbers.next(2) == 0 {
        members.reverse();
    }
    JsonValue::Object(members)
}

fn copy(value: &JsonValue) -> JsonValue {
    match value {
        JsonValue::Null => JsonValue::Null,
        JsonValue::Bool(flag) => JsonValue::Bool(*flag),
        JsonValue::Number(literal) => JsonValue::Number(literal.clone()),
        JsonValue::String(text) => JsonValue::String(text.clone()),
        JsonValue::Array(items) => JsonValue::Array(items.iter().map(copy).collect()),
        JsonValue::Object(members) => JsonValue::Object(
            members
                .iter()
                .map(|member| JsonMember { key: member.key.clone(), value: copy(&member.value) })
                .collect(),
        ),
    }
}

/// Whether two encodings agree when the lists under `types` and `ARRAY` are
/// compared as sets.
fn same_encoding(left: &JsonValue, right: &JsonValue) -> bool {
    match (left, right) {
        (JsonValue::Object(a), JsonValue::Object(b)) => {
            a.len() == b.len()
                && a.iter().zip(b.iter()).all(|(x, y)| {
                    x.key == y.key
                        && match (&x.value, &y.value) {
                            (JsonValue::Array(p), JsonValue::Array(q))
                                if x.key == "types" || x.key == "ARRAY" =>
                            {
                                p.iter().all(|e| q.iter().any(|f| same_encoding(e, f)))
                                    && q.iter().all(|f| p.iter().any(|e| same_encoding(e, f)))
                            }
                            (p, q) => same_encoding(p, q),
                        }
                })
        }
        _ => left == right,
    }
}

fn sorted_key_set(object: &SchemaObject) -> Vec<String> {
    let mut names: Vec<String> = object.keys.iter().map(|key| key.id.clone()).collect();
    names.sort();
    names
}

#[test]
fn merged_schemas_ignore_the_order_of_instances() {
    let mut numbers = Numbers(7);
    for _ in 0..200 {
        let count = numbers.next(6) as usize;
        let instances: Vec<JsonValue> = (0..count).map(|_| random_object(&mut numbers, 3)).collect();
        let mut shuffled: Vec<JsonValue> = instances.iter().map(copy).collect();
        for i in (1..shuffled.len()).rev() {
            let j = numbers.next(i as u64 + 1) as usize;
            shuffled.swap(i, j);
        }
        let left = Schema::from_json(&JsonValue::Array(instances), true).unwrap().to_json();
        let right = Schema::from_json(&JsonValue::Array(shuffled), true).unwrap().to_json();
        assert!(same_encoding(&left, &right), "{:?}\n{:?}", left, right);
    }
}

#[test]
fn unmerged_schemas_of_flat_instances_ignore_their_order() {
    let mut numbers = Numbers(11);
    for _ in 0..200 {
        let count = numbers.next(6) as usize;
        let instances: Vec<JsonValue> = (0..count).map(|_| random_object(&mut numbers, 0)).collect();
        let mut reversed: Vec<JsonValue> = instances.iter().map(copy).collect();
        reversed.reverse();
        let left = Schema::from_json(&JsonValue::Array(instances), false).unwrap().to_json();
        let right = Schema::from_json(&JsonValue::Array(reversed), false).unwrap().to_json();
        assert!(same_encoding(&left, &right), "{:?}\n{:?}", left, right);
    }
}

#[test]
fn unmerged_schemas_ignore_the_order_where_one_field_has_one_key_set() {
    let instance = |street: &str, tags: Vec<JsonValue>| {
        JsonValue::Object(vec![
            JsonMember {
                key: "address".to_string(),
                value: JsonValue::Object(vec![
                    JsonMember {
                        key: "street".to_string(),
                        value: JsonValue::String(street.to_string()),
                    },
                    JsonMember { key: "zip".to_string(), value: JsonValue::Null },
                ]),
            },
            JsonMember { key: "tags".to_string(), value: JsonValue::Array(tags) },
        ])
    };
    let tag = |label: &str| {
        JsonValue::Object(vec![JsonMember {
            key: "label".to_string(),
            value: JsonValue::String(label.to_string()),
        }])
    };
    let build = |order: [usize; 3]| {
        let all = [
            instance("a", vec![tag("x"), JsonValue::Null]),
            instance("bcd", vec![]),
            instance("ef", vec![tag("yz"), tag("")]),
        ];
        JsonValue::Array(order.iter().map(|&i| copy(&all[i])).collect())
    };
    let reference = Schema::from_json(&build([0, 1, 2]), false).unwrap().to_json();
    for order in [[0, 2, 1], [1, 0, 2], [1, 2, 0], [2, 0, 1], [2, 1, 0]] {
        let other = Schema::from_json(&build(order), false).unwrap().to_json();
        assert!(same_encoding(&reference, &other));
    }
}

#[test]
fn schemas_are_the_same_with_and_without_merging_where_nothing_nests() {
    let mut numbers = Numbers(3);
    for _ in 0..100 {
        let count = numbers.next(5) as usize;
        let instances: Vec<JsonValue> = (0..count).map(|_| random_object(&mut numbers, 0)).collect();
        let copies: Vec<JsonValue> = instances.iter().map(copy).collect();
        let merged = Schema::from_json(&JsonValue::Array(instances), true).unwrap();
        let unmerged = Schema::from_json(&JsonValue::Array(copies), false).unwrap();
        assert!(merged == unmerged);
    }
}

#[test]
fn groups_are_the_runs_of_equal_key_sets() {
    let mut numbers = Numbers(5);
    for _ in 0..200 {
        let count = numbers.next(9) as usize;
        let objects: Vec<SchemaObject> = (0..count)
            .map(|_| {
                let mut keys: Vec<SchemaObjectKey> = Vec::new();
                for name in ["k", "l", "m"] {
                    if numbers.next(2) == 0 {
                        keys.push(SchemaObjectKey { id: name.to_string(), v_type: ValueType::Null });
                    }
                }
                if numbers.next(2) == 0 {
                    keys.reverse();
                }
                SchemaObject { keys }
            })
            .collect();
        let key_sets: Vec<Vec<String>> = objects.iter().map(sorted_key_set).collect();
        let mut expected: Vec<Vec<Vec<String>>> = Vec::new();
        for key_set in &key_sets {
            match expected.last_mut() {
                Some(run) if run[0] == *key_set => run.push(key_set.clone()),
                _ => expected.push(vec![key_set.clone()]),
            }
        }
        let groups = Schema::group_objects_by_keys_fingerprint(objects);
        let found: Vec<Vec<Vec<String>>> =
            groups.iter().map(|group| group.iter().map(sorted_key_set).collect()).collect();
        assert_eq!(found, expected);
    }
}

#[test]
fn every_inferred_schema_lists_its_fields_in_ascending_order() {
    let mut numbers = Numbers(13);
    fn ascending(schema: &Schema) -> bool {
        schema.fields.windows(2).all(|pair| pair[0].name < pair[1].name)
            && schema.fields.iter().all(|field| {
                !field.types.is_empty()
                    && field.types.iter().all(|entry| match entry {
                        schermz::SchemaValueType::Object(nested) => ascending(nested),
                        _ => true,
                    })
            })
    }
    for _ in 0..200 {
        let count = numbers.next(5) as usize;
        let instances: Vec<JsonValue> = (0..count).map(|_| random_object(&mut numbers, 3)).collect();
        let copies: Vec<JsonValue> = instances.iter().map(copy).collect();
        assert!(ascending(&Schema::from_json(&JsonValue::Array(instances), true).unwrap()));
        assert!(ascending(&Schema::from_json(&JsonValue::Array(copies), false).unwrap()));
    }
}
