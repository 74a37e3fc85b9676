use json_flattener::flatten_context::FlattenContext;
use json_flattener::flattener::flatten_json;
use serde_json::Value;

fn text(s: &str) -> Value {
    Value::String(s.to_string())
}

fn number(n: u64) -> Value {
    Value::from(n)
}

fn array(items: Vec<Value>) -> Value {
    Value::Array(items)
}

fn object(members: Vec<(&str, Value)>) -> Value {
    let mut map = serde_json::Map::new();
    for (key, value) in members {
        map.insert(key.to_string(), value);
    }
    Value::Object(map)
}

fn flatten_at(json: &Value, prefix: &str, object_separator: &str, array_separator: &str) -> serde_json::Map<String, Value> {
    let mut flat_map = serde_json::Map::new();
    let mut ctx = FlattenContext {
        array_separator: array_separator.to_string(),
        object_separator: object_separator.to_string(),
        json,
        prefix: prefix.to_string(),
        flat_map: &mut flat_map,
    };
    flatten_json(&mut ctx);
    flat_map
}

fn flatten(json: &Value, object_separator: &str, array_separator: &str) -> serde_json::Map<String, Value> {
    flatten_at(json, "", object_separator, array_separator)
}

fn keys(map: &serde_json::Map<String, Value>) -> Vec<String> {
    let mut keys: Vec<String> = map.keys().cloned().collect();
    keys.sort();
    keys
}

fn sample() -> Value {
    object(vec![
        ("name", text("Alice")),
        ("age", number(30)),
        ("address", object(vec![("city", text("Wonderland")), ("zip", number(12345))])),
        (
            "hobbies",
            array(vec![text("reading"), text("chess"), object(vec![("something", Value::Bool(true))])]),
        ),
        (
            "settings",
            object(vec![
                ("theme", text("dark")),
                (
                    "notifications",
                    object(vec![("email", Value::Bool(true)), ("sms", Value::Bool(false))]),
                ),
                ("other-policies", array(vec![])),
                ("other-info", object(vec![])),
            ]),
        ),
    ])
}

#[test]
fn object_members_are_keyed_by_their_paths() {
    let json = object(vec![("x", number(1)), ("y", text("two")), ("z", Value::Bool(false))]);
    let flat = flatten_at(&json, "root", ".", "_");
    assert_eq!(keys(&flat), vec!["root.x", "root.y", "root.z"]);
    assert_eq!(flat.get("root.x").unwrap(), &number(1));
    assert_eq!(flat.get("root.y").unwrap(), &text("two"));
    assert_eq!(flat.get("root.z").unwrap(), &Value::Bool(false));
    assert!(flat.get("root.").is_none());
    assert!(flat.get("root").is_none());
}

#[test]
fn object_members_at_the_root_are_keyed_by_key_alone() {
    let json = object(vec![("x", number(1)), ("y", text("two"))]);
    let flat = flatten(&json, ".", "_");
    assert_eq!(keys(&flat), vec!["x", "y"]);
    assert!(flat.get(".").is_none());
    assert!(flat.get(".x").is_none());
}

#[test]
fn array_elements_are_keyed_by_index() {
    let json = array(vec![text("a"), text("b"), text("c")]);
    let flat = flatten_at(&json, "list", ".", "_");
    assert_eq!(keys(&flat), vec!["list_0", "list_1", "list_2"]);
    assert_eq!(flat.get("list_0").unwrap(), &text("a"));
    assert_eq!(flat.get("list_1").unwrap(), &text("b"));
    assert_eq!(flat.get("list_2").unwrap(), &text("c"));
    assert!(flat.get("list_").is_none());
}

#[test]
fn array_elements_at_the_root_keep_the_separator() {
    let json = array(vec![text("a"), text("b")]);
    let flat = flatten(&json, ".", "_");
    assert_eq!(keys(&flat), vec!["_0", "_1"]);
    assert!(flat.get("_").is_none());
    assert!(flat.get("0").is_none());
}

#[test]
fn array_indices_are_written_in_decimal() {
    let mut items = Vec::new();
    let mut i: u64 = 0;
    while i < 12 {
        items.push(number(i * 100));
        i += 1;
    }
    let flat = flatten_at(&array(items), "v", ".", "#");
    assert_eq!(flat.len(), 12);
    assert_eq!(flat.get("v#0").unwrap(), &number(0));
    assert_eq!(flat.get("v#9").unwrap(), &number(900));
    assert_eq!(flat.get("v#10").unwrap(), &number(1000));
    assert_eq!(flat.get("v#11").unwrap(), &number(1100));
    assert!(flat.get("v#12").is_none());
}

#[test]
fn empty_object_at_a_prefix_is_one_null_entry() {
    let flat = flatten_at(&object(vec![]), "a.b", ".", "_");
    assert_eq!(flat.len(), 1);
    assert_eq!(flat.get("a.b.").unwrap(), &Value::Null);
}

#[test]
fn empty_array_at_a_prefix_is_one_null_entry() {
    let flat = flatten_at(&array(vec![]), "a.b", ".", "_");
    assert_eq!(flat.len(), 1);
    assert_eq!(flat.get("a.b_").unwrap(), &Value::Null);
}

#[test]
fn nested_empty_containers_are_recorded_at_their_own_path() {
    let json = object(vec![
        ("none", Value::Null),
        ("obj", object(vec![])),
        ("arr", array(vec![])),
        ("deep", array(vec![object(vec![]), array(vec![])])),
    ]);
    let flat = flatten(&json, ".", "_");
    assert_eq!(keys(&flat), vec!["arr_", "deep_0.", "deep_1_", "none", "obj."]);
    assert_eq!(flat.get("none").unwrap(), &Value::Null);
    assert_eq!(flat.get("obj.").unwrap(), &Value::Null);
    assert_eq!(flat.get("arr_").unwrap(), &Value::Null);
    assert_eq!(flat.get("deep_0.").unwrap(), &Value::Null);
    assert_eq!(flat.get("deep_1_").unwrap(), &Value::Null);
}

#[test]
fn scalar_at_the_root_is_keyed_by_the_empty_string() {
    let cases = vec![
        Value::Null,
        Value::Bool(true),
        Value::Bool(false),
        number(42),
        Value::from(-7),
        text("hello"),
        text(""),
    ];
    for scalar in cases {
        let flat = flatten(&scalar, ".", "_");
        assert_eq!(flat.len(), 1);
        assert_eq!(flat.get("").unwrap(), &scalar);
    }
}

#[test]
fn scalar_at_a_prefix_is_keyed_by_the_prefix() {
    let flat = flatten_at(&text("leaf"), "some.path_3", ".", "_");
    assert_eq!(flat.len(), 1);
    assert_eq!(flat.get("some.path_3").unwrap(), &text("leaf"));
}

#[test]
fn fractional_numbers_are_carried_unchanged() {
    let json = object(vec![("pi", Value::from(3.5)), ("neg", Value::from(-0.25))]);
    let flat = flatten(&json, ".", "_");
    assert_eq!(flat.len(), 2);
    assert_eq!(flat.get("pi").unwrap(), &Value::from(3.5));
    assert_eq!(flat.get("neg").unwrap(), &Value::from(-0.25));
}

#[test]
fn input_is_left_unchanged() {
    let json = sample();
    let copy = json.clone();
    let _ = flatten(&json, ".", "_");
    assert_eq!(json, copy);
}

#[test]
fn context_is_left_unchanged() {
    let mut flat_map = serde_json::Map::new();
    let json = sample();
    let mut ctx = FlattenContext {
        array_separator: "_".to_string(),
        object_separator: ".".to_string(),
        json: &json,
        prefix: "top".to_string(),
        flat_map: &mut flat_map,
    };
    flatten_json(&mut ctx);
    assert_eq!(ctx.array_separator, "_");
    assert_eq!(ctx.object_separator, ".");
    assert_eq!(ctx.prefix, "top");
    assert_eq!(ctx.json, &json);
    assert_eq!(ctx.flat_map.len(), 12);
}

#[test]
fn entry_count_is_the_number_of_terminal_positions() {
    // name, age, city, zip, three under hobbies, theme, email, sms, and two
    // empty containers
    let json = sample();
    assert_eq!(flatten(&json, ".", "_").len(), 12);
    assert_eq!(flatten(&json, "/", "#").len(), 12);
    assert_eq!(flatten(&json, "::", "[]").len(), 12);
    assert_eq!(flatten_at(&json, "doc", ".", ".").len(), 12);
}

#[test]
fn sample_document_flattens_to_its_paths() {
    let flat = flatten(&sample(), ".", "_");
    assert_eq!(
        keys(&flat),
        vec![
            "address.city",
            "address.zip",
            "age",
            "hobbies_0",
            "hobbies_1",
            "hobbies_2.something",
            "name",
            "settings.notifications.email",
            "settings.notifications.sms",
            "settings.other-info.",
            "settings.other-policies_",
            "settings.theme",
        ]
    );
    assert_eq!(flat.get("name").unwrap(), &text("Alice"));
    assert_eq!(flat.get("age").unwrap(), &number(30));
    assert_eq!(flat.get("address.city").unwrap(), &text("Wonderland"));
    assert_eq!(flat.get("address.zip").unwrap(), &number(12345));
    assert_eq!(flat.get("hobbies_0").unwrap(), &text("reading"));
    assert_eq!(flat.get("hobbies_1").unwrap(), &text("chess"));
    assert_eq!(flat.get("hobbies_2.something").unwrap(), &Value::Bool(true));
    assert_eq!(flat.get("settings.theme").unwrap(), &text("dark"));
    assert_eq!(flat.get("settings.notifications.email").unwrap(), &Value::Bool(true));
    assert_eq!(flat.get("settings.notifications.sms").unwrap(), &Value::Bool(false));
    assert_eq!(flat.get("settings.other-policies_").unwrap(), &Value::Null);
    assert_eq!(flat.get("settings.other-info.").unwrap(), &Value::Null);
}

#[test]
fn every_key_begins_with_the_prefix() {
    let flat = flatten_at(&sample(), "top", ".", "_");
    assert_eq!(flat.len(), 12);
    for key in flat.keys() {
        assert!(key.starts_with("top."));
    }
}

#[test]
fn every_value_is_a_scalar() {
    let flat = flatten(&sample(), ".", "_");
    for value in flat.values() {
        assert!(!value.is_array());
        assert!(!value.is_object());
    }
}

#[test]
fn colliding_paths_keep_the_entry_written_last() {
    let mut members = serde_json::Map::new();
    members.insert("a".to_string(), object(vec![("b", number(2))]));
    members.insert("a.b".to_string(), number(1));
    let order: Vec<String> = members.keys().cloned().collect();
    let json = Value::Object(members);
    let flat = flatten(&json, ".", "_");
    assert_eq!(flat.len(), 1);
    let expected = if order[1] == "a.b" { number(1) } else { number(2) };
    assert_eq!(flat.get("a.b").unwrap(), &expected);
}

#[test]
fn entries_already_in_the_map_stay() {
    let mut flat_map = serde_json::Map::new();
    flat_map.insert("kept".to_string(), text("before"));
    flat_map.insert("x".to_string(), text("old"));
    let json = object(vec![("x", number(1)), ("y", number(2))]);
    let mut ctx = FlattenContext {
        array_separator: "_".to_string(),
        object_separator: ".".to_string(),
        json: &json,
        prefix: "".to_string(),
        flat_map: &mut flat_map,
    };
    flatten_json(&mut ctx);
    assert_eq!(flat_map.len(), 3);
    assert_eq!(flat_map.get("kept").unwrap(), &text("before"));
    assert_eq!(flat_map.get("x").unwrap(), &number(1));
    assert_eq!(flat_map.get("y").unwrap(), &number(2));
}

#[test]
fn two_documents_accumulate_in_one_map() {
    let mut flat_map = serde_json::Map::new();
    let first = object(vec![("a", number(1))]);
    let second = array(vec![number(2)]);
    let mut ctx = FlattenContext {
        array_separator: "_".to_string(),
        object_separator: ".".to_string(),
        json: &first,
        prefix: "one".to_string(),
        flat_map: &mut flat_map,
    };
    flatten_json(&mut ctx);
    ctx.json = &second;
    ctx.prefix = "two".to_string();
    flatten_json(&mut ctx);
    assert_eq!(flat_map.len(), 2);
    assert_eq!(flat_map.get("one.a").unwrap(), &number(1));
    assert_eq!(flat_map.get("two_0").unwrap(), &number(2));
}

#[test]
fn empty_member_key_under_a_prefix_ends_in_the_separator() {
    let json = object(vec![("", number(1))]);
    let flat = flatten_at(&json, "a", ".", "_");
    assert_eq!(flat.len(), 1);
    assert_eq!(flat.get("a.").unwrap(), &number(1));
}

#[test]
fn member_key_equal_to_the_separator_at_the_root_is_kept_as_it_is() {
    let json = object(vec![(".", number(1))]);
    let flat = flatten(&json, ".", "_");
    assert_eq!(flat.len(), 1);
    assert_eq!(flat.get(".").unwrap(), &number(1));
}

#[test]
fn separators_may_be_empty_equal_or_long() {
    let json = object(vec![("a", array(vec![number(1), object(vec![("b", number(2))])]))]);

    let flat = flatten(&json, "", "");
    assert_eq!(keys(&flat), vec!["a0", "a1b"]);

    let flat = flatten(&json, "-", "-");
    assert_eq!(keys(&flat), vec!["a-0", "a-1-b"]);

    let flat = flatten(&json, "::", "[]");
    assert_eq!(keys(&flat), vec!["a[]0", "a[]1::b"]);
}

#[test]
fn object_key_and_array_index_join_differently_at_the_root() {
    let as_object = flatten(&object(vec![("0", number(7))]), "_", "_");
    assert_eq!(keys(&as_object), vec!["0"]);
    let as_array = flatten(&array(vec![number(7)]), "_", "_");
    assert_eq!(keys(&as_array), vec!["_0"]);
}

#[test]
fn deep_nesting_joins_every_level() {
    let json = object(vec![(
        "a",
        array(vec![array(vec![object(vec![("b", array(vec![text("x")]))])])]),
    )]);
    let flat = flatten(&json, ".", "_");
    assert_eq!(flat.len(), 1);
    assert_eq!(flat.get("a_0_0.b_0").unwrap(), &text("x"));
}
