use local_approvals::json::{canonicalize_json, copy_json, find_entry, set_entry, Json};
use local_approvals::serde_value::{from_value, to_compact_text, to_pretty_text, to_value};
use local_approvals::text::{sorted_unique, text_before, text_eq};

fn parse(text: &str) -> Json {
    from_value(serde_json::from_str(text).expect("valid JSON"))
}

fn text(value: &str) -> Json {
    Json::Text(value.to_string())
}

#[test]
fn canonicalize_json_sorts_nested_object_keys() {
    let value = parse(r#"{"z":{"b":2,"a":1},"a":[{"d":4,"c":3}]}"#);
    assert_eq!(
        serde_json::to_string(&to_value(&canonicalize_json(&value)))
            .expect("canonical JSON should serialize"),
        r#"{"a":[{"c":3,"d":4}],"z":{"a":1,"b":2}}"#,
    );
}

#[test]
fn canonical_form_does_not_depend_on_entry_order() {
    let first = parse(r#"{"origin":"x","account":{"b":[{"q":1,"p":2}],"a":null}}"#);
    let second = parse(r#"{"account":{"a":null,"b":[{"p":2,"q":1}]},"origin":"x"}"#);
    assert_eq!(canonicalize_json(&first), canonicalize_json(&second));
    let third = parse(r#"{"account":{"a":null,"b":[{"p":2,"q":3}]},"origin":"x"}"#);
    assert_ne!(canonicalize_json(&first), canonicalize_json(&third));
}

#[test]
fn canonical_form_keeps_the_order_of_arrays() {
    assert_eq!(
        to_compact_text(&canonicalize_json(&parse("[3,1,2]"))),
        "[3,1,2]"
    );
}

#[test]
fn canonical_form_is_stable() {
    let form = canonicalize_json(&parse(r#"{"b":{"d":1,"c":[{"f":0,"e":1.5}]},"a":true}"#));
    assert_eq!(canonicalize_json(&form), form);
    assert_eq!(
        to_compact_text(&form),
        r#"{"a":true,"b":{"c":[{"e":1.5,"f":0}],"d":1}}"#
    );
}

#[test]
fn scalars_are_their_own_canonical_form() {
    for source in ["null", "true", "-7", "0.25", "\"b\"", "[]", "{}"] {
        assert_eq!(to_compact_text(&canonicalize_json(&parse(source))), source);
    }
}

#[test]
fn keys_are_ordered_by_code_points() {
    let value = parse(r#"{"ab":1,"é":2,"a":3,"B":4,"😀":5,"�":6,"":7}"#);
    assert_eq!(
        to_compact_text(&canonicalize_json(&value)),
        "{\"\":7,\"B\":4,\"a\":3,\"ab\":1,\"é\":2,\"\u{FFFD}\":6,\"\u{1F600}\":5}"
    );
}

#[test]
fn order_of_texts_is_that_of_strings() {
    let samples = ["", "a", "ab", "b", "B", "é", "\u{FFFD}", "\u{1F600}", "a\u{0}"];
    for a in samples {
        for b in samples {
            assert_eq!(text_before(a, b), a < b);
            assert_eq!(text_eq(a, b), a == b);
        }
    }
}

#[test]
fn sorted_unique_sorts_and_drops_repetitions() {
    let items = vec!["b".to_string(), "a".to_string(), "b".to_string(), "".to_string()];
    assert_eq!(
        sorted_unique(&items),
        vec!["".to_string(), "a".to_string(), "b".to_string()]
    );
    assert_eq!(sorted_unique(&Vec::new()), Vec::<String>::new());
}

#[test]
fn values_survive_the_way_through_serde_json() {
    let source = r#"{"b":[null,true,18446744073709551615,-3,0.5,"x\"y"],"a":{}}"#;
    let value: serde_json::Value = serde_json::from_str(source).expect("valid JSON");
    let json = from_value(value.clone());
    assert_eq!(copy_json(&json), json);
    assert_eq!(to_value(&json), value);
    assert_eq!(to_compact_text(&json), source);
}

#[test]
fn pretty_text_spans_lines() {
    assert_eq!(
        to_pretty_text(&parse(r#"{"b":[1],"a":{}}"#)),
        "{\n  \"b\": [\n    1\n  ],\n  \"a\": {}\n}"
    );
}

#[test]
fn different_values_have_different_texts() {
    let sources = ["1", "1.0", "-1", "\"1\"", "[1]", "{\"1\":1}", "null", "\"null\"", "-0.0", "0.0"];
    for (i, a) in sources.iter().enumerate() {
        for (j, b) in sources.iter().enumerate() {
            assert_eq!(to_compact_text(&parse(a)) == to_compact_text(&parse(b)), i == j);
        }
    }
}

#[test]
fn set_entry_replaces_in_place_or_appends() {
    let mut entries = vec![
        ("persist".to_string(), text("session")),
        ("other".to_string(), Json::Null),
    ];
    set_entry(&mut entries, "persist", text("always"));
    assert_eq!(
        entries,
        vec![
            ("persist".to_string(), text("always")),
            ("other".to_string(), Json::Null),
        ]
    );
    set_entry(&mut entries, "new", Json::Bool(true));
    assert_eq!(entries.len(), 3);
    assert_eq!(find_entry(&entries, "new"), Some(&Json::Bool(true)));
    assert_eq!(find_entry(&entries, "other"), Some(&Json::Null));
    assert_eq!(find_entry(&entries, "missing"), None);
}
