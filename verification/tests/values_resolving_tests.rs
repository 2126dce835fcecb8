use json_deref::extractor::TargetTable;
use json_deref::path::AbsolutePath;
use json_deref::substituter::{resolve_embedded_refs, resolve_values};
use json_deref::value::{Number, Value};

fn text(s: &str) -> Value {
    Value::String(s.to_string())
}

fn number(n: i64) -> Value {
    Value::Number(Number::from_i64(n))
}

fn object(entries: Vec<(&str, Value)>) -> Value {
    Value::Object(entries.into_iter().map(|(k, v)| (k.to_string(), v)).collect())
}

fn table(entries: Vec<(AbsolutePath, Value)>) -> TargetTable {
    let mut out = TargetTable::new();
    for (path, value) in entries {
        out.insert(path.as_str(), value);
    }
    out
}

#[test]
fn test_resolve_embedded_refs() {
    let source_map = table(vec![
        (AbsolutePath::new("/data/key1"), Value::String("Value 1".to_string())),
        (AbsolutePath::new("/data/key2"), Value::String("Value 2".to_string())),
        (AbsolutePath::new("/nested/object"), Value::String("Nested Value".to_string())),
    ]);

    let input = "This is {/data/key1}, and here is {/data/key2}. Lastly: {/nested/object}";

    let result = resolve_embedded_refs(input, &source_map);

    let expected =
        Value::String("This is Value 1, and here is Value 2. Lastly: Nested Value".to_string());

    assert_eq!(result, expected);
}

#[test]
fn test_resolve_embedded_refs_with_invalid_paths() {
    let source_map = table(vec![
        (AbsolutePath::new("/data/key1"), Value::String("Resolved Key1".to_string())),
        (
            AbsolutePath::new("/nested/object"),
            Value::String("Nested Object Resolved".to_string()),
        ),
    ]);

    let input = "Valid: {/data/key1}, Invalid: {relative/key}, Another: {/nested/object}, Broken: {missing_brace";

    let result = resolve_embedded_refs(input, &source_map);

    let expected = Value::String(
        "Valid: Resolved Key1, Invalid: {relative/key}, Another: Nested Object Resolved, Broken: {missing_brace".to_string(),
    );

    assert_eq!(result, expected);
}

#[test]
fn test_resolve_values_with_absolute_paths() {
    let json = object(vec![(
        "config",
        object(vec![
            (
                "level1",
                object(vec![
                    ("key1", text("{/config/level1/key1_resolved}")),
                    ("key2", text("{/config/level1/key2_resolved}")),
                    ("key3", text("{/config/level2/key3_resolved}")),
                    ("key4", text("Embedded {/config/level2/key4_resolved} Example")),
                    ("key5", text("{/config/level2/key5_resolved}")),
                ]),
            ),
            (
                "level2",
                object(vec![
                    ("key3_resolved", Value::Array(vec![number(10), number(20), number(30)])),
                    ("key4_resolved", text("value_here")),
                    ("key5_resolved", object(vec![("nested_key", text("nested_value"))])),
                ]),
            ),
        ]),
    )]);

    let context = table(vec![
        (
            AbsolutePath::new("/config/level1/key1_resolved"),
            Value::String("Resolved Value for Key1".to_string()),
        ),
        (AbsolutePath::new("/config/level1/key2_resolved"), number(123)),
        (
            AbsolutePath::new("/config/level2/key3_resolved"),
            Value::Array(vec![number(10), number(20), number(30)]),
        ),
        (
            AbsolutePath::new("/config/level2/key4_resolved"),
            Value::String("value_here".to_string()),
        ),
        (
            AbsolutePath::new("/config/level2/key5_resolved"),
            Value::Object(vec![(
                "nested_key".to_string(),
                Value::String("nested_value".to_string()),
            )]),
        ),
    ]);

    let resolved_json = resolve_values(&json, &context);

    let expected_resolved = object(vec![(
        "config",
        object(vec![
            (
                "level1",
                object(vec![
                    ("key1", text("Resolved Value for Key1")),
                    ("key2", number(123)),
                    ("key3", Value::Array(vec![number(10), number(20), number(30)])),
                    ("key4", text("Embedded value_here Example")),
                    ("key5", object(vec![("nested_key", text("nested_value"))])),
                ]),
            ),
            (
                "level2",
                object(vec![
                    ("key3_resolved", Value::Array(vec![number(10), number(20), number(30)])),
                    ("key4_resolved", text("value_here")),
                    ("key5_resolved", object(vec![("nested_key", text("nested_value"))])),
                ]),
            ),
        ]),
    )]);

    assert_eq!(resolved_json, expected_resolved);
}

#[test]
fn test_resolve_values_with_missing_path() {
    let json = object(vec![(
        "config",
        object(vec![
            ("key1", text("value1")),
            ("key2", text("{/config/key3}")),
            ("key3", number(42)),
            ("key4", text("Hello {/missing/path}")),
        ]),
    )]);

    let context = table(vec![(
        AbsolutePath::new("/config/key1"),
        Value::String("value1".to_string()),
    )]);

    let resolved_json = resolve_values(&json, &context);

    let expected_resolved = object(vec![(
        "config",
        object(vec![
            ("key1", text("value1")),
            ("key2", text("{/config/key3}")),
            ("key3", number(42)),
            ("key4", text("Hello {/missing/path}")),
        ]),
    )]);

    assert_eq!(resolved_json, expected_resolved);
}

#[test]
fn test_resolve_values_simple_case() {
    let json = object(vec![(
        "posting_config",
        object(vec![
            (
                "published_message_caption",
                text("Link {/posting_config/invite_group_link} and {/posting_config/other_key}"),
            ),
            ("invite_group_link", text("This should be replaced")),
            ("other_key", text("This too")),
        ]),
    )]);

    let context = table(vec![
        (
            AbsolutePath::new("/posting_config/invite_group_link"),
            Value::String("Invite Link".to_string()),
        ),
        (
            AbsolutePath::new("/posting_config/other_key"),
            Value::String("Other Value".to_string()),
        ),
    ]);

    let resolved_json = resolve_values(&json, &context);

    let expected_resolved = object(vec![(
        "posting_config",
        object(vec![
            ("published_message_caption", text("Link Invite Link and Other Value")),
            ("invite_group_link", text("This should be replaced")),
            ("other_key", text("This too")),
        ]),
    )]);

    assert_eq!(resolved_json, expected_resolved);
}

#[test]
fn test_resolve_values_with_nested_dependencies() {
    let json = object(vec![(
        "config",
        object(vec![
            (
                "level1",
                object(vec![
                    ("key1", text("{/config/level2/key4}")),
                    ("key2", text("{/config/level2/key5}")),
                    ("key3", text("{/config/level2/key6}")),
                    ("key4", text("Hello {/config/level2/key7}")),
                ]),
            ),
            (
                "level2",
                object(vec![
                    ("key4", number(100)),
                    ("key5", Value::Array(vec![number(1), number(2), number(3)])),
                    ("key6", object(vec![("nested_key", text("nested_value"))])),
                    ("key7", text("World")),
                ]),
            ),
        ]),
    )]);

    let context = table(vec![
        (AbsolutePath::new("/config/level2/key4"), number(100)),
        (
            AbsolutePath::new("/config/level2/key5"),
            Value::Array(vec![number(1), number(2), number(3)]),
        ),
        (
            AbsolutePath::new("/config/level2/key6"),
            Value::Object(vec![(
                "nested_key".to_string(),
                Value::String("nested_value".to_string()),
            )]),
        ),
        (AbsolutePath::new("/config/level2/key7"), Value::String("World".to_string())),
    ]);

    let resolved_json = resolve_values(&json, &context);

    let expected_resolved = object(vec![(
        "config",
        object(vec![
            (
                "level1",
                object(vec![
                    ("key1", number(100)),
                    ("key2", Value::Array(vec![number(1), number(2), number(3)])),
                    ("key3", object(vec![("nested_key", text("nested_value"))])),
                    ("key4", text("Hello World")),
                ]),
            ),
            (
                "level2",
                object(vec![
                    ("key4", number(100)),
                    ("key5", Value::Array(vec![number(1), number(2), number(3)])),
                    ("key6", object(vec![("nested_key", text("nested_value"))])),
                    ("key7", text("World")),
                ]),
            ),
        ]),
    )]);

    assert_eq!(resolved_json, expected_resolved);
}
