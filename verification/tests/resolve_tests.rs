use json_deref::value::{Number, Value};
use json_deref::{resolve_json, resolve_template_with_source, JsonResolvableFunctions};

fn text(s: &str) -> Value {
    Value::String(s.to_string())
}

fn number(n: i64) -> Value {
    Value::Number(Number::from_i64(n))
}

fn object(entries: Vec<(&str, Value)>) -> Value {
    Value::Object(entries.into_iter().map(|(k, v)| (k.to_string(), v)).collect())
}

#[test]
fn placeholder_free_document_is_unchanged() {
    let input = object(vec![
        ("name", text("plain text with } and { in the wrong order")),
        ("count", number(3)),
        ("flags", Value::Array(vec![Value::Bool(true), Value::Null])),
        ("nested", object(vec![("text", text("nothing to see"))])),
    ]);
    assert_eq!(resolve_json(&input), input);
}

#[test]
fn sibling_structures_resolve_to_their_own_parents() {
    let input = object(vec![
        (
            "a",
            object(vec![
                ("parent_key", text("from a")),
                ("child", object(vec![("leaf", text("{../parent_key}"))])),
            ]),
        ),
        (
            "b",
            object(vec![
                ("parent_key", text("from b")),
                ("child", object(vec![("leaf", text("{../parent_key}"))])),
            ]),
        ),
    ]);
    let expected = object(vec![
        (
            "a",
            object(vec![
                ("parent_key", text("from a")),
                ("child", object(vec![("leaf", text("from a"))])),
            ]),
        ),
        (
            "b",
            object(vec![
                ("parent_key", text("from b")),
                ("child", object(vec![("leaf", text("from b"))])),
            ]),
        ),
    ]);
    assert_eq!(resolve_json(&input), expected);
}

#[test]
fn whole_string_placeholder_keeps_the_type() {
    let input = object(vec![("a", text("{/b}")), ("b", number(42))]);
    let expected = object(vec![("a", number(42)), ("b", number(42))]);
    assert_eq!(resolve_json(&input), expected);
}

#[test]
fn embedded_placeholders_are_rendered_as_text() {
    let input = object(vec![
        ("greeting", text("Hi {user}, msgs: {count}")),
        ("user", text("Alice")),
        ("count", number(5)),
    ]);
    let expected = object(vec![
        ("greeting", text("Hi Alice, msgs: 5")),
        ("user", text("Alice")),
        ("count", number(5)),
    ]);
    assert_eq!(resolve_json(&input), expected);
}

#[test]
fn unresolvable_reference_is_untouched() {
    let input = object(vec![("x", text("{/nonexistent}"))]);
    assert_eq!(resolve_json(&input), input);
}

#[test]
fn absolute_path_is_resolved() {
    let input = object(vec![
        ("profile", object(vec![("bio", text("{/details/bio}"))])),
        ("details", object(vec![("bio", text("Engineer"))])),
    ]);
    let expected = object(vec![
        ("profile", object(vec![("bio", text("Engineer"))])),
        ("details", object(vec![("bio", text("Engineer"))])),
    ]);
    assert_eq!(resolve_json(&input), expected);
}

#[test]
fn relative_up_reference_is_resolved() {
    let input = object(vec![
        ("project", object(vec![("name", text("x")), ("author", text("{../author/name}"))])),
        ("author", object(vec![("name", text("Arsynth"))])),
    ]);
    let expected = object(vec![
        ("project", object(vec![("name", text("x")), ("author", text("Arsynth"))])),
        ("author", object(vec![("name", text("Arsynth"))])),
    ]);
    assert_eq!(resolve_json(&input), expected);
}

#[test]
fn array_elements_are_addressed_by_index() {
    let input = object(vec![
        ("users", Value::Array(vec![text("{/user1}"), text("{/user2}")])),
        ("user1", text("Alice")),
        ("user2", text("Bob")),
        ("first", text("{/users/0}")),
    ]);
    let expected = object(vec![
        ("users", Value::Array(vec![text("Alice"), text("Bob")])),
        ("user1", text("Alice")),
        ("user2", text("Bob")),
        ("first", text("{/user1}")),
    ]);
    assert_eq!(resolve_json(&input), expected);
}

#[test]
fn unterminated_placeholder_is_untouched() {
    let input = object(vec![("x", text("value {unterminated"))]);
    assert_eq!(resolve_json(&input), input);
    let mixed = object(vec![("x", text("{/y} then {unterminated")), ("y", text("done"))]);
    let expected = object(vec![("x", text("done then {unterminated")), ("y", text("done"))]);
    assert_eq!(resolve_json(&mixed), expected);
}

#[test]
fn references_are_not_followed_further() {
    let input = object(vec![
        ("a", text("{/b}")),
        ("b", text("{/c}")),
        ("c", text("end")),
        ("d", text("see {/b}")),
    ]);
    let expected = object(vec![
        ("a", text("{/c}")),
        ("b", text("end")),
        ("c", text("end")),
        ("d", text("see {/c}")),
    ]);
    assert_eq!(resolve_json(&input), expected);
}

#[test]
fn internal_dependencies_of_every_kind() {
    let input = object(vec![
        ("string_field", text("Static Value")),
        ("number_field", number(123)),
        ("boolean_field", Value::Bool(true)),
        ("null_field", Value::Null),
        ("absolute_field", text("{/string_field}")),
        ("relative_field", text("{string_field}")),
        ("embedded_field", text("Embedded: {string_field}")),
        (
            "object_field",
            object(vec![
                ("parent_field", text("{../relative_field}")),
                ("out_of_bounds_field", text("{../../boolean_field}")),
            ]),
        ),
        ("array_field", Value::Array(vec![text("Static Value"), text("{../number_field}")])),
        ("unresolvable_field", text("{/nonexistent}")),
    ]);
    let expected = object(vec![
        ("string_field", text("Static Value")),
        ("number_field", number(123)),
        ("boolean_field", Value::Bool(true)),
        ("null_field", Value::Null),
        ("absolute_field", text("Static Value")),
        ("relative_field", text("Static Value")),
        ("embedded_field", text("Embedded: Static Value")),
        (
            "object_field",
            object(vec![
                ("parent_field", text("{/string_field}")),
                ("out_of_bounds_field", Value::Bool(true)),
            ]),
        ),
        ("array_field", Value::Array(vec![text("Static Value"), number(123)])),
        ("unresolvable_field", text("{/nonexistent}")),
    ]);
    assert_eq!(input.resolve_internal_dependencies(), expected);
}

#[test]
fn template_is_resolved_from_a_source() {
    let template = object(vec![
        ("string_field", text("{/data/string}")),
        ("number_field", text("{/data/number}")),
        ("boolean_field", text("{/data/boolean}")),
        ("array_field", text("{/data/array}")),
        ("object_field", text("{/data/object}")),
        ("null_field", text("{/data/null}")),
        ("embedded_field", text("Referenced: {/data/string}")),
        ("unresolvable_field", text("{/data/nonexistent}")),
    ]);
    let source = object(vec![(
        "data",
        object(vec![
            ("string", text("String Value")),
            ("number", number(123)),
            ("boolean", Value::Bool(false)),
            ("array", Value::Array(vec![text("a"), text("b"), text("c")])),
            ("object", object(vec![("key", text("value"))])),
            ("null", Value::Null),
        ]),
    )]);
    let expected = object(vec![
        ("string_field", text("String Value")),
        ("number_field", number(123)),
        ("boolean_field", Value::Bool(false)),
        ("array_field", Value::Array(vec![text("a"), text("b"), text("c")])),
        ("object_field", object(vec![("key", text("value"))])),
        ("null_field", Value::Null),
        ("embedded_field", text("Referenced: String Value")),
        ("unresolvable_field", text("{/data/nonexistent}")),
    ]);
    assert_eq!(resolve_template_with_source(&template, &source), expected);
    assert_eq!(JsonResolvableFunctions::resolve_template_with_source(&template, &source), expected);
}

#[test]
fn embedded_scalars_and_containers() {
    let template = object(vec![
        ("n", text("n = {/n}")),
        ("t", text("t = {/t}; f = {/f}")),
        ("z", text("z = {/z}")),
        ("list", text("list = {/list}")),
        ("map", text("map = {/map}")),
        ("relative", text("rel = {n}")),
    ]);
    let source = object(vec![
        ("n", number(-7)),
        ("t", Value::Bool(true)),
        ("f", Value::Bool(false)),
        ("z", Value::Null),
        ("list", Value::Array(vec![number(1)])),
        ("map", object(vec![("k", number(1))])),
    ]);
    let expected = object(vec![
        ("n", text("n = -7")),
        ("t", text("t = true; f = false")),
        ("z", text("z = null")),
        ("list", text("list = {/list}")),
        ("map", text("map = {/map}")),
        ("relative", text("rel = {n}")),
    ]);
    assert_eq!(resolve_template_with_source(&template, &source), expected);
}
