use json_deref::collector::{make_deps_path_map, DependencyMap};
use json_deref::expander::expand_absolute_paths;
use json_deref::extractor::{extract_values_by_paths, referenced_paths, PathSet, TargetTable};
use json_deref::path::AbsolutePath;
use json_deref::substituter::resolve_values;
use json_deref::value::{Number, Value};

fn text(s: &str) -> Value {
    Value::String(s.to_string())
}

fn number(n: i64) -> Value {
    Value::Number(Number::from_i64(n))
}

fn object(entries: Vec<(&str, Value)>) -> Value {
    Value::Object(entries.into_iter().map(|(k, v)| (k.to_string(), v)).collect())
}

fn assert_single_reference(map: &DependencyMap, leaf: &str, reference: &str, target: &str) {
    let leaf = AbsolutePath::new(leaf);
    let references = map.get(leaf.as_str()).expect("the leaf has an entry");
    assert_eq!(references.len(), 1);
    assert_eq!(references.get(reference), Some(&AbsolutePath::new(target)));
}

#[test]
fn test_convert_to_absolute_paths_with_one_invalid() {
    let input = object(vec![(
        "posting_config",
        object(vec![
            (
                "published_message_caption",
                text("Check this {../invite_group_link} or {invite_group_link}"),
            ),
            ("invite_group_link", text("link_value")),
        ]),
    )]);

    let mut path_map = DependencyMap::new();
    make_deps_path_map(&input, &Default::default(), &mut path_map);

    let result = expand_absolute_paths(&input, &path_map, &Default::default());
    let expected = object(vec![(
        "posting_config",
        object(vec![
            (
                "published_message_caption",
                text("Check this {/invite_group_link} or {/posting_config/invite_group_link}"),
            ),
            ("invite_group_link", text("link_value")),
        ]),
    )]);

    assert_eq!(result, expected);
}

#[test]
fn test_resolve_json_with_dependencies_at_different_levels() {
    let input = object(vec![(
        "config",
        object(vec![
            (
                "level1",
                object(vec![
                    ("key1", text("value1")),
                    ("key2", text("{/config/level1/key1}")),
                    ("key3", text("{/config/level2/key4}")),
                    (
                        "nested",
                        object(vec![
                            ("key4", text("{../../level2/key5}")),
                            ("key5", text("local_value")),
                        ]),
                    ),
                ]),
            ),
            (
                "level2",
                object(vec![
                    ("key4", number(42)),
                    ("key5", Value::Array(vec![number(1), number(2), number(3)])),
                    ("key6", text("{/config/level1/nested/key5}")),
                ]),
            ),
            ("global_key", text("{/config/level2/key4}")),
            ("global_dependency", text("{/config/level1/nested/key5}")),
        ]),
    )]);

    let mut path_map = DependencyMap::new();
    make_deps_path_map(&input, &AbsolutePath::new("/"), &mut path_map);

    assert_eq!(path_map.len(), 6);
    assert_single_reference(
        &path_map,
        "/config/global_key",
        "/config/level2/key4",
        "/config/level2/key4",
    );
    assert_single_reference(
        &path_map,
        "/config/global_dependency",
        "/config/level1/nested/key5",
        "/config/level1/nested/key5",
    );
    assert_single_reference(
        &path_map,
        "/config/level1/key2",
        "/config/level1/key1",
        "/config/level1/key1",
    );
    assert_single_reference(
        &path_map,
        "/config/level1/key3",
        "/config/level2/key4",
        "/config/level2/key4",
    );
    assert_single_reference(
        &path_map,
        "/config/level1/nested/key4",
        "../../level2/key5",
        "/config/level2/key5",
    );
    assert_single_reference(
        &path_map,
        "/config/level2/key6",
        "/config/level1/nested/key5",
        "/config/level1/nested/key5",
    );

    let result_json = expand_absolute_paths(&input, &path_map, &AbsolutePath::new("/"));
    let expected_json = object(vec![(
        "config",
        object(vec![
            (
                "level1",
                object(vec![
                    ("key1", text("value1")),
                    ("key2", text("{/config/level1/key1}")),
                    ("key3", text("{/config/level2/key4}")),
                    (
                        "nested",
                        object(vec![
                            ("key4", text("{/config/level2/key5}")),
                            ("key5", text("local_value")),
                        ]),
                    ),
                ]),
            ),
            (
                "level2",
                object(vec![
                    ("key4", number(42)),
                    ("key5", Value::Array(vec![number(1), number(2), number(3)])),
                    ("key6", text("{/config/level1/nested/key5}")),
                ]),
            ),
            ("global_key", text("{/config/level2/key4}")),
            ("global_dependency", text("{/config/level1/nested/key5}")),
        ]),
    )]);

    assert_eq!(result_json, expected_json);

    let mut extracted_values = TargetTable::new();
    let absolute_paths: PathSet = referenced_paths(&path_map);
    extract_values_by_paths(
        &result_json,
        &absolute_paths,
        &AbsolutePath::new("/"),
        &mut extracted_values,
    );

    assert_eq!(extracted_values.len(), 4);
    assert_eq!(
        extracted_values.get(AbsolutePath::new("/config/level2/key4").as_str()),
        Some(&number(42))
    );
    assert_eq!(
        extracted_values.get(AbsolutePath::new("/config/level2/key5").as_str()),
        Some(&Value::Array(vec![number(1), number(2), number(3)]))
    );
    assert_eq!(
        extracted_values.get(AbsolutePath::new("/config/level1/nested/key5").as_str()),
        Some(&Value::String("local_value".to_string()))
    );
    assert_eq!(
        extracted_values.get(AbsolutePath::new("/config/level1/key1").as_str()),
        Some(&Value::String("value1".to_string()))
    );

    let resolved_json = resolve_values(&result_json, &extracted_values);
    let expected_resolved = object(vec![(
        "config",
        object(vec![
            (
                "level1",
                object(vec![
                    ("key1", text("value1")),
                    ("key2", text("value1")),
                    ("key3", number(42)),
                    (
                        "nested",
                        object(vec![
                            ("key4", Value::Array(vec![number(1), number(2), number(3)])),
                            ("key5", text("local_value")),
                        ]),
                    ),
                ]),
            ),
            (
                "level2",
                object(vec![
                    ("key4", number(42)),
                    ("key5", Value::Array(vec![number(1), number(2), number(3)])),
                    ("key6", text("local_value")),
                ]),
            ),
            ("global_key", number(42)),
            ("global_dependency", text("local_value")),
        ]),
    )]);

    assert_eq!(resolved_json, expected_resolved);
}

#[test]
fn test_extract_values_by_paths() {
    let input = object(vec![(
        "config",
        object(vec![
            (
                "level1",
                object(vec![
                    ("key1", text("value1")),
                    ("key2", number(42)),
                    ("key3", Value::Array(vec![number(1), number(2), number(3)])),
                ]),
            ),
            (
                "level2",
                object(vec![
                    ("key4", object(vec![("nested_key", text("nested_value"))])),
                    ("key5", Value::Bool(true)),
                    ("key6", Value::Null),
                ]),
            ),
        ]),
    )]);

    let mut paths_to_extract = PathSet::new();
    paths_to_extract.insert(AbsolutePath::new("/config/level1/key1").as_str());
    paths_to_extract.insert(AbsolutePath::new("/config/level1/key2").as_str());
    paths_to_extract.insert(AbsolutePath::new("/config/level1/key3").as_str());
    paths_to_extract.insert(AbsolutePath::new("/config/level2/key4").as_str());
    paths_to_extract.insert(AbsolutePath::new("/config/level2/key5").as_str());
    paths_to_extract.insert(AbsolutePath::new("/config/level2/key6").as_str());

    let mut extracted_values = TargetTable::new();

    extract_values_by_paths(
        &input,
        &paths_to_extract,
        &AbsolutePath::new("/"),
        &mut extracted_values,
    );

    assert_eq!(extracted_values.len(), 6);
    let expected_extracted_values = vec![
        (AbsolutePath::new("/config/level1/key1"), Value::String("value1".to_string())),
        (AbsolutePath::new("/config/level1/key2"), number(42)),
        (
            AbsolutePath::new("/config/level1/key3"),
            Value::Array(vec![number(1), number(2), number(3)]),
        ),
        (
            AbsolutePath::new("/config/level2/key4"),
            Value::Object(vec![(
                "nested_key".to_string(),
                Value::String("nested_value".to_string()),
            )]),
        ),
        (AbsolutePath::new("/config/level2/key5"), Value::Bool(true)),
        (AbsolutePath::new("/config/level2/key6"), Value::Null),
    ];
    for (path, value) in expected_extracted_values.iter() {
        assert_eq!(extracted_values.get(path.as_str()), Some(value));
    }
}
