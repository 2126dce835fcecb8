use json_deref::path::{AbsolutePath, RelativePath};

#[test]
fn test_absolute_path_creation() {
    let abs_path = AbsolutePath::new("/some/nested/path/");
    assert_eq!(abs_path.as_str(), "/some/nested/path");
}

#[test]
fn test_relative_path_creation() {
    let rel_path = RelativePath::new("../another/path");
    assert_eq!(rel_path.as_str(), "../another/path");
}

#[test]
fn test_resolve_relative_path_to_absolute() {
    let base = AbsolutePath::new("/posting_config/nested/");
    let relative = RelativePath::new("../../invite_group_link");
    let resolved = base.resolve_with(&relative);
    assert_eq!(resolved.as_str(), "/invite_group_link");
}

#[test]
fn test_resolve_relative_with_empty_segments() {
    let base = AbsolutePath::new("/a/b/c/");
    let relative = RelativePath::new("../../../d/e/");
    let resolved = base.resolve_with(&relative);
    assert_eq!(resolved.as_str(), "/d/e");
}

#[test]
fn test_resolve_from_root() {
    let base = AbsolutePath::new("/");
    let relative = RelativePath::new("nested/path");
    let resolved = base.resolve_with(&relative);
    assert_eq!(resolved.as_str(), "/nested/path");
}
