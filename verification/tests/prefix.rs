use s3_viewer::scripts::prefix::normalize_prefix;

#[test]
fn absent_and_empty_prefix_are_the_bucket_root() {
    assert_eq!(normalize_prefix(None), "");
    assert_eq!(normalize_prefix(Some("")), "");
}

#[test]
fn folder_prefix_is_kept_as_is() {
    assert_eq!(normalize_prefix(Some("a/")), "a/");
    assert_eq!(normalize_prefix(Some("a/b c/")), "a/b c/");
}

#[test]
fn missing_trailing_slash_is_added() {
    assert_eq!(normalize_prefix(Some("a/b")), "a/b/");
    assert_eq!(normalize_prefix(Some("фото")), "фото/");
}

#[test]
fn normalizing_twice_changes_nothing() {
    for p in ["", "a", "a/", "a//", " ", "ф"] {
        let once = normalize_prefix(Some(p));
        assert_eq!(normalize_prefix(Some(once.as_str())), once);
        assert!(once.is_empty() || once.ends_with('/'));
        assert!(once.starts_with(p));
    }
}
