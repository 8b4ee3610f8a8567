use s3_viewer::scripts::content_type::{resolve_content_type, DEFAULT_CONTENT_TYPE};

#[test]
fn s3_value_is_used() {
    assert_eq!(resolve_content_type(Some("image/png")), "image/png");
    assert_eq!(
        resolve_content_type(Some(" text/plain; charset=utf-8 ")),
        "text/plain; charset=utf-8"
    );
}

#[test]
fn missing_or_empty_falls_back() {
    assert_eq!(resolve_content_type(None), DEFAULT_CONTENT_TYPE);
    assert_eq!(resolve_content_type(Some("  ")), DEFAULT_CONTENT_TYPE);
}

#[test]
fn malformed_value_falls_back() {
    assert_eq!(
        resolve_content_type(Some("text/html\r\nSet-Cookie: x=1")),
        DEFAULT_CONTENT_TYPE
    );
    assert_eq!(
        resolve_content_type(Some("текст/plain")),
        DEFAULT_CONTENT_TYPE
    );
}

#[test]
fn inner_tab_is_kept_and_outer_unicode_space_trimmed() {
    assert_eq!(resolve_content_type(Some("a\tb")), "a\tb");
    assert_eq!(resolve_content_type(Some("\u{3000}text/csv\u{a0}")), "text/csv");
    assert_eq!(resolve_content_type(Some("a\u{7f}")), DEFAULT_CONTENT_TYPE);
    assert_eq!(DEFAULT_CONTENT_TYPE, "application/octet-stream");
}
