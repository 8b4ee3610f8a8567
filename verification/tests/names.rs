use s3_viewer::scripts::names::{get_file_name, get_folder_name, is_folder_marker};

#[test]
fn root_level_file() {
    assert_eq!(get_file_name("", "readme.txt"), "readme.txt");
}

#[test]
fn nested_file() {
    assert_eq!(get_file_name("a/b/", "a/b/c.txt"), "c.txt");
}

#[test]
fn get_file_name_unicode_and_spaces() {
    assert_eq!(
        get_file_name("фото/", "фото/лето 2024.jpg"),
        "лето 2024.jpg"
    );
    assert_eq!(get_file_name("my docs/", "my docs/a b.pdf"), "a b.pdf");
}

#[test]
fn prefix_mismatch_keeps_the_whole_key() {
    assert_eq!(get_file_name("x/", "a/b.txt"), "a/b.txt");
}

#[test]
fn root_level_folder() {
    assert_eq!(get_folder_name("", "photos/"), "photos");
}

#[test]
fn nested_folder() {
    assert_eq!(get_folder_name("a/b/", "a/b/c/"), "c");
}

#[test]
fn get_folder_name_unicode_and_spaces() {
    assert_eq!(
        get_folder_name("документы/", "документы/мой отчёт/"),
        "мой отчёт"
    );
    assert_eq!(get_folder_name("", "my folder/"), "my folder");
}

#[test]
fn empty_segment_of_a_double_slash() {
    assert_eq!(get_folder_name("a/", "a//"), "");
}

#[test]
fn prefix_mismatch_keeps_the_whole_prefix() {
    assert_eq!(get_folder_name("x/", "a/b/"), "a/b");
}

#[test]
fn zero_length_object_named_like_the_prefix_is_a_marker() {
    assert!(is_folder_marker("a/b/", "a/b/", 0));
}

#[test]
fn regular_files_are_not_markers() {
    assert!(!is_folder_marker("a/b/", "a/b/c.txt", 0));
    assert!(!is_folder_marker("a/b/", "a/b/c.txt", 10));
}

#[test]
fn object_with_content_is_not_skipped() {
    assert!(!is_folder_marker("a/b/", "a/b/", 10));
}

#[test]
fn root_level_has_no_marker() {
    assert!(!is_folder_marker("", "", 0));
}

#[test]
fn names_of_entries_listed_under_their_prefix() {
    let prefix = "p/q/";
    for name in ["x", "x y", "ü", "a=b"] {
        assert_eq!(get_file_name(prefix, &format!("{prefix}{name}")), name);
        assert_eq!(get_folder_name(prefix, &format!("{prefix}{name}/")), name);
    }
}

#[test]
fn a_folder_name_loses_only_one_slash() {
    assert_eq!(get_folder_name("a/", "a/b//"), "b/");
    assert_eq!(get_folder_name("a/", "a/b"), "b");
}
