use s3_viewer::api::FolderHttpModel;
use s3_viewer::models::{ListedLevel, ListedObject};
use s3_viewer::scripts::list_response::build_list_objects_response;

fn object(key: &str, size: u64) -> ListedObject {
    ListedObject {
        key: key.to_string(),
        size,
        last_modified: "2026-09-13T10:00:00.000Z".to_string(),
    }
}

fn level(common_prefixes: &[&str], objects: Vec<ListedObject>) -> ListedLevel {
    ListedLevel {
        common_prefixes: common_prefixes.iter().map(ToString::to_string).collect(),
        objects,
        is_truncated: false,
    }
}

#[test]
fn bucket_root() {
    let response = build_list_objects_response(
        "b1",
        String::new(),
        level(&["photos/", "docs/"], vec![object("readme.txt", 5)]),
    );

    assert_eq!(response.bucket, "b1");
    assert_eq!(response.prefix, "");
    assert_eq!(
        response.folders,
        vec![
            FolderHttpModel {
                prefix: "docs/".to_string(),
                name: "docs".to_string()
            },
            FolderHttpModel {
                prefix: "photos/".to_string(),
                name: "photos".to_string()
            },
        ]
    );
    assert_eq!(response.files.len(), 1);
    assert_eq!(response.files[0].key, "readme.txt");
    assert_eq!(response.files[0].name, "readme.txt");
    assert_eq!(response.files[0].size, 5);
    assert!(!response.is_truncated);
}

#[test]
fn nested_level_skips_the_folder_marker() {
    let response = build_list_objects_response(
        "b1",
        "a/b/".to_string(),
        level(
            &["a/b/c/"],
            vec![object("a/b/", 0), object("a/b/file 1.txt", 12)],
        ),
    );

    assert_eq!(response.folders[0].prefix, "a/b/c/");
    assert_eq!(response.folders[0].name, "c");
    assert_eq!(response.files.len(), 1);
    assert_eq!(response.files[0].key, "a/b/file 1.txt");
    assert_eq!(response.files[0].name, "file 1.txt");
}

#[test]
fn sorted_by_name_case_insensitive_with_unicode() {
    let response = build_list_objects_response(
        "b1",
        "x/".to_string(),
        level(
            &["x/beta/", "x/Alpha/", "x/яблоко/", "x/alpha/"],
            vec![
                object("x/b.txt", 1),
                object("x/A.txt", 1),
                object("x/ä.txt", 1),
            ],
        ),
    );

    let folder_names: Vec<&str> = response.folders.iter().map(|f| f.name.as_str()).collect();
    assert_eq!(folder_names, vec!["Alpha", "alpha", "beta", "яблоко"]);

    let file_names: Vec<&str> = response.files.iter().map(|f| f.name.as_str()).collect();
    assert_eq!(file_names, vec!["A.txt", "b.txt", "ä.txt"]);
}

#[test]
fn truncation_is_passed_through() {
    let mut listed = level(&[], vec![]);
    listed.is_truncated = true;

    let response = build_list_objects_response("b1", String::new(), listed);

    assert!(response.is_truncated);
    assert!(response.folders.is_empty());
    assert!(response.files.is_empty());
}

#[test]
fn order_does_not_depend_on_the_order_s3_listed_in() {
    let prefixes = ["x/b/", "x/B/", "x/a/", "x/Ä/", "x/c/", "x/ä/"];
    let keys = ["x/z.txt", "x/Z.txt", "x/y", "x/ÿ", "x/1"];
    let names = |p: &[&str], k: &[&str]| {
        let response = build_list_objects_response(
            "b",
            "x/".to_string(),
            level(p, k.iter().map(|key| object(key, 1)).collect()),
        );
        (
            response.folders.iter().map(|f| f.name.clone()).collect::<Vec<_>>(),
            response.files.iter().map(|f| f.name.clone()).collect::<Vec<_>>(),
        )
    };
    let first = names(&prefixes, &keys);
    let mut p = prefixes;
    let mut k = keys;
    p.reverse();
    k.reverse();
    assert_eq!(names(&p, &k), first);
    p.rotate_left(2);
    k.rotate_left(3);
    assert_eq!(names(&p, &k), first);
    assert_eq!(first.0, vec!["a", "B", "b", "c", "Ä", "ä"]);
    assert_eq!(first.1, vec!["1", "y", "Z.txt", "z.txt", "ÿ"]);
}

#[test]
fn entries_keep_their_metadata_and_the_marker_only_when_empty() {
    let response = build_list_objects_response(
        "b1",
        "a/".to_string(),
        level(&[], vec![object("a/", 3), object("a/f", 0)]),
    );
    assert_eq!(response.files.len(), 2);
    assert_eq!(response.files[0].name, "");
    assert_eq!(response.files[0].size, 3);
    assert_eq!(response.files[1].name, "f");
    assert_eq!(response.files[1].last_modified, "2026-09-13T10:00:00.000Z");
}

#[test]
fn entries_of_the_same_name_keep_the_order_s3_listed_them_in() {
    let response = build_list_objects_response(
        "b1",
        "x/".to_string(),
        level(&[], vec![object("x/b", 1), object("x/a", 2), object("x/a", 3), object("x/A", 4)]),
    );
    let listed: Vec<(&str, u64)> =
        response.files.iter().map(|f| (f.name.as_str(), f.size)).collect();
    assert_eq!(listed, vec![("A", 4), ("a", 2), ("a", 3), ("b", 1)]);

    let response = build_list_objects_response(
        "b1",
        "x/".to_string(),
        level(&[], vec![object("x/a", 3), object("x/a", 2)]),
    );
    let sizes: Vec<u64> = response.files.iter().map(|f| f.size).collect();
    assert_eq!(sizes, vec![3, 2]);
}
