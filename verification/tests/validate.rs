use s3_viewer::settings::model::{BucketSettingsModel, SettingsModel, DEFAULT_HTTP_PORT};
use s3_viewer::settings::validate::{validate_settings, SettingsValidationError};

fn text_of(value: &serde_yaml::Value, field: &str) -> String {
    match &value[field] {
        serde_yaml::Value::String(s) => s.clone(),
        other => panic!("`{field}` must be a string, got {other:?}"),
    }
}

// Reads the settings YAML the way the settings file is read: `http_port` is
// optional, every bucket has all five fields.
fn parse(yaml: &str) -> SettingsModel {
    let value: serde_yaml::Value = serde_yaml::from_str(yaml).unwrap();
    let http_port = value
        .get("http_port")
        .and_then(serde_yaml::Value::as_u64)
        .map(|port| u16::try_from(port).unwrap());
    let buckets = value["buckets"]
        .as_sequence()
        .unwrap()
        .iter()
        .map(|bucket| BucketSettingsModel {
            name: text_of(bucket, "name"),
            endpoint: text_of(bucket, "endpoint"),
            region: text_of(bucket, "region"),
            access_key: text_of(bucket, "access_key"),
            secret_key: text_of(bucket, "secret_key"),
        })
        .collect();
    SettingsModel { http_port, buckets }
}

fn bucket_yaml(name: &str) -> String {
    format!(
        "  - name: {name}\n    endpoint: https://e\n    region: r\n    access_key: a\n    secret_key: s\n"
    )
}

const SETTINGS_EXAMPLE: &str = "http_port: 8000          # optional, 8000 when absent
buckets:                 # the root of the tree, in this order; names must be unique
  - name: my-bucket
    endpoint: https://nbg1.your-objectstorage.com
    region: nbg1
    access_key: YOUR_ACCESS_KEY
    secret_key: YOUR_SECRET_KEY
";

#[test]
fn example_settings_file_is_valid() {
    let settings = parse(SETTINGS_EXAMPLE);

    assert_eq!(settings.get_http_port(), 8000);
    assert_eq!(settings.buckets.len(), 1);
    assert_eq!(validate_settings(&settings), Ok(()));
}

#[test]
fn http_port_is_optional() {
    let settings = parse(&format!("buckets:\n{}", bucket_yaml("b1")));

    assert_eq!(settings.get_http_port(), DEFAULT_HTTP_PORT);
    assert_eq!(validate_settings(&settings), Ok(()));
}

#[test]
fn empty_bucket_list_is_rejected() {
    let settings = parse("http_port: 9000\nbuckets: []\n");

    assert_eq!(
        validate_settings(&settings),
        Err(SettingsValidationError::NoBuckets)
    );
}

#[test]
fn empty_bucket_name_is_rejected() {
    let settings = parse(&format!(
        "buckets:\n{}{}",
        bucket_yaml("b1"),
        bucket_yaml("\"\"")
    ));

    assert_eq!(
        validate_settings(&settings),
        Err(SettingsValidationError::EmptyBucketName { index: 1 })
    );
}

#[test]
fn duplicate_bucket_names_are_rejected() {
    let settings = parse(&format!(
        "buckets:\n{}{}{}",
        bucket_yaml("b1"),
        bucket_yaml("b2"),
        bucket_yaml("b1")
    ));

    assert_eq!(
        validate_settings(&settings),
        Err(SettingsValidationError::DuplicateBucketName {
            name: "b1".to_string()
        })
    );
}

fn bucket(name: &str) -> BucketSettingsModel {
    BucketSettingsModel {
        name: name.to_string(),
        endpoint: "https://e".to_string(),
        region: "r".to_string(),
        access_key: "a".to_string(),
        secret_key: "s".to_string(),
    }
}

#[test]
fn a_blank_name_counts_as_empty_and_the_first_problem_wins() {
    let settings = SettingsModel {
        http_port: Some(1),
        buckets: vec![bucket("b1"), bucket("b1"), bucket(" \t")],
    };
    assert_eq!(
        validate_settings(&settings),
        Err(SettingsValidationError::DuplicateBucketName { name: "b1".to_string() })
    );
    let settings = SettingsModel {
        http_port: None,
        buckets: vec![bucket("b1"), bucket("\u{3000}"), bucket("b1")],
    };
    assert_eq!(
        validate_settings(&settings),
        Err(SettingsValidationError::EmptyBucketName { index: 1 })
    );
    assert_eq!(settings.get_http_port(), 8000);
}

#[test]
fn names_that_differ_only_in_case_are_distinct() {
    let settings = SettingsModel {
        http_port: Some(9000),
        buckets: vec![bucket("B1"), bucket("b1")],
    };
    assert_eq!(validate_settings(&settings), Ok(()));
    assert_eq!(settings.get_http_port(), 9000);
}

#[test]
fn validation_messages() {
    assert_eq!(
        SettingsValidationError::NoBuckets.to_string(),
        "`buckets` is empty: configure at least one bucket, they are the root level of the tree"
    );
    assert_eq!(
        SettingsValidationError::EmptyBucketName { index: 1 }.to_string(),
        "bucket #2 has an empty `name`"
    );
    assert_eq!(
        SettingsValidationError::DuplicateBucketName { name: "b1".to_string() }.to_string(),
        "bucket name 'b1' is configured more than once: names must be unique"
    );
}
