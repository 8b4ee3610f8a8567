use s3_viewer::settings::conn_string::{
    parse_bool, printable_key, required, set_once, S3ConnString, S3ConnStringError,
};

const VALID: &str = "Endpoint=https://s3.eu-central-1.amazonaws.com;Region=eu-central-1;AccessKey=AKIA123;SecretKey=abc/def+ghi=;Bucket=my-bucket";

fn parse_ok(conn_string: &str) -> S3ConnString {
    match S3ConnString::parse(conn_string) {
        Ok(parsed) => parsed,
        Err(err) => panic!("'{conn_string}' should parse, got: {}", err.to_string()),
    }
}

fn parse_err(conn_string: &str) -> S3ConnStringError {
    match S3ConnString::parse(conn_string) {
        Ok(_) => panic!("'{conn_string}' should be refused"),
        Err(err) => err,
    }
}

#[test]
fn parses_a_connection_string() {
    let parsed = parse_ok(VALID);

    assert_eq!(parsed.endpoint, "https://s3.eu-central-1.amazonaws.com");
    assert_eq!(parsed.region, "eu-central-1");
    assert_eq!(parsed.access_key, "AKIA123");
    // A base64 secret carries its own '=' - only the first one separates.
    assert_eq!(parsed.secret_key, "abc/def+ghi=");
    assert_eq!(parsed.bucket, "my-bucket");
    assert!(!parsed.debug);
}

#[test]
fn whitespace_and_empty_entries_are_tolerated() {
    let parsed =
        parse_ok(" Endpoint = https://s3 ; Region=eu;;AccessKey=a ; SecretKey=b;Bucket=c; ");

    assert_eq!(parsed.endpoint, "https://s3");
    assert_eq!(parsed.access_key, "a");
    assert_eq!(parsed.bucket, "c");
}

#[test]
fn every_required_key_is_required() {
    let entries = [
        ("Endpoint", "Endpoint=https://s3"),
        ("Region", "Region=eu"),
        ("AccessKey", "AccessKey=a"),
        ("SecretKey", "SecretKey=b"),
        ("Bucket", "Bucket=c"),
    ];

    for (missing, _) in entries {
        let conn_string: Vec<&str> = entries
            .iter()
            .filter(|(key, _)| *key != missing)
            .map(|(_, entry)| *entry)
            .collect();

        assert_eq!(
            parse_err(conn_string.join(";").as_str()),
            S3ConnStringError::MissingKey { key: missing }
        );
    }
}

#[test]
fn an_empty_value_is_missing() {
    assert_eq!(
        parse_err("Endpoint=https://s3;Region=eu;AccessKey=a;SecretKey=b;Bucket="),
        S3ConnStringError::MissingKey { key: "Bucket" }
    );
}

#[test]
fn a_typo_is_an_unknown_key() {
    let err = parse_err("Endpoint=https://s3;Region=eu;AccessKey=a;SecretKey=b;Buckett=c");

    assert_eq!(
        err,
        S3ConnStringError::UnknownKey {
            entry: 5,
            key: Some("Buckett".to_string())
        }
    );
    assert!(err.to_string().contains("'Buckett'"));
}

#[test]
fn keys_are_case_sensitive() {
    assert_eq!(
        parse_err("Endpoint=https://s3;Region=eu;AccessKey=a;SecretKey=b;bucket=c"),
        S3ConnStringError::UnknownKey {
            entry: 5,
            key: Some("bucket".to_string())
        }
    );
}

#[test]
fn a_repeated_key_is_refused() {
    assert_eq!(
        parse_err("Endpoint=https://s3;Region=eu;Region=us;AccessKey=a;SecretKey=b;Bucket=c"),
        S3ConnStringError::DuplicateKey { key: "Region" }
    );
}

#[test]
fn an_entry_without_equals_is_refused_without_printing_it() {
    let err = parse_err("Endpoint=https://s3;Region=eu;AccessKey=a;TopSecretValue;Bucket=c");

    assert_eq!(err, S3ConnStringError::NotKeyValue { entry: 4 });
    assert!(!err.to_string().contains("TopSecretValue"));
}

#[test]
fn a_fragment_of_a_secret_is_not_printed() {
    // A secret that contains ';' splits into an entry whose "key" is part of the secret.
    let err = parse_err("Endpoint=https://s3;Region=eu;AccessKey=a;SecretKey=ab;c/d+e=f;Bucket=c");

    assert_eq!(
        err,
        S3ConnStringError::UnknownKey {
            entry: 5,
            key: None
        }
    );
    assert!(!err.to_string().contains("c/d+e"));
}

#[test]
fn debug_is_switched_by_the_connection_string() {
    for value in ["1", "true", "TRUE", "yes", "on"] {
        assert!(
            parse_ok(format!("{VALID};Debug={value}").as_str()).debug,
            "'{value}' should switch debug on"
        );
    }

    for value in ["0", "false", "no", "off"] {
        assert!(
            !parse_ok(format!("{VALID};Debug={value}").as_str()).debug,
            "'{value}' should leave debug off"
        );
    }
}

#[test]
fn an_unreadable_debug_value_is_refused() {
    assert_eq!(
        parse_err(format!("{VALID};Debug=maybe").as_str()),
        S3ConnStringError::InvalidDebugValue {
            value: "maybe".to_string()
        }
    );
}

#[test]
fn refusal_messages() {
    assert_eq!(
        S3ConnStringError::NotKeyValue { entry: 12 }.to_string(),
        "entry #12 is not Key=Value"
    );
    assert_eq!(
        S3ConnStringError::UnknownKey { entry: 3, key: Some("Bukcet".to_string()) }.to_string(),
        "unknown key 'Bukcet' (entry #3), expected Endpoint, Region, AccessKey, SecretKey, Bucket and optionally Debug"
    );
    assert_eq!(
        S3ConnStringError::UnknownKey { entry: 7, key: None }.to_string(),
        "entry #7 has an unknown key, expected Endpoint, Region, AccessKey, SecretKey, Bucket and optionally Debug"
    );
    assert_eq!(
        S3ConnStringError::DuplicateKey { key: "Region" }.to_string(),
        "'Region' is given more than once"
    );
    assert_eq!(
        S3ConnStringError::MissingKey { key: "Bucket" }.to_string(),
        "'Bucket' is missing or empty"
    );
    assert_eq!(
        S3ConnStringError::InvalidDebugValue { value: "maybe".to_string() }.to_string(),
        "'Debug' expects 1/0, true/false, yes/no or on/off - got 'maybe'"
    );
}

#[test]
fn an_entry_without_a_key_is_an_unknown_key_without_a_name() {
    assert_eq!(
        parse_err("=x;Endpoint=https://s3;Region=eu;AccessKey=a;SecretKey=b;Bucket=c"),
        S3ConnStringError::UnknownKey { entry: 1, key: None }
    );
}

#[test]
fn the_first_refused_entry_is_reported() {
    assert_eq!(
        parse_err("Region=eu;nonsense;Region=us"),
        S3ConnStringError::NotKeyValue { entry: 2 }
    );
    assert_eq!(
        parse_err("Region=eu;Region=us;nonsense"),
        S3ConnStringError::DuplicateKey { key: "Region" }
    );
    assert_eq!(parse_err(""), S3ConnStringError::MissingKey { key: "Endpoint" });
}

#[test]
fn a_documented_shape_round_trips() {
    let parsed = parse_ok("Endpoint=e;Region=r;AccessKey=a=b;SecretKey=s==;Bucket=b");
    assert_eq!(parsed.endpoint, "e");
    assert_eq!(parsed.region, "r");
    assert_eq!(parsed.access_key, "a=b");
    assert_eq!(parsed.secret_key, "s==");
    assert_eq!(parsed.bucket, "b");
    assert!(!parsed.debug);
}

#[test]
fn set_once_refuses_a_second_value() {
    let mut slot: Option<String> = None;
    assert_eq!(set_once(&mut slot, "Region", "eu"), Ok(()));
    assert_eq!(slot.as_deref(), Some("eu"));
    assert_eq!(
        set_once(&mut slot, "Region", "us"),
        Err(S3ConnStringError::DuplicateKey { key: "Region" })
    );
    assert_eq!(slot.as_deref(), Some("eu"));
}

#[test]
fn required_needs_a_non_empty_value() {
    assert_eq!(required(Some("x".to_string()), "Bucket"), Ok("x".to_string()));
    assert_eq!(
        required(Some(String::new()), "Bucket"),
        Err(S3ConnStringError::MissingKey { key: "Bucket" })
    );
    assert_eq!(
        required(None, "Region"),
        Err(S3ConnStringError::MissingKey { key: "Region" })
    );
}

#[test]
fn debug_values_in_any_ascii_case() {
    assert_eq!(parse_bool("On"), Ok(true));
    assert_eq!(parse_bool("YES"), Ok(true));
    assert_eq!(parse_bool("Off"), Ok(false));
    assert_eq!(parse_bool("0"), Ok(false));
    assert_eq!(
        parse_bool(" on"),
        Err(S3ConnStringError::InvalidDebugValue { value: " on".to_string() })
    );
    assert_eq!(
        parse_bool("ON\u{130}"),
        Err(S3ConnStringError::InvalidDebugValue { value: "ON\u{130}".to_string() })
    );
}

#[test]
fn only_short_ascii_words_are_printable_keys() {
    assert_eq!(printable_key("Buckett"), Some("Buckett".to_string()));
    assert_eq!(printable_key("abcdefghijklmnop"), Some("abcdefghijklmnop".to_string()));
    assert_eq!(printable_key("abcdefghijklmnopq"), None);
    assert_eq!(printable_key("c/d+e"), None);
    assert_eq!(printable_key("ключ"), None);
    assert_eq!(printable_key(""), None);
}
