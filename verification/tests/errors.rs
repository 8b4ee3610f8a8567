use s3_viewer::errors::{api_route_not_found, FailAnswer, S3Failure, S3ViewerError};

fn bucket_not_found() -> S3ViewerError {
    S3ViewerError::S3(S3Failure {
        is_bucket_not_found: true,
        is_key_not_found: false,
        status_code: Some(404),
        description: "NoSuchBucket".to_string(),
    })
}

fn key_not_found() -> S3ViewerError {
    S3ViewerError::S3(S3Failure {
        is_bucket_not_found: false,
        is_key_not_found: true,
        status_code: Some(404),
        description: "NoSuchKey".to_string(),
    })
}

fn other(status_code: Option<u16>, description: &str) -> S3ViewerError {
    S3ViewerError::S3(S3Failure {
        is_bucket_not_found: false,
        is_key_not_found: false,
        status_code,
        description: description.to_string(),
    })
}

fn status_code_of(err: S3ViewerError) -> u16 {
    FailAnswer::from(err).status_code
}

fn text_of(err: S3ViewerError) -> String {
    FailAnswer::from(err).text
}

#[test]
fn unknown_bucket_is_404() {
    assert_eq!(status_code_of(S3ViewerError::BucketIsNotConfigured), 404);
}

#[test]
fn missing_bucket_or_key_in_s3_is_404() {
    assert_eq!(status_code_of(bucket_not_found()), 404);
    assert_eq!(status_code_of(key_not_found()), 404);
}

#[test]
fn other_s3_errors_are_500() {
    assert_eq!(status_code_of(other(None, "boom")), 500);
    assert_eq!(status_code_of(other(Some(403), "AccessDenied")), 500);
}

#[test]
fn s3_error_details_do_not_reach_the_client() {
    let text = text_of(other(
        Some(500),
        "<Error><Resource>/secret-bucket/key</Resource><RequestId>R1</RequestId></Error>",
    ));

    assert_eq!(text, "S3 request failed");
}

#[test]
fn access_denied_gets_its_own_short_text() {
    let text = text_of(other(Some(403), "<Error><RequestId>R1</RequestId></Error>"));

    assert_eq!(text, "Access to the bucket is denied by S3");
}

#[test]
fn answer_is_404_with_a_short_text() {
    let answer = api_route_not_found();
    assert_eq!(answer.status_code, 404);
    assert_eq!(answer.text, "API route not found");
    assert!(answer.log_text.is_none());
}

#[test]
fn not_found_answers_name_what_is_missing_and_log_nothing() {
    let answer = FailAnswer::from(S3ViewerError::BucketIsNotConfigured);
    assert_eq!(answer.text, "Bucket is not configured");
    assert!(answer.log_text.is_none());
    let answer = FailAnswer::from(bucket_not_found());
    assert_eq!(answer.text, "Bucket is not found in S3");
    assert!(answer.log_text.is_none());
    let answer = FailAnswer::from(key_not_found());
    assert_eq!(answer.text, "Object is not found");
    assert!(answer.log_text.is_none());
}

#[test]
fn failures_go_to_the_log_with_their_details() {
    let answer = FailAnswer::from(other(Some(503), "SlowDown R9"));
    assert_eq!(answer.status_code, 500);
    assert_eq!(answer.log_text.as_deref(), Some("SlowDown R9"));
}

#[test]
fn tool_calls_are_told_the_s3_reason() {
    assert_eq!(
        String::from(S3ViewerError::BucketIsNotConfigured),
        "Bucket is not configured. Call list_buckets to see the configured buckets"
    );
    assert_eq!(String::from(other(None, "boom")), "S3 request failed: boom");
}
