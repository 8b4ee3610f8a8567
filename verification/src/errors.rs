//! Why a bucket operation failed, and what the REST API and the MCP tools
//! answer with.
use vstd::prelude::*;

use crate::text::push_str;

verus! {

/// What the viewer needs of a failed S3 request: whether S3 said the bucket
/// or the key does not exist, the HTTP status S3 answered with if any, and
/// the error's own description (endpoint, bucket, key, request ids).
pub struct S3Failure {
    pub is_bucket_not_found: bool,
    pub is_key_not_found: bool,
    pub status_code: Option<u16>,
    pub description: String,
}

/// Why a bucket operation failed.
pub enum S3ViewerError {
    /// The bucket name from the request is not in the settings file.
    BucketIsNotConfigured,
    /// S3 refused or failed the request.
    S3(S3Failure),
}

/// An HTTP failure answer: its status, the short text the client gets, and
/// what is written to the log, if anything.
pub struct FailAnswer {
    pub status_code: u16,
    pub text: String,
    pub log_text: Option<String>,
}

pub const NOT_FOUND_STATUS_CODE: u16 = 404;

pub const FATAL_ERROR_STATUS_CODE: u16 = 500;

pub const ACCESS_DENIED_STATUS_CODE: u16 = 403;

/// The answer to a failed request, as (status, client text, log text).
/// Not-found answers are 404; everything else is a 500 with a short fixed
/// text. The S3 description goes to the log only, never to the client.
pub open spec fn fail_answer_for(err: S3ViewerError) -> (u16, Seq<char>, Option<Seq<char>>) {
    match err {
        S3ViewerError::BucketIsNotConfigured => (
            NOT_FOUND_STATUS_CODE,
            "Bucket is not configured"@,
            None,
        ),
        S3ViewerError::S3(f) => if f.is_bucket_not_found {
            (NOT_FOUND_STATUS_CODE, "Bucket is not found in S3"@, None)
        } else if f.is_key_not_found {
            (NOT_FOUND_STATUS_CODE, "Object is not found"@, None)
        } else if f.status_code == Some(ACCESS_DENIED_STATUS_CODE) {
            (FATAL_ERROR_STATUS_CODE, "Access to the bucket is denied by S3"@, Some(f.description@))
        } else {
            (FATAL_ERROR_STATUS_CODE, "S3 request failed"@, Some(f.description@))
        },
    }
}

/// The contents of a [`FailAnswer`]: status, client text, log text.
pub open spec fn answer_view(a: FailAnswer) -> (u16, Seq<char>, Option<Seq<char>>) {
    (
        a.status_code,
        a.text@,
        match a.log_text {
            Some(t) => Some(t@),
            None => None,
        },
    )
}

fn string_of(s: &str) -> (r: String)
    ensures
        r@ == s@,
{
    String::from_str(s)
}

impl FailAnswer {
    /// The one place a bucket failure becomes an HTTP answer.
    pub fn from(err: S3ViewerError) -> (r: FailAnswer)
        ensures
            answer_view(r) == fail_answer_for(err),
    {
        match err {
            S3ViewerError::BucketIsNotConfigured => FailAnswer {
                status_code: NOT_FOUND_STATUS_CODE,
                text: string_of("Bucket is not configured"),
                log_text: None,
            },
            S3ViewerError::S3(f) => from_s3_error(f),
        }
    }
}

/// The answer to a path under `/api` that no route answers: 404 with a short
/// text, not written to the log (anyone can generate unknown URLs).
pub fn api_route_not_found() -> (r: FailAnswer)
    ensures
        r.status_code == NOT_FOUND_STATUS_CODE,
        r.text@ == "API route not found"@,
        r.log_text is None,
{
    FailAnswer {
        status_code: NOT_FOUND_STATUS_CODE,
        text: string_of("API route not found"),
        log_text: None,
    }
}

/// The answer to a failed S3 request.
pub fn from_s3_error(err: S3Failure) -> (r: FailAnswer)
    ensures
        answer_view(r) == fail_answer_for(S3ViewerError::S3(err)),
{
    if err.is_bucket_not_found {
        return FailAnswer {
            status_code: NOT_FOUND_STATUS_CODE,
            text: string_of("Bucket is not found in S3"),
            log_text: None,
        };
    }
    if err.is_key_not_found {
        return FailAnswer {
            status_code: NOT_FOUND_STATUS_CODE,
            text: string_of("Object is not found"),
            log_text: None,
        };
    }
    let access_denied = match err.status_code {
        Some(code) => code == ACCESS_DENIED_STATUS_CODE,
        None => false,
    };
    if access_denied {
        return FailAnswer {
            status_code: FATAL_ERROR_STATUS_CODE,
            text: string_of("Access to the bucket is denied by S3"),
            log_text: Some(err.description),
        };
    }
    FailAnswer {
        status_code: FATAL_ERROR_STATUS_CODE,
        text: string_of("S3 request failed"),
        log_text: Some(err.description),
    }
}

/// A failed request is answered with 404 when S3 or the settings say the
/// bucket or the key does not exist, and with 500 otherwise; what the client
/// reads is one of five fixed texts and never depends on the S3 error's own
/// description, which only reaches the log.
pub proof fn lemma_fail_answer_hides_s3_details(err: S3ViewerError, other_description: Seq<char>)
    ensures
        ({
            let (status, text, _) = fail_answer_for(err);
            &&& status == NOT_FOUND_STATUS_CODE || status == FATAL_ERROR_STATUS_CODE
            &&& text == "Bucket is not configured"@ || text == "Bucket is not found in S3"@ || text
                == "Object is not found"@ || text == "Access to the bucket is denied by S3"@ || text
                == "S3 request failed"@
        }),
        err matches S3ViewerError::S3(f) ==> {
            let (status, text, _) = fail_answer_for(err);
            &&& (status == NOT_FOUND_STATUS_CODE <==> (f.is_bucket_not_found
                || f.is_key_not_found))
            &&& forall|g: S3Failure|
                g.is_bucket_not_found == f.is_bucket_not_found && g.is_key_not_found
                    == f.is_key_not_found && g.status_code == f.status_code ==> {
                    let (status2, text2, _) = #[trigger] fail_answer_for(S3ViewerError::S3(g));
                    status2 == status && text2 == text
                }
        },
{
}

/// The error text an MCP tool call returns. Unlike the REST API, the caller
/// here is an agent that has to decide what to do next, so the S3 reason is
/// passed through.
pub open spec fn tool_error_message(err: S3ViewerError) -> Seq<char> {
    match err {
        S3ViewerError::BucketIsNotConfigured =>
            "Bucket is not configured. Call list_buckets to see the configured buckets"@,
        S3ViewerError::S3(f) => "S3 request failed: "@ + f.description@,
    }
}

impl From<S3ViewerError> for String {
    fn from(err: S3ViewerError) -> (r: String)
        ensures
            r@ == tool_error_message(err),
    {
        let mut r = String::new();
        match err {
            S3ViewerError::BucketIsNotConfigured => {
                push_str(
                    &mut r,
                    "Bucket is not configured. Call list_buckets to see the configured buckets",
                );
            },
            S3ViewerError::S3(f) => {
                push_str(&mut r, "S3 request failed: ");
                push_str(&mut r, f.description.as_str());
            },
        }
        r
    }
}

impl vstd::std_specs::convert::FromSpecImpl<S3ViewerError> for String {
    open spec fn obeys_from_spec() -> bool {
        false
    }

    open spec fn from_spec(v: S3ViewerError) -> String {
        vstd::pervasive::arbitrary()
    }
}

} // verus!
