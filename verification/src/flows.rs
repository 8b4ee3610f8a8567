//! What a request decides before it talks to S3: which configured bucket
//! it is about, and which level of it.
use vstd::prelude::*;

use crate::api::ListObjectsInputModel;
use crate::buckets::{first_named, S3Bucket, S3Buckets};
use crate::errors::S3ViewerError;
use crate::scripts::prefix::{normalize_prefix, normalized_prefix};

verus! {

/// The configured bucket a request names; `BucketIsNotConfigured` when the
/// settings have no bucket of that name.
pub fn configured_bucket<'a, C>(buckets: &'a S3Buckets<C>, name: &str) -> (r: Result<
    &'a S3Bucket<C>,
    S3ViewerError,
>)
    ensures
        match first_named(buckets@, name@) {
            Some(i) => r == Ok::<&S3Bucket<C>, S3ViewerError>(&buckets@[i]),
            None => r matches Err(S3ViewerError::BucketIsNotConfigured),
        },
{
    match buckets.get(name) {
        Some(bucket) => Ok(bucket),
        None => Err(S3ViewerError::BucketIsNotConfigured),
    }
}

/// The bucket and the normalized folder prefix a listing request is about.
pub fn list_objects_target<'a, C>(buckets: &'a S3Buckets<C>, input: ListObjectsInputModel) -> (r:
    Result<(&'a S3Bucket<C>, String), S3ViewerError>)
    ensures
        match first_named(buckets@, input.bucket@) {
            Some(i) => r matches Ok((b, p)) && b == &buckets@[i] && p@ == normalized_prefix(
                match input.prefix {
                    Some(s) => Some(s@),
                    None => None,
                },
            ),
            None => r matches Err(S3ViewerError::BucketIsNotConfigured),
        },
{
    let bucket = configured_bucket(buckets, input.bucket.as_str())?;
    let prefix = match &input.prefix {
        Some(p) => normalize_prefix(Some(p.as_str())),
        None => normalize_prefix(None),
    };
    Ok((bucket, prefix))
}

} // verus!
