//! The settings file as the viewer uses it.
use vstd::prelude::*;

verus! {

pub const DEFAULT_HTTP_PORT: u16 = 8000;

/// One root node of the tree. `name` is the S3 bucket name and the key the
/// UI addresses it by. No `Debug` on purpose: it carries credentials.
pub struct BucketSettingsModel {
    pub name: String,
    pub endpoint: String,
    pub region: String,
    pub access_key: String,
    pub secret_key: String,
}

/// The settings: the HTTP port (optional) and the buckets, in the order they
/// are shown.
pub struct SettingsModel {
    pub http_port: Option<u16>,
    pub buckets: Vec<BucketSettingsModel>,
}

/// The settings file with each bucket written as a connection string.
pub struct SettingsYamlModel {
    pub http_port: Option<u16>,
    pub buckets: Vec<String>,
}

impl SettingsModel {
    /// The port to listen on: the configured one, 8000 when absent.
    pub fn get_http_port(&self) -> (r: u16)
        ensures
            r == match self.http_port {
                Some(p) => p,
                None => DEFAULT_HTTP_PORT,
            },
    {
        match self.http_port {
            Some(p) => p,
            None => DEFAULT_HTTP_PORT,
        }
    }
}

} // verus!
