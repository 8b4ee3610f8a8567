//! Wire models of the REST API: route constants and the request and response
//! models, as plain data.
use vstd::prelude::*;

verus! {

pub const LIST_BUCKETS_ROUTE: &'static str = "/api/buckets/v1/list";

pub const LIST_OBJECTS_ROUTE: &'static str = "/api/objects/v1/list";

pub const DOWNLOAD_OBJECT_ROUTE: &'static str = "/api/objects/v1/download";

/// One bucket from the viewer settings. Credentials never leave the server.
#[derive(Clone, Debug, PartialEq)]
pub struct BucketHttpModel {
    pub name: String,
}

/// The root level of the tree: the buckets configured in the settings, in
/// settings order.
#[derive(Clone, Debug, PartialEq)]
pub struct ListBucketsResponse {
    pub buckets: Vec<BucketHttpModel>,
}

/// One level of a bucket: the folders (common prefixes) and files directly
/// under `prefix`, listed with delimiter `/`.
pub struct ListObjectsInputModel {
    pub bucket: String,
    pub prefix: Option<String>,
}

/// `prefix` is the full key prefix including the trailing `/`, `name` is its
/// last segment without the `/`, ready to display.
#[derive(Clone, Debug, PartialEq)]
pub struct FolderHttpModel {
    pub prefix: String,
    pub name: String,
}

/// `key` is the full object key, `name` is the part after the listed prefix.
/// `last_modified` is passed through from S3 as is (ISO-8601).
#[derive(Clone, Debug, PartialEq)]
pub struct FileHttpModel {
    pub key: String,
    pub name: String,
    pub size: u64,
    pub last_modified: String,
}

/// `is_truncated` is true when the server stopped paging before the end of
/// the level (a safety cap on huge folders).
#[derive(Clone, Debug, PartialEq)]
pub struct ListObjectsResponse {
    pub bucket: String,
    pub prefix: String,
    pub folders: Vec<FolderHttpModel>,
    pub files: Vec<FileHttpModel>,
    pub is_truncated: bool,
}

/// Streams one object back as an attachment.
pub struct DownloadObjectInputModel {
    pub bucket: String,
    pub key: String,
}

/// The contents of a [`FolderHttpModel`].
pub struct FolderView {
    pub prefix: Seq<char>,
    pub name: Seq<char>,
}

impl View for FolderHttpModel {
    type V = FolderView;

    open spec fn view(&self) -> FolderView {
        FolderView { prefix: self.prefix@, name: self.name@ }
    }
}

/// The contents of a [`FileHttpModel`].
pub struct FileView {
    pub key: Seq<char>,
    pub name: Seq<char>,
    pub size: u64,
    pub last_modified: Seq<char>,
}

impl View for FileHttpModel {
    type V = FileView;

    open spec fn view(&self) -> FileView {
        FileView {
            key: self.key@,
            name: self.name@,
            size: self.size,
            last_modified: self.last_modified@,
        }
    }
}

} // verus!
