//! The models of the MCP tools. The tools answer with the same listing the
//! REST API serves, so the fields map one to one.
use vstd::prelude::*;

use crate::api::{
    BucketHttpModel, FileHttpModel, FileView, FolderHttpModel, FolderView, ListBucketsResponse,
    ListObjectsInputModel, ListObjectsResponse,
};
use crate::scripts::list_response::{file_views, folder_views};

verus! {

/// `list_buckets` takes no arguments.
pub struct ListBucketsInputData {}

/// The names of the configured buckets, in settings order.
pub struct ListBucketsMcpResponse {
    pub buckets: Vec<String>,
}

/// A bucket name, as returned by `list_buckets`, and the folder to list: a
/// key prefix ending with `/`; absent or empty for the bucket root.
pub struct ListObjectsInputData {
    pub bucket: String,
    pub prefix: Option<String>,
}

/// A sub-folder: its full prefix including the trailing `/`, and its last
/// segment without the `/`.
pub struct McpFolderModel {
    pub prefix: String,
    pub name: String,
}

/// A file: its full object key, its name relative to the listed folder, its
/// size in bytes and its last modification time as S3 reported it.
pub struct McpFileModel {
    pub object_key: String,
    pub name: String,
    pub size: u64,
    pub last_modified: String,
}

/// One listed level, as the `list_objects` tool answers it.
pub struct ListObjectsMcpResponse {
    pub bucket: String,
    pub prefix: String,
    pub folders: Vec<McpFolderModel>,
    pub files: Vec<McpFileModel>,
    pub is_truncated: bool,
}

impl View for McpFolderModel {
    type V = FolderView;

    open spec fn view(&self) -> FolderView {
        FolderView { prefix: self.prefix@, name: self.name@ }
    }
}

impl View for McpFileModel {
    type V = FileView;

    open spec fn view(&self) -> FileView {
        FileView {
            key: self.object_key@,
            name: self.name@,
            size: self.size,
            last_modified: self.last_modified@,
        }
    }
}

/// The contents of MCP folder entries, in order.
pub open spec fn mcp_folder_views(s: Seq<McpFolderModel>) -> Seq<FolderView> {
    s.map_values(|f: McpFolderModel| f@)
}

/// The contents of MCP file entries, in order.
pub open spec fn mcp_file_views(s: Seq<McpFileModel>) -> Seq<FileView> {
    s.map_values(|f: McpFileModel| f@)
}

impl From<FolderHttpModel> for McpFolderModel {
    fn from(src: FolderHttpModel) -> (r: McpFolderModel)
        ensures
            r@ == src@,
    {
        McpFolderModel { prefix: src.prefix, name: src.name }
    }
}

impl vstd::std_specs::convert::FromSpecImpl<FolderHttpModel> for McpFolderModel {
    open spec fn obeys_from_spec() -> bool {
        true
    }

    open spec fn from_spec(src: FolderHttpModel) -> McpFolderModel {
        McpFolderModel { prefix: src.prefix, name: src.name }
    }
}

impl From<FileHttpModel> for McpFileModel {
    fn from(src: FileHttpModel) -> (r: McpFileModel)
        ensures
            r@ == src@,
    {
        McpFileModel {
            object_key: src.key,
            name: src.name,
            size: src.size,
            last_modified: src.last_modified,
        }
    }
}

impl vstd::std_specs::convert::FromSpecImpl<FileHttpModel> for McpFileModel {
    open spec fn obeys_from_spec() -> bool {
        true
    }

    open spec fn from_spec(src: FileHttpModel) -> McpFileModel {
        McpFileModel {
            object_key: src.key,
            name: src.name,
            size: src.size,
            last_modified: src.last_modified,
        }
    }
}

impl From<ListBucketsResponse> for ListBucketsMcpResponse {
    fn from(src: ListBucketsResponse) -> (r: ListBucketsMcpResponse)
        ensures
            r.buckets@.map_values(|s: String| s@) == src.buckets@.map_values(
                |b: BucketHttpModel| b.name@,
            ),
    {
        let mut buckets: Vec<String> = Vec::new();
        let mut i: usize = 0;
        let src_buckets = src.buckets;
        while i < src_buckets.len()
            invariant
                i <= src_buckets@.len(),
                buckets@.len() == i,
                forall|k: int| 0 <= k < i ==> (#[trigger] buckets@[k])@ == src_buckets@[k].name@,
            decreases src_buckets@.len() - i,
        {
            buckets.push(src_buckets[i].name.clone());
            i = i + 1;
        }
        proof {
            assert(buckets@.map_values(|s: String| s@) =~= src_buckets@.map_values(
                |b: BucketHttpModel| b.name@,
            ));
        }
        ListBucketsMcpResponse { buckets }
    }
}

impl vstd::std_specs::convert::FromSpecImpl<ListBucketsResponse> for ListBucketsMcpResponse {
    open spec fn obeys_from_spec() -> bool {
        false
    }

    open spec fn from_spec(src: ListBucketsResponse) -> ListBucketsMcpResponse {
        vstd::pervasive::arbitrary()
    }
}

impl From<ListObjectsResponse> for ListObjectsMcpResponse {
    fn from(src: ListObjectsResponse) -> (r: ListObjectsMcpResponse)
        ensures
            r.bucket@ == src.bucket@,
            r.prefix@ == src.prefix@,
            mcp_folder_views(r.folders@) == folder_views(src.folders@),
            mcp_file_views(r.files@) == file_views(src.files@),
            r.is_truncated == src.is_truncated,
    {
        let ListObjectsResponse { bucket, prefix, folders: src_folders, files: src_files, is_truncated } =
            src;
        let mut folders: Vec<McpFolderModel> = Vec::new();
        for f in it: src_folders
            invariant
                folders@.len() == it.index(),
                it.seq() == src_folders@,
                forall|k: int| 0 <= k < it.index() ==> (#[trigger] folders@[k])@ == it.seq()[k]@,
        {
            folders.push(McpFolderModel::from(f));
        }
        let mut files: Vec<McpFileModel> = Vec::new();
        for f in it: src_files
            invariant
                files@.len() == it.index(),
                it.seq() == src_files@,
                forall|k: int| 0 <= k < it.index() ==> (#[trigger] files@[k])@ == it.seq()[k]@,
        {
            files.push(McpFileModel::from(f));
        }
        proof {
            assert(mcp_folder_views(folders@) =~= folder_views(src_folders@));
            assert(mcp_file_views(files@) =~= file_views(src_files@));
        }
        ListObjectsMcpResponse { bucket, prefix, folders, files, is_truncated }
    }
}

impl vstd::std_specs::convert::FromSpecImpl<ListObjectsResponse> for ListObjectsMcpResponse {
    open spec fn obeys_from_spec() -> bool {
        false
    }

    open spec fn from_spec(src: ListObjectsResponse) -> ListObjectsMcpResponse {
        vstd::pervasive::arbitrary()
    }
}

impl From<ListObjectsInputData> for ListObjectsInputModel {
    fn from(src: ListObjectsInputData) -> (r: ListObjectsInputModel)
        ensures
            r.bucket@ == src.bucket@,
            r.prefix == src.prefix,
    {
        ListObjectsInputModel { bucket: src.bucket, prefix: src.prefix }
    }
}

impl vstd::std_specs::convert::FromSpecImpl<ListObjectsInputData> for ListObjectsInputModel {
    open spec fn obeys_from_spec() -> bool {
        true
    }

    open spec fn from_spec(src: ListObjectsInputData) -> ListObjectsInputModel {
        ListObjectsInputModel { bucket: src.bucket, prefix: src.prefix }
    }
}

} // verus!
