//! What one listing of a bucket level is made of, before it becomes a
//! response.
use vstd::prelude::*;

verus! {

/// The part of an S3 object listing entry the viewer uses.
pub struct ListedObject {
    pub key: String,
    pub size: u64,
    pub last_modified: String,
}

/// The contents of a [`ListedObject`].
pub struct ListedObjectView {
    pub key: Seq<char>,
    pub size: u64,
    pub last_modified: Seq<char>,
}

impl View for ListedObject {
    type V = ListedObjectView;

    open spec fn view(&self) -> ListedObjectView {
        ListedObjectView { key: self.key@, size: self.size, last_modified: self.last_modified@ }
    }
}

/// Everything S3 returned for one level (one prefix, delimiter `/`), all
/// pages concatenated.
pub struct ListedLevel {
    pub common_prefixes: Vec<String>,
    pub objects: Vec<ListedObject>,
    /// The listing stopped while S3 still had a continuation token: the page
    /// cap was reached, or S3 answered with the same token it was sent.
    pub is_truncated: bool,
}

/// The contents of a [`ListedLevel`].
pub struct LevelView {
    pub common_prefixes: Seq<Seq<char>>,
    pub objects: Seq<ListedObjectView>,
    pub is_truncated: bool,
}

impl View for ListedLevel {
    type V = LevelView;

    open spec fn view(&self) -> LevelView {
        LevelView {
            common_prefixes: self.common_prefixes@.map_values(|s: String| s@),
            objects: self.objects@.map_values(|o: ListedObject| o@),
            is_truncated: self.is_truncated,
        }
    }
}

/// A listed object together with the prefix it was listed under: the prefix
/// is what its display name is relative to.
pub struct LevelFile<'s> {
    pub listed_prefix: &'s str,
    pub object: ListedObject,
}

/// A common prefix S3 returned together with the prefix it was listed under.
pub struct LevelFolder<'s> {
    pub listed_prefix: &'s str,
    pub common_prefix: String,
}

/// What a running download is about: the log context when the S3 stream
/// breaks mid-way. Credentials are deliberately not part of it.
pub struct DownloadTarget {
    pub bucket: String,
    pub key: String,
}

} // verus!
