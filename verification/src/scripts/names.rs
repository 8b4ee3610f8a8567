//! Display names of the entries of a listed level, and the folder marker.
use vstd::prelude::*;

use crate::text;
use crate::text::{str_eq, str_starts_with};

verus! {

/// Display name of a file: the key minus the listed prefix. A key that does
/// not start with the listed prefix can only come from a misbehaving server;
/// it is shown whole.
pub open spec fn file_name(listed_prefix: Seq<char>, key: Seq<char>) -> Seq<char> {
    if text::starts_with(key, listed_prefix) {
        key.subrange(listed_prefix.len() as int, key.len() as int)
    } else {
        key
    }
}

/// Display name of a sub-folder: the common prefix minus the listed prefix
/// minus one trailing `/`. A common prefix that does not start with the
/// listed prefix is shown whole rather than dropped.
pub open spec fn folder_name(listed_prefix: Seq<char>, common_prefix: Seq<char>) -> Seq<char> {
    let relative = file_name(listed_prefix, common_prefix);
    if relative.len() > 0 && relative.last() == '/' {
        relative.drop_last()
    } else {
        relative
    }
}

/// The zero-length object whose key equals the (non-empty) listed prefix,
/// made by consoles and tools to make an empty folder exist.
pub open spec fn folder_marker(listed_prefix: Seq<char>, key: Seq<char>, size: u64) -> bool {
    size == 0 && listed_prefix.len() > 0 && key == listed_prefix
}

/// The display name of a file, relative to the listed prefix.
pub fn get_file_name<'s>(listed_prefix: &str, key: &'s str) -> (r: &'s str)
    ensures
        r@ == file_name(listed_prefix@, key@),
{
    if str_starts_with(key, listed_prefix) {
        key.substring_char(listed_prefix.unicode_len(), key.unicode_len())
    } else {
        key
    }
}

/// The display name of a sub-folder, relative to the listed prefix.
pub fn get_folder_name<'s>(listed_prefix: &str, common_prefix: &'s str) -> (r: &'s str)
    ensures
        r@ == folder_name(listed_prefix@, common_prefix@),
{
    let relative = get_file_name(listed_prefix, common_prefix);
    let n = relative.unicode_len();
    if n > 0 && relative.get_char(n - 1) == '/' {
        relative.substring_char(0, n - 1)
    } else {
        relative
    }
}

/// Whether a listed object is the marker of the listed folder itself.
pub fn is_folder_marker(listed_prefix: &str, key: &str, size: u64) -> (r: bool)
    ensures
        r == folder_marker(listed_prefix@, key@, size),
{
    size == 0 && !listed_prefix.is_empty() && str_eq(key, listed_prefix)
}

/// A file listed under a prefix is shown by the rest of its key, and a
/// sub-folder by its segment without the trailing `/`.
pub proof fn lemma_names_under_the_prefix(listed_prefix: Seq<char>, name: Seq<char>)
    ensures
        file_name(listed_prefix, listed_prefix + name) == name,
        folder_name(listed_prefix, listed_prefix + name.push('/')) == name,
{
    assert((listed_prefix + name).subrange(0, listed_prefix.len() as int) =~= listed_prefix);
    assert((listed_prefix + name).subrange(
        listed_prefix.len() as int,
        (listed_prefix + name).len() as int,
    ) =~= name);
    let c = listed_prefix + name.push('/');
    assert(c.subrange(0, listed_prefix.len() as int) =~= listed_prefix);
    assert(c.subrange(listed_prefix.len() as int, c.len() as int) =~= name.push('/'));
    assert(name.push('/').drop_last() =~= name);
}

/// The root of a bucket has no folder marker, and a marker is never an
/// object with content.
pub proof fn lemma_folder_marker_needs_a_prefix(key: Seq<char>, size: u64, listed_prefix: Seq<
    char,
>)
    ensures
        !folder_marker(Seq::empty(), key, size),
        size > 0 ==> !folder_marker(listed_prefix, key, size),
{
}

} // verus!
