//! The folder to list, as a key prefix.
use vstd::prelude::*;

use crate::text;
use crate::text::{option_str_view, push_char};

verus! {

/// The folder to list: empty for the bucket root, otherwise ending with `/`.
/// A prefix sent without the trailing `/` still means that folder: listing
/// `photos` with delimiter `/` would otherwise also match `photos-2024/` and
/// `photos.txt`.
pub open spec fn normalized_prefix(prefix: Option<Seq<char>>) -> Seq<char> {
    match prefix {
        None => Seq::<char>::empty(),
        Some(p) => if p.len() == 0 || p.last() == '/' {
            p
        } else {
            p.push('/')
        },
    }
}

/// The folder to list for a prefix as the client sent it.
pub fn normalize_prefix(prefix: Option<&str>) -> (r: String)
    ensures
        r@ == normalized_prefix(option_str_view(prefix)),
{
    let prefix = match prefix {
        None => return String::new(),
        Some(p) => p,
    };
    let n = prefix.unicode_len();
    if n == 0 || prefix.get_char(n - 1) == '/' {
        return String::from_str(prefix);
    }
    let mut r = String::from_str(prefix);
    push_char(&mut r, '/');
    r
}

/// A normalized prefix is the bucket root (empty) or ends with `/`, and
/// normalizing it again leaves it as it is.
pub proof fn lemma_normalized_prefix_is_a_folder(prefix: Option<Seq<char>>)
    ensures
        ({
            let n = normalized_prefix(prefix);
            &&& n.len() == 0 || n.last() == '/'
            &&& normalized_prefix(Some(n)) == n
        }),
{
}

/// A non-empty prefix keeps what the client sent: normalizing only ever
/// appends one `/`.
pub proof fn lemma_normalized_prefix_extends(p: Seq<char>)
    ensures
        text::starts_with(normalized_prefix(Some(p)), p),
        normalized_prefix(Some(p)).len() <= p.len() + 1,
{
    assert(normalized_prefix(Some(p)).subrange(0, p.len() as int) =~= p);
}

} // verus!
