//! The `Content-Type` a download is answered with.
use vstd::prelude::*;

use crate::text;
use crate::text::{chars_of, trim_range};

verus! {

pub const DEFAULT_CONTENT_TYPE: &'static str = "application/octet-stream";

/// A byte that may stand in a header value as the viewer writes it: tab or
/// visible ASCII (0x20 to 0x7E).
pub open spec fn is_visible_header_byte(b: u8) -> bool {
    b == 0x09 || (0x20 <= b <= 0x7E)
}

/// The `Content-Type` to answer a download with: the one S3 stored for the
/// object, trimmed, when it is non-empty and made of visible ASCII (and tab);
/// `application/octet-stream` otherwise.
pub open spec fn resolved_content_type(stored: Option<Seq<char>>) -> Seq<char> {
    match stored {
        None => DEFAULT_CONTENT_TYPE@,
        Some(t) => {
            let c = text::trim(t);
            let bytes = vstd::utf8::encode_utf8(c);
            if c.len() == 0 || !(forall|i: int|
                0 <= i < bytes.len() ==> is_visible_header_byte(#[trigger] bytes[i])) {
                DEFAULT_CONTENT_TYPE@
            } else {
                c
            }
        },
    }
}

/// Whatever the stored type, the answer is a non-empty header value whose
/// bytes are all tab or visible ASCII: a stored value with a line break can
/// not add a header of its own.
pub proof fn lemma_resolved_content_type_is_header_safe(stored: Option<Seq<char>>)
    ensures
        resolved_content_type(stored).len() > 0,
        forall|i: int|
            0 <= i < vstd::utf8::encode_utf8(resolved_content_type(stored)).len()
                ==> is_visible_header_byte(
                #[trigger] vstd::utf8::encode_utf8(resolved_content_type(stored))[i],
            ),
{
    reveal_strlit("application/octet-stream");
    let d = DEFAULT_CONTENT_TYPE@;
    assert(vstd::utf8::is_ascii_chars(d));
    vstd::utf8::is_ascii_chars_encode_utf8(d);
    assert forall|i: int| 0 <= i < vstd::utf8::encode_utf8(d).len() implies is_visible_header_byte(
        #[trigger] vstd::utf8::encode_utf8(d)[i],
    ) by {
        assert(d[i] as u8 == vstd::utf8::encode_utf8(d)[i]);
    }
}

/// The `Content-Type` to answer a download with.
pub fn resolve_content_type(s3_content_type: Option<&str>) -> (r: &str)
    ensures
        r@ == resolved_content_type(crate::text::option_str_view(s3_content_type)),
{
    let content_type = match s3_content_type {
        None => return DEFAULT_CONTENT_TYPE,
        Some(t) => t,
    };
    let cs = chars_of(content_type);
    let n = cs.len();
    assert(cs@.subrange(0, n as int) =~= cs@);
    let (a, b) = trim_range(&cs, 0, n);
    let trimmed = content_type.substring_char(a, b);
    if a == b {
        return DEFAULT_CONTENT_TYPE;
    }
    let bytes = trimmed.as_bytes();
    let mut i: usize = 0;
    while i < bytes.len()
        invariant
            bytes@ == vstd::utf8::encode_utf8(trimmed@),
            trimmed@ == text::trim(content_type@),
            trimmed@.len() > 0,
            s3_content_type == Some(content_type),
            i <= bytes@.len(),
            forall|j: int| 0 <= j < i ==> is_visible_header_byte(#[trigger] bytes@[j]),
        decreases bytes@.len() - i,
    {
        let byte = bytes[i];
        if !(byte == 0x09 || (0x20 <= byte && byte <= 0x7E)) {
            assert(!is_visible_header_byte(bytes@[i as int]));
            return DEFAULT_CONTENT_TYPE;
        }
        i = i + 1;
    }
    trimmed
}

} // verus!
