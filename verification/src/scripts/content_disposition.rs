//! `Content-Disposition` for downloading a key as an attachment named after
//! its last segment:
//!
//!   attachment; filename="<ASCII fallback>"; filename*=UTF-8''<RFC 5987 percent-encoded name>
//!
//! The key is user data, so nothing of it reaches the header unescaped: the
//! fallback keeps printable ASCII minus quotes, backslashes and `%`, and the
//! encoded form only ever holds RFC 5987 attr-chars and `%XX`.
use vstd::prelude::*;

use crate::text;
use crate::text::{chars_of, push_char, push_str, string_from, trim_range};

verus! {

/// Used when the key yields no usable file name at all.
pub const FALLBACK_FILE_NAME: &'static str = "download";

/// What follows the last `/` of `s`, or all of `s` when it has none
/// (the first item of `str::rsplit('/')`).
pub open spec fn last_segment(s: Seq<char>) -> Seq<char>
    decreases s.len(),
{
    if s.len() == 0 {
        s
    } else if s.last() == '/' {
        Seq::<char>::empty()
    } else {
        last_segment(s.drop_last()).push(s.last())
    }
}

/// The file name a key is downloaded as: its last non-empty segment, or
/// `download` when there is none.
pub open spec fn download_file_name(key: Seq<char>) -> Seq<char> {
    let name = last_segment(text::trim_end_char(key, '/'));
    if name.len() == 0 {
        FALLBACK_FILE_NAME@
    } else {
        name
    }
}

/// `char::is_control`: the general category Cc.
pub open spec fn is_control(c: char) -> bool {
    (c as u32) <= 0x1F || (0x7F <= (c as u32) <= 0x9F)
}

/// Characters the fallback drops: quotes, backslashes and control characters.
pub open spec fn dropped_from_fallback(c: char) -> bool {
    c == '"' || c == '\\' || is_control(c)
}

/// A kept character in the fallback: itself when it is ASCII other than `%`,
/// `_` otherwise.
pub open spec fn fallback_char(c: char) -> char {
    if (c as u32) < 0x80 && c != '%' {
        c
    } else {
        '_'
    }
}

/// The fallback characters of a file name, before the blank check.
pub open spec fn fallback_chars(name: Seq<char>) -> Seq<char> {
    name.filter(|c: char| !dropped_from_fallback(c)).map_values(|c: char| fallback_char(c))
}

/// The `filename` parameter: the fallback characters, or `download` when
/// they are blank.
pub open spec fn ascii_fallback(name: Seq<char>) -> Seq<char> {
    let f = fallback_chars(name);
    if text::trim(f).len() == 0 {
        FALLBACK_FILE_NAME@
    } else {
        f
    }
}

/// RFC 5987 attr-char: ALPHA / DIGIT / `!#$&+-.^_`|~`.
pub open spec fn is_attr_char(b: u8) -> bool {
    ||| 0x30 <= b <= 0x39
    ||| 0x41 <= b <= 0x5A
    ||| 0x61 <= b <= 0x7A
    ||| b == 0x21
    ||| b == 0x23
    ||| b == 0x24
    ||| b == 0x26
    ||| b == 0x2B
    ||| b == 0x2D
    ||| b == 0x2E
    ||| b == 0x5E
    ||| b == 0x5F
    ||| b == 0x60
    ||| b == 0x7C
    ||| b == 0x7E
}

/// The upper-case hexadecimal digit of `d < 16`.
pub open spec fn hex_digit(d: nat) -> char {
    if d < 10 {
        (('0' as u32) + d) as char
    } else {
        (('A' as u32) + (d - 10)) as char
    }
}

/// One byte percent-encoded: itself when it is an attr-char, `%XX` otherwise.
pub open spec fn encoded_byte(b: u8) -> Seq<char> {
    if is_attr_char(b) {
        seq![b as char]
    } else {
        seq!['%', hex_digit((b / 16) as nat), hex_digit((b % 16) as nat)]
    }
}

/// Bytes percent-encoded one by one, in order.
pub open spec fn percent_encoded(bytes: Seq<u8>) -> Seq<char>
    decreases bytes.len(),
{
    if bytes.len() == 0 {
        Seq::<char>::empty()
    } else {
        percent_encoded(bytes.drop_last()) + encoded_byte(bytes.last())
    }
}

/// The header value for downloading `key`.
pub open spec fn content_disposition(key: Seq<char>) -> Seq<char> {
    let name = download_file_name(key);
    "attachment; filename=\""@ + ascii_fallback(name) + "\"; filename*=UTF-8''"@ + percent_encoded(
        vstd::utf8::encode_utf8(name),
    )
}

proof fn lemma_last_segment_slash(s: Seq<char>, k: int, n: int)
    requires
        0 <= k < n <= s.len(),
        s[k] == '/',
        forall|j: int| k < j < n ==> s[j] != '/',
    ensures
        last_segment(s.subrange(0, n)) == s.subrange(k + 1, n),
    decreases n - k,
{
    if n - 1 == k {
        assert(s.subrange(k + 1, n) =~= Seq::<char>::empty());
    } else {
        lemma_last_segment_slash(s, k, n - 1);
        assert(s.subrange(0, n).drop_last() =~= s.subrange(0, n - 1));
        assert(s.subrange(k + 1, n) =~= s.subrange(k + 1, n - 1).push(s[n - 1]));
    }
}

proof fn lemma_last_segment_no_slash(s: Seq<char>, n: int)
    requires
        0 <= n <= s.len(),
        forall|j: int| 0 <= j < n ==> s[j] != '/',
    ensures
        last_segment(s.subrange(0, n)) == s.subrange(0, n),
    decreases n,
{
    if n > 0 {
        lemma_last_segment_no_slash(s, n - 1);
        assert(s.subrange(0, n).drop_last() =~= s.subrange(0, n - 1));
        assert(s.subrange(0, n) =~= s.subrange(0, n - 1).push(s[n - 1]));
    }
}

/// The file name a key is downloaded as.
pub fn get_download_file_name(key: &str) -> (r: &str)
    ensures
        r@ == download_file_name(key@),
{
    let cs = chars_of(key);
    let mut end = cs.len();
    assert(cs@.subrange(0, cs@.len() as int) =~= cs@);
    while end > 0 && cs[end - 1] == '/'
        invariant
            end <= cs@.len(),
            text::trim_end_char(cs@, '/') == text::trim_end_char(cs@.subrange(0, end as int), '/'),
        decreases end,
    {
        proof {
            text::lemma_trim_end_char_step(cs@, end as int, '/');
        }
        end = end - 1;
    }
    assert(text::trim_end_char(cs@.subrange(0, end as int), '/') == cs@.subrange(0, end as int));
    let mut start = end;
    while start > 0 && cs[start - 1] != '/'
        invariant
            start <= end <= cs@.len(),
            forall|j: int| start <= j < end ==> cs@[j] != '/',
        decreases start,
    {
        start = start - 1;
    }
    proof {
        if start > 0 {
            lemma_last_segment_slash(cs@, start - 1, end as int);
        } else {
            lemma_last_segment_no_slash(cs@, end as int);
            assert(cs@.subrange(0, end as int) =~= cs@.subrange(start as int, end as int));
        }
    }
    if start == end {
        FALLBACK_FILE_NAME
    } else {
        key.substring_char(start, end)
    }
}

/// `c` is a control character (`char::is_control`).
pub fn is_control_char(c: char) -> (r: bool)
    ensures
        r == is_control(c),
{
    let u = c as u32;
    u <= 0x1F || (0x7F <= u && u <= 0x9F)
}

/// The `filename` parameter for `file_name`: printable ASCII only.
pub fn to_ascii_fallback(file_name: &str) -> (r: String)
    ensures
        r@ == ascii_fallback(file_name@),
{
    let cs = chars_of(file_name);
    let mut out: Vec<char> = Vec::new();
    let mut i: usize = 0;
    let ghost keep = |c: char| !dropped_from_fallback(c);
    let ghost repl = |c: char| fallback_char(c);
    while i < cs.len()
        invariant
            cs@ == file_name@,
            i <= cs@.len(),
            keep == (|c: char| !dropped_from_fallback(c)),
            repl == (|c: char| fallback_char(c)),
            out@ == fallback_chars(cs@.take(i as int)),
        decreases cs@.len() - i,
    {
        let c = cs[i];
        proof {
            assert(cs@.take(i + 1) =~= cs@.take(i as int).push(c));
            cs@.take(i as int).lemma_filter_push(c, keep);
        }
        if c == '"' || c == '\\' || is_control_char(c) {
            assert(fallback_chars(cs@.take(i + 1)) =~= fallback_chars(cs@.take(i as int)));
        } else {
            let d = if (c as u32) < 0x80 && c != '%' {
                c
            } else {
                '_'
            };
            out.push(d);
            assert(fallback_chars(cs@.take(i + 1)) =~= fallback_chars(cs@.take(i as int)).push(
                fallback_char(c),
            ));
        }
        i = i + 1;
    }
    assert(cs@.take(cs@.len() as int) =~= cs@);
    let n = out.len();
    assert(out@.subrange(0, n as int) =~= out@);
    let (a, b) = trim_range(&out, 0, n);
    if a == b {
        String::from_str(FALLBACK_FILE_NAME)
    } else {
        string_from(&out, 0, n)
    }
}

/// `b` is an RFC 5987 attr-char.
pub fn is_rfc5987_attr_char(byte: u8) -> (r: bool)
    ensures
        r == is_attr_char(byte),
{
    (0x30 <= byte && byte <= 0x39) || (0x41 <= byte && byte <= 0x5A) || (0x61 <= byte && byte
        <= 0x7A) || byte == 0x21 || byte == 0x23 || byte == 0x24 || byte == 0x26 || byte == 0x2B
        || byte == 0x2D || byte == 0x2E || byte == 0x5E || byte == 0x5F || byte == 0x60 || byte
        == 0x7C || byte == 0x7E
}

/// The upper-case hexadecimal digit of `d`.
fn hex_digit_of(d: u8) -> (c: char)
    requires
        d < 16,
    ensures
        c == hex_digit(d as nat),
{
    match d {
        0 => '0',
        1 => '1',
        2 => '2',
        3 => '3',
        4 => '4',
        5 => '5',
        6 => '6',
        7 => '7',
        8 => '8',
        9 => '9',
        10 => 'A',
        11 => 'B',
        12 => 'C',
        13 => 'D',
        14 => 'E',
        _ => 'F',
    }
}

/// The character of an ASCII byte.
fn ascii_char(b: u8) -> (c: char)
    requires
        b < 0x80,
    ensures
        c == b as char,
{
    b as char
}

/// `value` as RFC 5987 `value-chars`: its UTF-8 bytes, attr-chars as they
/// are and every other byte as `%XX`.
pub fn percent_encode_rfc5987(value: &str) -> (r: String)
    ensures
        r@ == percent_encoded(vstd::utf8::encode_utf8(value@)),
{
    let bytes = value.as_bytes();
    let ghost bs = bytes@;
    let mut r = String::new();
    let mut i: usize = 0;
    assert(bs.take(0) =~= Seq::<u8>::empty());
    while i < bytes.len()
        invariant
            bs == bytes@,
            bs == vstd::utf8::encode_utf8(value@),
            i <= bs.len(),
            r@ == percent_encoded(bs.take(i as int)),
        decreases bs.len() - i,
    {
        let b = bytes[i];
        assert(bs.take(i + 1).drop_last() =~= bs.take(i as int));
        if is_rfc5987_attr_char(b) {
            push_char(&mut r, ascii_char(b));
        } else {
            push_char(&mut r, '%');
            push_char(&mut r, hex_digit_of(b / 16));
            push_char(&mut r, hex_digit_of(b % 16));
        }
        assert(r@ =~= percent_encoded(bs.take(i as int)) + encoded_byte(b));
        i = i + 1;
    }
    assert(bs.take(bs.len() as int) =~= bs);
    r
}

/// The `Content-Disposition` value for downloading `key`.
pub fn build_content_disposition(key: &str) -> (r: String)
    ensures
        r@ == content_disposition(key@),
{
    let file_name = get_download_file_name(key);
    let mut r = String::new();
    push_str(&mut r, "attachment; filename=\"");
    let fallback = to_ascii_fallback(file_name);
    push_str(&mut r, fallback.as_str());
    push_str(&mut r, "\"; filename*=UTF-8''");
    let encoded = percent_encode_rfc5987(file_name);
    push_str(&mut r, encoded.as_str());
    r
}

/// A character that may stand in a header value as it is: space or visible
/// ASCII.
pub open spec fn is_header_char(c: char) -> bool {
    0x20 <= (c as u32) <= 0x7E
}

/// Every character of `s` may stand in a header value as it is.
pub open spec fn is_header_text(s: Seq<char>) -> bool {
    forall|i: int| 0 <= i < s.len() ==> is_header_char(#[trigger] s[i])
}

/// A character of the quoted `filename`: header-safe, and none of the three
/// that could end the quoted string, escape, or be percent-decoded.
pub open spec fn is_quoted_fallback_char(c: char) -> bool {
    is_header_char(c) && c != '"' && c != '\\' && c != '%'
}

/// A character of `filename*`: an attr-char, `%` or an upper-case hex digit.
pub open spec fn is_encoded_char(c: char) -> bool {
    ||| ((c as u32) < 0x80 && is_attr_char(c as u32 as u8))
    ||| c == '%'
    ||| ('0' <= c <= '9')
    ||| ('A' <= c <= 'F')
}

proof fn lemma_header_text_concat(a: Seq<char>, b: Seq<char>)
    requires
        is_header_text(a),
        is_header_text(b),
    ensures
        is_header_text(a + b),
{
    assert forall|i: int| 0 <= i < (a + b).len() implies is_header_char(#[trigger] (a + b)[i]) by {
        if i < a.len() {
            assert((a + b)[i] == a[i]);
        } else {
            assert((a + b)[i] == b[i - a.len()]);
        }
    }
}

proof fn lemma_last_segment_has_no_slash(s: Seq<char>)
    ensures
        forall|i: int| 0 <= i < last_segment(s).len() ==> #[trigger] last_segment(s)[i] != '/',
    decreases s.len(),
{
    if s.len() > 0 && s.last() != '/' {
        let rest = last_segment(s.drop_last());
        lemma_last_segment_has_no_slash(s.drop_last());
        assert(last_segment(s) == rest.push(s.last()));
        assert forall|i: int| 0 <= i < rest.push(s.last()).len() implies #[trigger] rest.push(
            s.last(),
        )[i] != '/' by {
            if i < rest.len() {
                assert(rest.push(s.last())[i] == rest[i]);
            }
        }
    }
}

/// The name a key is downloaded as is never empty and never holds `/`.
pub proof fn lemma_download_file_name_is_one_segment(key: Seq<char>)
    ensures
        download_file_name(key).len() > 0,
        forall|i: int|
            0 <= i < download_file_name(key).len() ==> #[trigger] download_file_name(key)[i] != '/',
{
    reveal_strlit("download");
    lemma_last_segment_has_no_slash(text::trim_end_char(key, '/'));
}

proof fn lemma_fallback_chars_are_quotable(name: Seq<char>)
    ensures
        forall|i: int|
            0 <= i < fallback_chars(name).len() ==> is_quoted_fallback_char(
                #[trigger] fallback_chars(name)[i],
            ),
{
    let keep = |c: char| !dropped_from_fallback(c);
    let kept = name.filter(keep);
    assert forall|i: int| 0 <= i < fallback_chars(name).len() implies is_quoted_fallback_char(
        #[trigger] fallback_chars(name)[i],
    ) by {
        name.lemma_filter_pred(keep, i);
        assert(fallback_chars(name)[i] == fallback_char(kept[i]));
    }
}

proof fn lemma_encoded_byte_chars(b: u8)
    ensures
        forall|i: int| 0 <= i < encoded_byte(b).len() ==> is_encoded_char(#[trigger] encoded_byte(b)[i]),
        is_header_text(encoded_byte(b)),
{
    if is_attr_char(b) {
        let c = b as char;
        assert(c as u32 == b as u32);
        assert(c as u32 as u8 == b);
    } else {
        let hi = (b / 16) as nat;
        let lo = (b % 16) as nat;
        assert(hi < 16 && lo < 16);
        assert(hex_digit(hi) as u32 == if hi < 10 { 48 + hi as int } else { (55 + hi) as int });
        assert(hex_digit(lo) as u32 == if lo < 10 { 48 + lo as int } else { (55 + lo) as int });
    }
}

proof fn lemma_percent_encoded_chars(bytes: Seq<u8>)
    ensures
        forall|i: int|
            0 <= i < percent_encoded(bytes).len() ==> is_encoded_char(
                #[trigger] percent_encoded(bytes)[i],
            ),
        is_header_text(percent_encoded(bytes)),
    decreases bytes.len(),
{
    if bytes.len() > 0 {
        let a = percent_encoded(bytes.drop_last());
        let b = encoded_byte(bytes.last());
        lemma_percent_encoded_chars(bytes.drop_last());
        lemma_encoded_byte_chars(bytes.last());
        lemma_header_text_concat(a, b);
        assert forall|i: int| 0 <= i < (a + b).len() implies is_encoded_char(#[trigger] (a + b)[i]) by {
            if i < a.len() {
                assert((a + b)[i] == a[i]);
            } else {
                assert((a + b)[i] == b[i - a.len()]);
            }
        }
    }
}

/// The value of a hexadecimal digit, upper or lower case; 0 for any other
/// character.
pub open spec fn hex_value(c: char) -> nat {
    if '0' <= c <= '9' {
        ((c as u32) - 48) as nat
    } else if 'A' <= c <= 'F' {
        ((c as u32) - 55) as nat
    } else if 'a' <= c <= 'f' {
        ((c as u32) - 87) as nat
    } else {
        0
    }
}

/// Percent-decoding, read from the front: `%` followed by two characters is
/// the byte their hex digits give, any other character is the byte of its
/// code point.
pub open spec fn percent_decoded(s: Seq<char>) -> Seq<u8>
    decreases s.len(),
{
    if s.len() == 0 {
        Seq::<u8>::empty()
    } else if s[0] == '%' && s.len() >= 3 {
        seq![(16 * hex_value(s[1]) + hex_value(s[2])) as u8] + percent_decoded(s.skip(3))
    } else {
        seq![s[0] as u32 as u8] + percent_decoded(s.skip(1))
    }
}

proof fn lemma_percent_encoded_front(bytes: Seq<u8>)
    requires
        bytes.len() > 0,
    ensures
        percent_encoded(bytes) == encoded_byte(bytes[0]) + percent_encoded(bytes.drop_first()),
    decreases bytes.len(),
{
    if bytes.len() == 1 {
        assert(bytes.drop_last() =~= Seq::<u8>::empty());
        assert(bytes.drop_first() =~= Seq::<u8>::empty());
        assert(percent_encoded(bytes.drop_last()) == Seq::<char>::empty());
        assert(percent_encoded(bytes.drop_first()) == Seq::<char>::empty());
        assert(bytes.last() == bytes[0]);
        assert(Seq::<char>::empty() + encoded_byte(bytes[0]) =~= encoded_byte(bytes[0])
            + Seq::<char>::empty());
    } else {
        let d = bytes.drop_last();
        lemma_percent_encoded_front(d);
        assert(d.drop_first() =~= bytes.drop_first().drop_last());
        assert(bytes.drop_first().last() == bytes.last());
        assert(percent_encoded(bytes) =~= encoded_byte(bytes[0]) + percent_encoded(
            bytes.drop_first(),
        ));
    }
}

proof fn lemma_hex_digit_value(d: nat)
    requires
        d < 16,
    ensures
        hex_value(hex_digit(d)) == d,
{
    assert(hex_digit(d) as u32 == if d < 10 {
        48 + d as int
    } else {
        (55 + d) as int
    });
}

proof fn lemma_decode_encoded_byte(b: u8, rest: Seq<char>)
    ensures
        percent_decoded(encoded_byte(b) + rest) == seq![b] + percent_decoded(rest),
{
    let s = encoded_byte(b) + rest;
    if is_attr_char(b) {
        let c = b as char;
        assert(c as u32 == b as u32);
        assert(s[0] == c);
        assert(c != '%');
        assert(s.skip(1) =~= rest);
        assert(c as u32 as u8 == b);
    } else {
        let hi = (b / 16) as nat;
        let lo = (b % 16) as nat;
        lemma_hex_digit_value(hi);
        lemma_hex_digit_value(lo);
        assert(s[0] == '%' && s[1] == hex_digit(hi) && s[2] == hex_digit(lo));
        assert(s.skip(3) =~= rest);
        assert(16 * hi + lo == b as nat);
    }
}

/// Percent-decoding what `percent_encoded` gives returns the bytes it was
/// given: the `filename*` parameter carries the file name's UTF-8 bytes
/// exactly.
pub proof fn lemma_percent_decoding_restores_the_bytes(bytes: Seq<u8>)
    ensures
        percent_decoded(percent_encoded(bytes)) == bytes,
    decreases bytes.len(),
{
    if bytes.len() > 0 {
        lemma_percent_encoded_front(bytes);
        lemma_decode_encoded_byte(bytes[0], percent_encoded(bytes.drop_first()));
        lemma_percent_decoding_restores_the_bytes(bytes.drop_first());
        assert(seq![bytes[0]] + bytes.drop_first() =~= bytes);
    } else {
        assert(bytes =~= Seq::<u8>::empty());
    }
}

/// Percent-encoding is injective: two byte sequences with the same encoding
/// are the same, so two different file names never share a `filename*`.
pub proof fn lemma_percent_encoding_is_injective(a: Seq<u8>, b: Seq<u8>)
    requires
        percent_encoded(a) == percent_encoded(b),
    ensures
        a == b,
{
    lemma_percent_decoding_restores_the_bytes(a);
    lemma_percent_decoding_restores_the_bytes(b);
}

/// Nothing of a key reaches the `Content-Disposition` header unescaped: the
/// whole value is space and visible ASCII (no line break can end the header),
/// the quoted `filename` holds no `"`, `\` or `%`, and `filename*` holds only
/// attr-chars and `%XX`.
pub proof fn lemma_content_disposition_is_header_safe(key: Seq<char>)
    ensures
        is_header_text(content_disposition(key)),
        forall|i: int|
            0 <= i < ascii_fallback(download_file_name(key)).len() ==> is_quoted_fallback_char(
                #[trigger] ascii_fallback(download_file_name(key))[i],
            ),
        forall|i: int|
            0 <= i < percent_encoded(vstd::utf8::encode_utf8(download_file_name(key))).len()
                ==> is_encoded_char(
                #[trigger] percent_encoded(vstd::utf8::encode_utf8(download_file_name(key)))[i],
            ),
{
    reveal_strlit("download");
    reveal_strlit("attachment; filename=\"");
    reveal_strlit("\"; filename*=UTF-8''");
    let name = download_file_name(key);
    let fallback = ascii_fallback(name);
    let encoded = percent_encoded(vstd::utf8::encode_utf8(name));
    lemma_fallback_chars_are_quotable(name);
    assert(forall|i: int| 0 <= i < fallback.len() ==> is_quoted_fallback_char(#[trigger] fallback[i]));
    lemma_percent_encoded_chars(vstd::utf8::encode_utf8(name));
    let head = "attachment; filename=\""@;
    let middle = "\"; filename*=UTF-8''"@;
    assert(is_header_text(head));
    assert(is_header_text(middle));
    assert(is_header_text(fallback));
    lemma_header_text_concat(head, fallback);
    lemma_header_text_concat(head + fallback, middle);
    lemma_header_text_concat(head + fallback + middle, encoded);
}

} // verus!
