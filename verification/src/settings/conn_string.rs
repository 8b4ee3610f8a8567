//! One bucket of the tree, configured as a connection string of the shape
//!
//!   Endpoint=https://fsn1.your-objectstorage.com;Region=fsn1;AccessKey=...;SecretKey=...;Bucket=my-bucket
//!
//! Keys are case-sensitive. Only the first `=` of an entry separates, so a
//! base64 secret keeps its own `=`; a value can not contain `;`. `Debug=1`
//! traces every S3 request of that bucket.
use vstd::prelude::*;

use crate::text;
use crate::text::{option_string_view, chars_of, find_char, push_decimal, push_str, range_is, string_from, trim_range};

verus! {

pub const ENDPOINT_KEY: &'static str = "Endpoint";

pub const REGION_KEY: &'static str = "Region";

pub const ACCESS_KEY_KEY: &'static str = "AccessKey";

pub const SECRET_KEY_KEY: &'static str = "SecretKey";

pub const BUCKET_KEY: &'static str = "Bucket";

pub const DEBUG_KEY: &'static str = "Debug";

/// Longest unknown key name that is still echoed back in an error, in bytes.
/// Real key names are short words; anything longer, or not made of ASCII
/// letters, may be a piece of a secret.
pub const MAX_PRINTABLE_KEY_LEN: usize = 16;

/// A parsed connection string. No `Debug` on purpose: it carries credentials.
pub struct S3ConnString {
    pub endpoint: String,
    pub region: String,
    pub access_key: String,
    pub secret_key: String,
    pub bucket: String,
    pub debug: bool,
}

/// The contents of a parsed connection string.
pub struct ConnStringView {
    pub endpoint: Seq<char>,
    pub region: Seq<char>,
    pub access_key: Seq<char>,
    pub secret_key: Seq<char>,
    pub bucket: Seq<char>,
    pub debug: bool,
}

impl View for S3ConnString {
    type V = ConnStringView;

    open spec fn view(&self) -> ConnStringView {
        ConnStringView {
            endpoint: self.endpoint@,
            region: self.region@,
            access_key: self.access_key@,
            secret_key: self.secret_key@,
            bucket: self.bucket@,
            debug: self.debug,
        }
    }
}

/// Why a connection string was refused. It never carries a credential: the
/// connection string holds the secret key, and this error ends up in the
/// start-up message.
#[allow(inconsistent_fields)]
#[derive(Debug, Clone, PartialEq)]
pub enum S3ConnStringError {
    /// `entry` counts the `;`-separated entries from 1. The entry itself is
    /// not kept: an entry without `=` may well be a secret with the key name
    /// forgotten.
    NotKeyValue { entry: usize },
    /// `key` is kept only when it looks like a key name (a short ASCII
    /// word), so a fragment of a secret that contained `;` is never printed.
    UnknownKey { entry: usize, key: Option<String> },
    DuplicateKey { key: &'static str },
    MissingKey { key: &'static str },
    InvalidDebugValue { value: String },
}

/// The contents of an [`S3ConnStringError`].
#[allow(inconsistent_fields)]
pub enum ConnStringFailure {
    NotKeyValue { entry: nat },
    UnknownKey { entry: nat, key: Option<Seq<char>> },
    DuplicateKey { key: Seq<char> },
    MissingKey { key: Seq<char> },
    InvalidDebugValue { value: Seq<char> },
}

impl View for S3ConnStringError {
    type V = ConnStringFailure;

    open spec fn view(&self) -> ConnStringFailure {
        match self {
            S3ConnStringError::NotKeyValue { entry } => ConnStringFailure::NotKeyValue {
                entry: *entry as nat,
            },
            S3ConnStringError::UnknownKey { entry, key } => ConnStringFailure::UnknownKey {
                entry: *entry as nat,
                key: option_string_view(*key),
            },
            S3ConnStringError::DuplicateKey { key } => ConnStringFailure::DuplicateKey {
                key: key@,
            },
            S3ConnStringError::MissingKey { key } => ConnStringFailure::MissingKey { key: key@ },
            S3ConnStringError::InvalidDebugValue { value } => ConnStringFailure::InvalidDebugValue {
                value: value@,
            },
        }
    }
}

/// The keys met so far while reading a connection string.
pub struct ConnFields {
    pub endpoint: Option<Seq<char>>,
    pub region: Option<Seq<char>>,
    pub access_key: Option<Seq<char>>,
    pub secret_key: Option<Seq<char>>,
    pub bucket: Option<Seq<char>>,
    pub debug: Option<bool>,
}

/// No key met yet.
pub open spec fn no_fields() -> ConnFields {
    ConnFields {
        endpoint: None,
        region: None,
        access_key: None,
        secret_key: None,
        bucket: None,
        debug: None,
    }
}

/// The pieces of `s` between the separators `sep`, as `str::split` gives
/// them: `k` separators make `k + 1` pieces, empty ones included.
pub open spec fn split_on(s: Seq<char>, sep: char) -> Seq<Seq<char>>
    decreases s.len(),
{
    if s.len() == 0 {
        seq![Seq::<char>::empty()]
    } else {
        let rest = split_on(s.drop_last(), sep);
        if s.last() == sep {
            rest.push(Seq::<char>::empty())
        } else {
            rest.update(rest.len() - 1, rest.last().push(s.last()))
        }
    }
}

/// An ASCII upper-case letter.
pub open spec fn is_ascii_upper(c: char) -> bool {
    'A' <= c <= 'Z'
}

/// An ASCII letter.
pub open spec fn is_ascii_alpha(c: char) -> bool {
    ('A' <= c <= 'Z') || ('a' <= c <= 'z')
}

/// `char::to_ascii_lowercase`.
pub open spec fn ascii_lower_char(c: char) -> char {
    if is_ascii_upper(c) {
        ((c as u32) + 32) as char
    } else {
        c
    }
}

/// `str::to_ascii_lowercase`.
pub open spec fn ascii_lowercase(s: Seq<char>) -> Seq<char> {
    s.map_values(|c: char| ascii_lower_char(c))
}

/// The value of a `Debug=` entry: `1`, `true`, `yes`, `on` switch it on,
/// `0`, `false`, `no`, `off` off, in any ASCII case.
pub open spec fn debug_value(value: Seq<char>) -> Option<bool> {
    let l = ascii_lowercase(value);
    if l == "1"@ || l == "true"@ || l == "yes"@ || l == "on"@ {
        Some(true)
    } else if l == "0"@ || l == "false"@ || l == "no"@ || l == "off"@ {
        Some(false)
    } else {
        None
    }
}

/// An unknown key as it may be echoed in an error: only when it is a short
/// word of ASCII letters (at most `MAX_PRINTABLE_KEY_LEN` bytes of UTF-8).
pub open spec fn printable(key: Seq<char>) -> Option<Seq<char>> {
    if key.len() > 0 && vstd::utf8::encode_utf8(key).len() <= MAX_PRINTABLE_KEY_LEN && (forall|i: int|
        0 <= i < key.len() ==> is_ascii_alpha(#[trigger] key[i])) {
        Some(key)
    } else {
        None
    }
}

/// The key of a trimmed entry that holds `=`: what stands before the first
/// `=`, trimmed.
pub open spec fn entry_key(t: Seq<char>) -> Seq<char> {
    text::trim(t.subrange(0, text::first_index_of(t, '=')))
}

/// The value of a trimmed entry that holds `=`: what stands after the first
/// `=`, trimmed.
pub open spec fn entry_value(t: Seq<char>) -> Seq<char> {
    text::trim(t.subrange(text::first_index_of(t, '=') + 1, t.len() as int))
}

/// Reads the entry numbered `number` (from 1) into `f`.
pub open spec fn read_entry(f: ConnFields, number: nat, raw: Seq<char>) -> Result<
    ConnFields,
    ConnStringFailure,
> {
    let t = text::trim(raw);
    if t.len() == 0 {
        Ok(f)
    } else if !text::has_char(t, '=') {
        Err(ConnStringFailure::NotKeyValue { entry: number })
    } else {
        let key = entry_key(t);
        let value = entry_value(t);
        if key == ENDPOINT_KEY@ {
            if f.endpoint is Some {
                Err(ConnStringFailure::DuplicateKey { key: ENDPOINT_KEY@ })
            } else {
                Ok(ConnFields { endpoint: Some(value), ..f })
            }
        } else if key == REGION_KEY@ {
            if f.region is Some {
                Err(ConnStringFailure::DuplicateKey { key: REGION_KEY@ })
            } else {
                Ok(ConnFields { region: Some(value), ..f })
            }
        } else if key == ACCESS_KEY_KEY@ {
            if f.access_key is Some {
                Err(ConnStringFailure::DuplicateKey { key: ACCESS_KEY_KEY@ })
            } else {
                Ok(ConnFields { access_key: Some(value), ..f })
            }
        } else if key == SECRET_KEY_KEY@ {
            if f.secret_key is Some {
                Err(ConnStringFailure::DuplicateKey { key: SECRET_KEY_KEY@ })
            } else {
                Ok(ConnFields { secret_key: Some(value), ..f })
            }
        } else if key == BUCKET_KEY@ {
            if f.bucket is Some {
                Err(ConnStringFailure::DuplicateKey { key: BUCKET_KEY@ })
            } else {
                Ok(ConnFields { bucket: Some(value), ..f })
            }
        } else if key == DEBUG_KEY@ {
            if f.debug is Some {
                Err(ConnStringFailure::DuplicateKey { key: DEBUG_KEY@ })
            } else {
                match debug_value(value) {
                    Some(b) => Ok(ConnFields { debug: Some(b), ..f }),
                    None => Err(ConnStringFailure::InvalidDebugValue { value }),
                }
            }
        } else {
            Err(ConnStringFailure::UnknownKey { entry: number, key: printable(key) })
        }
    }
}

/// Reads the first `n` entries, stopping at the first refused one.
pub open spec fn read_entries(entries: Seq<Seq<char>>, n: nat) -> Result<
    ConnFields,
    ConnStringFailure,
>
    decreases n,
{
    if n == 0 {
        Ok(no_fields())
    } else {
        match read_entries(entries, (n - 1) as nat) {
            Ok(f) => read_entry(f, n, entries[n - 1]),
            Err(e) => Err(e),
        }
    }
}

/// A required key: present and not empty.
pub open spec fn required_value(v: Option<Seq<char>>, key: Seq<char>) -> Result<
    Seq<char>,
    ConnStringFailure,
> {
    match v {
        Some(s) => if s.len() > 0 {
            Ok(s)
        } else {
            Err(ConnStringFailure::MissingKey { key })
        },
        None => Err(ConnStringFailure::MissingKey { key }),
    }
}

/// The connection string described by all entries read, or the first
/// required key that is missing or empty (in the order Endpoint, Region,
/// AccessKey, SecretKey, Bucket).
pub open spec fn finish_fields(f: ConnFields) -> Result<ConnStringView, ConnStringFailure> {
    match required_value(f.endpoint, ENDPOINT_KEY@) {
        Err(e) => Err(e),
        Ok(endpoint) => match required_value(f.region, REGION_KEY@) {
            Err(e) => Err(e),
            Ok(region) => match required_value(f.access_key, ACCESS_KEY_KEY@) {
                Err(e) => Err(e),
                Ok(access_key) => match required_value(f.secret_key, SECRET_KEY_KEY@) {
                    Err(e) => Err(e),
                    Ok(secret_key) => match required_value(f.bucket, BUCKET_KEY@) {
                        Err(e) => Err(e),
                        Ok(bucket) => Ok(
                            ConnStringView {
                                endpoint,
                                region,
                                access_key,
                                secret_key,
                                bucket,
                                debug: match f.debug {
                                    Some(b) => b,
                                    None => false,
                                },
                            },
                        ),
                    },
                },
            },
        },
    }
}

/// What a connection string means: its `;`-separated entries read in order,
/// then the required keys checked.
pub open spec fn parse_conn_string(s: Seq<char>) -> Result<ConnStringView, ConnStringFailure> {
    let entries = split_on(s, ';');
    match read_entries(entries, entries.len()) {
        Ok(f) => finish_fields(f),
        Err(e) => Err(e),
    }
}


proof fn lemma_split_on_nonempty(s: Seq<char>, sep: char)
    ensures
        split_on(s, sep).len() >= 1,
    decreases s.len(),
{
    if s.len() > 0 {
        lemma_split_on_nonempty(s.drop_last(), sep);
    }
}

/// The bounds of the `;`-separated entries of `cs`.
fn entry_ranges(cs: &Vec<char>) -> (r: Vec<(usize, usize)>)
    ensures
        r@.len() == split_on(cs@, ';').len(),
        forall|k: int|
            0 <= k < r@.len() ==> (#[trigger] r@[k]).0 <= r@[k].1 <= cs@.len() && cs@.subrange(
                r@[k].0 as int,
                r@[k].1 as int,
            ) == split_on(cs@, ';')[k],
{
    let n = cs.len();
    let mut r: Vec<(usize, usize)> = Vec::new();
    let mut start: usize = 0;
    let mut i: usize = 0;
    while i < n
        invariant
            n == cs@.len(),
            start <= i <= n,
            r@.len() + 1 == split_on(cs@.subrange(0, i as int), ';').len(),
            forall|k: int|
                0 <= k < r@.len() ==> (#[trigger] r@[k]).0 <= r@[k].1 <= cs@.len()
                    && cs@.subrange(r@[k].0 as int, r@[k].1 as int) == split_on(
                    cs@.subrange(0, i as int),
                    ';',
                )[k],
            cs@.subrange(start as int, i as int) == split_on(cs@.subrange(0, i as int), ';').last(),
        decreases n - i,
    {
        let ghost before = cs@.subrange(0, i as int);
        let ghost pieces = split_on(before, ';');
        let ghost old_r = r@;
        proof {
            lemma_split_on_nonempty(before, ';');
            assert(cs@.subrange(0, i + 1).drop_last() =~= before);
            assert(cs@.subrange(0, i + 1).last() == cs@[i as int]);
        }
        let ghost after = split_on(cs@.subrange(0, i + 1), ';');
        if cs[i] == ';' {
            r.push((start, i));
            start = i + 1;
            assert(after == pieces.push(Seq::<char>::empty()));
            assert(cs@.subrange(start as int, i + 1) =~= Seq::<char>::empty());
            assert forall|k: int| 0 <= k < r@.len() implies (#[trigger] r@[k]).0 <= r@[k].1
                <= cs@.len() && cs@.subrange(r@[k].0 as int, r@[k].1 as int) == after[k] by {
                if k < old_r.len() {
                    assert(r@[k] == old_r[k]);
                }
            }
        } else {
            assert(after == pieces.update(pieces.len() - 1, pieces.last().push(cs@[i as int])));
            assert(cs@.subrange(start as int, i + 1) =~= cs@.subrange(start as int, i as int).push(
                cs@[i as int],
            ));
            assert forall|k: int| 0 <= k < r@.len() implies (#[trigger] r@[k]).0 <= r@[k].1
                <= cs@.len() && cs@.subrange(r@[k].0 as int, r@[k].1 as int) == after[k] by {
                assert(after[k] == pieces[k]);
            }
        }
        i = i + 1;
    }
    assert(cs@.subrange(0, n as int) =~= cs@);
    proof {
        lemma_split_on_nonempty(cs@, ';');
    }
    let ghost old_r = r@;
    r.push((start, n));
    assert forall|k: int| 0 <= k < r@.len() implies (#[trigger] r@[k]).0 <= r@[k].1 <= cs@.len()
        && cs@.subrange(r@[k].0 as int, r@[k].1 as int) == split_on(cs@, ';')[k] by {
        if k < old_r.len() {
            assert(r@[k] == old_r[k]);
        }
    }
    r
}

/// Fills an empty slot with `value`; a filled slot means the key was given
/// twice.
pub fn set_once(slot: &mut Option<String>, key: &'static str, value: &str) -> (r: Result<
    (),
    S3ConnStringError,
>)
    ensures
        *old(slot) is Some ==> (r matches Err(e) && e@ == (ConnStringFailure::DuplicateKey {
            key: key@,
        })) && *final(slot) == *old(slot),
        *old(slot) is None ==> r is Ok && option_string_view(*final(slot)) == Some(value@),
{
    if slot.is_some() {
        return Err(S3ConnStringError::DuplicateKey { key });
    }
    *slot = Some(String::from_str(value));
    Ok(())
}

/// A required key's value: present and not empty.
pub fn required(value: Option<String>, key: &'static str) -> (r: Result<String, S3ConnStringError>)
    ensures
        match r {
            Ok(v) => required_value(option_string_view(value), key@) == Ok::<
                Seq<char>,
                ConnStringFailure,
            >(v@),
            Err(e) => required_value(option_string_view(value), key@) == Err::<
                Seq<char>,
                ConnStringFailure,
            >(e@),
        },
{
    match value {
        Some(v) => {
            if v.as_str().unicode_len() > 0 {
                Ok(v)
            } else {
                Err(S3ConnStringError::MissingKey { key })
            }
        },
        None => Err(S3ConnStringError::MissingKey { key }),
    }
}

/// `c.to_ascii_lowercase()`.
pub fn ascii_lower(c: char) -> (r: char)
    ensures
        r == ascii_lower_char(c),
{
    if 'A' <= c && c <= 'Z' {
        let u = (c as u32) + 32;
        proof {
            assert(u == ('a' as u32) + ((c as u32) - ('A' as u32)));
        }
        lower_of_upper(c)
    } else {
        c
    }
}

fn lower_of_upper(c: char) -> (r: char)
    requires
        'A' <= c <= 'Z',
    ensures
        r == ((c as u32) + 32) as char,
{
    let u: u32 = (c as u32) + 32;
    proof {
        vstd::utf8::char_u32_cast(c, c as u32);
    }
    match char_of_ascii(u) {
        Some(l) => l,
        None => c,
    }
}

/// `char::from_u32` for the ASCII range.
fn char_of_ascii(u: u32) -> (r: Option<char>)
    ensures
        u < 128 ==> r == Some(u as char),
{
    if u < 128 {
        let b: u8 = u as u8;
        Some(b as char)
    } else {
        None
    }
}

/// Reads a `Debug=` value.
pub fn parse_bool(value: &str) -> (r: Result<bool, S3ConnStringError>)
    ensures
        match r {
            Ok(b) => debug_value(value@) == Some(b),
            Err(e) => debug_value(value@) is None && e@ == (ConnStringFailure::InvalidDebugValue {
                value: value@,
            }),
        },
{
    let cs = chars_of(value);
    let mut lower: Vec<char> = Vec::new();
    let mut i: usize = 0;
    while i < cs.len()
        invariant
            cs@ == value@,
            i <= cs@.len(),
            lower@ == ascii_lowercase(cs@.subrange(0, i as int)),
        decreases cs@.len() - i,
    {
        lower.push(ascii_lower(cs[i]));
        assert(ascii_lowercase(cs@.subrange(0, i + 1)) =~= ascii_lowercase(
            cs@.subrange(0, i as int),
        ).push(ascii_lower_char(cs@[i as int])));
        i = i + 1;
    }
    assert(cs@.subrange(0, cs@.len() as int) =~= cs@);
    let n = lower.len();
    assert(lower@.subrange(0, n as int) =~= lower@);
    if range_is(&lower, 0, n, "1") || range_is(&lower, 0, n, "true") || range_is(&lower, 0, n, "yes")
        || range_is(&lower, 0, n, "on") {
        Ok(true)
    } else if range_is(&lower, 0, n, "0") || range_is(&lower, 0, n, "false") || range_is(
        &lower,
        0,
        n,
        "no",
    ) || range_is(&lower, 0, n, "off") {
        Ok(false)
    } else {
        Err(S3ConnStringError::InvalidDebugValue { value: String::from_str(value) })
    }
}

/// An unknown key, kept only when it looks like a key name.
pub fn printable_key(key: &str) -> (r: Option<String>)
    ensures
        option_string_view(r) == printable(key@),
{
    let n = key.unicode_len();
    let mut i: usize = 0;
    while i < n
        invariant
            n == key@.len(),
            i <= n,
            forall|j: int| 0 <= j < i ==> is_ascii_alpha(#[trigger] key@[j]),
        decreases n - i,
    {
        let c = key.get_char(i);
        if !(('A' <= c && c <= 'Z') || ('a' <= c && c <= 'z')) {
            return None;
        }
        i = i + 1;
    }
    proof {
        assert(vstd::utf8::is_ascii_chars(key@)) by {
            assert forall|j: int| 0 <= j < key@.len() implies '\0' <= #[trigger] key@[j] <= '\u{7f}' by {
                assert(is_ascii_alpha(key@[j]));
            }
        }
        vstd::utf8::is_ascii_chars_encode_utf8(key@);
    }
    if n == 0 || n > MAX_PRINTABLE_KEY_LEN {
        return None;
    }
    Some(String::from_str(key))
}

proof fn lemma_first_index_of(s: Seq<char>, c: char, k: int)
    requires
        0 <= k < s.len(),
        s[k] == c,
        forall|j: int| 0 <= j < k ==> s[j] != c,
    ensures
        text::first_index_of(s, c) == k,
        text::has_char(s, c),
    decreases k,
{
    if k > 0 {
        lemma_first_index_of(s.drop_first(), c, k - 1);
    }
}

proof fn lemma_read_entries_stays_refused(entries: Seq<Seq<char>>, k: nat, n: nat)
    requires
        k <= n,
        read_entries(entries, k) is Err,
    ensures
        read_entries(entries, n) == read_entries(entries, k),
    decreases n - k,
{
    if k < n {
        lemma_read_entries_stays_refused(entries, k, (n - 1) as nat);
    }
}

/// The keys met so far, from the slots the parser fills.
pub open spec fn fields_of(
    endpoint: Option<String>,
    region: Option<String>,
    access_key: Option<String>,
    secret_key: Option<String>,
    bucket: Option<String>,
    debug: Option<bool>,
) -> ConnFields {
    ConnFields {
        endpoint: option_string_view(endpoint),
        region: option_string_view(region),
        access_key: option_string_view(access_key),
        secret_key: option_string_view(secret_key),
        bucket: option_string_view(bucket),
        debug,
    }
}

impl S3ConnString {
    /// Parses a connection string; the contract is `parse_conn_string`.
    pub fn parse(conn_string: &str) -> (r: Result<Self, S3ConnStringError>)
        ensures
            match r {
                Ok(c) => parse_conn_string(conn_string@) == Ok::<
                    ConnStringView,
                    ConnStringFailure,
                >(c@),
                Err(e) => parse_conn_string(conn_string@) == Err::<
                    ConnStringView,
                    ConnStringFailure,
                >(e@),
            },
    {
        let cs = chars_of(conn_string);
        let ranges = entry_ranges(&cs);
        let ghost entries = split_on(cs@, ';');
        let mut endpoint: Option<String> = None;
        let mut region: Option<String> = None;
        let mut access_key: Option<String> = None;
        let mut secret_key: Option<String> = None;
        let mut bucket: Option<String> = None;
        let mut debug: Option<bool> = None;
        let mut k: usize = 0;
        while k < ranges.len()
            invariant
                cs@ == conn_string@,
                entries == split_on(cs@, ';'),
                ranges@.len() == entries.len(),
                forall|j: int|
                    0 <= j < ranges@.len() ==> (#[trigger] ranges@[j]).0 <= ranges@[j].1
                        <= cs@.len() && cs@.subrange(ranges@[j].0 as int, ranges@[j].1 as int)
                        == split_on(cs@, ';')[j],
                k <= ranges@.len(),
                read_entries(entries, k as nat) == Ok::<ConnFields, ConnStringFailure>(
                    fields_of(endpoint, region, access_key, secret_key, bucket, debug),
                ),
            decreases ranges@.len() - k,
        {
            let (lo, hi) = ranges[k];
            let ghost f = fields_of(endpoint, region, access_key, secret_key, bucket, debug);
            let ghost raw = entries[k as int];
            let number: usize = k + 1;
            assert(read_entries(entries, (k + 1) as nat) == read_entry(f, (k + 1) as nat, raw));
            let (a, b) = trim_range(&cs, lo, hi);
            if a == b {
                k = k + 1;
                continue;
            }
            let ghost t = cs@.subrange(a as int, b as int);
            let eq = find_char(&cs, a, b, '=');
            let p = match eq {
                None => {
                    assert(!text::has_char(t, '='));
                    proof {
                        lemma_read_entries_stays_refused(entries, (k + 1) as nat, entries.len());
                    }
                    return Err(S3ConnStringError::NotKeyValue { entry: number });
                },
                Some(p) => p,
            };
            proof {
                lemma_first_index_of(t, '=', p - a);
                assert(t.subrange(0, p - a) =~= cs@.subrange(a as int, p as int));
                assert(t.subrange(p - a + 1, t.len() as int) =~= cs@.subrange(p + 1, b as int));
            }
            let (ka, kb) = trim_range(&cs, a, p);
            let (va, vb) = trim_range(&cs, p + 1, b);
            let ghost key = cs@.subrange(ka as int, kb as int);
            let value = string_from(&cs, va, vb);
            assert(key == entry_key(t));
            assert(value@ == entry_value(t));
            let res: Result<(), S3ConnStringError>;
            if range_is(&cs, ka, kb, ENDPOINT_KEY) {
                res = set_once(&mut endpoint, ENDPOINT_KEY, value.as_str());
            } else if range_is(&cs, ka, kb, REGION_KEY) {
                res = set_once(&mut region, REGION_KEY, value.as_str());
            } else if range_is(&cs, ka, kb, ACCESS_KEY_KEY) {
                res = set_once(&mut access_key, ACCESS_KEY_KEY, value.as_str());
            } else if range_is(&cs, ka, kb, SECRET_KEY_KEY) {
                res = set_once(&mut secret_key, SECRET_KEY_KEY, value.as_str());
            } else if range_is(&cs, ka, kb, BUCKET_KEY) {
                res = set_once(&mut bucket, BUCKET_KEY, value.as_str());
            } else if range_is(&cs, ka, kb, DEBUG_KEY) {
                if debug.is_some() {
                    res = Err(S3ConnStringError::DuplicateKey { key: DEBUG_KEY });
                } else {
                    match parse_bool(value.as_str()) {
                        Ok(b) => {
                            debug = Some(b);
                            res = Ok(());
                        },
                        Err(e) => {
                            res = Err(e);
                        },
                    }
                }
            } else {
                let key_text = string_from(&cs, ka, kb);
                res = Err(
                    S3ConnStringError::UnknownKey {
                        entry: number,
                        key: printable_key(key_text.as_str()),
                    },
                );
            }
            match res {
                Ok(()) => {},
                Err(e) => {
                    proof {
                        lemma_read_entries_stays_refused(entries, (k + 1) as nat, entries.len());
                    }
                    return Err(e);
                },
            }
            k = k + 1;
        }
        let endpoint = match required(endpoint, ENDPOINT_KEY) {
            Ok(v) => v,
            Err(e) => return Err(e),
        };
        let region = match required(region, REGION_KEY) {
            Ok(v) => v,
            Err(e) => return Err(e),
        };
        let access_key = match required(access_key, ACCESS_KEY_KEY) {
            Ok(v) => v,
            Err(e) => return Err(e),
        };
        let secret_key = match required(secret_key, SECRET_KEY_KEY) {
            Ok(v) => v,
            Err(e) => return Err(e),
        };
        let bucket = match required(bucket, BUCKET_KEY) {
            Ok(v) => v,
            Err(e) => return Err(e),
        };
        let debug = match debug {
            Some(b) => b,
            None => false,
        };
        Ok(S3ConnString { endpoint, region, access_key, secret_key, bucket, debug })
    }
}


/// One of the key names of the format.
pub open spec fn is_key_name(k: Seq<char>) -> bool {
    ||| k == ENDPOINT_KEY@
    ||| k == REGION_KEY@
    ||| k == ACCESS_KEY_KEY@
    ||| k == SECRET_KEY_KEY@
    ||| k == BUCKET_KEY@
    ||| k == DEBUG_KEY@
}

/// What a refusal may show of the entries it read: entry numbers, key names
/// of the format, an unknown key that is a short ASCII word, and the value
/// of a `Debug` entry.
pub open spec fn shows_no_secret(f: ConnStringFailure, entries: Seq<Seq<char>>, n: nat) -> bool {
    match f {
        ConnStringFailure::NotKeyValue { .. } => true,
        ConnStringFailure::UnknownKey { key, .. } => match key {
            Some(k) => k.len() > 0 && vstd::utf8::encode_utf8(k).len() <= MAX_PRINTABLE_KEY_LEN
                && forall|i: int| 0 <= i < k.len() ==> is_ascii_alpha(#[trigger] k[i]),
            None => true,
        },
        ConnStringFailure::DuplicateKey { key } => is_key_name(key),
        ConnStringFailure::MissingKey { key } => is_key_name(key),
        ConnStringFailure::InvalidDebugValue { value } => exists|i: int|
            0 <= i < n && entry_key(text::trim(#[trigger] entries[i])) == DEBUG_KEY@ && entry_value(
                text::trim(entries[i]),
            ) == value,
    }
}

proof fn lemma_read_entries_show_no_secret(entries: Seq<Seq<char>>, n: nat)
    requires
        n <= entries.len(),
    ensures
        read_entries(entries, n) matches Err(f) ==> shows_no_secret(f, entries, n),
    decreases n,
{
    reveal_strlit("Endpoint");
    reveal_strlit("Region");
    reveal_strlit("AccessKey");
    reveal_strlit("SecretKey");
    reveal_strlit("Bucket");
    reveal_strlit("Debug");
    if n > 0 {
        lemma_read_entries_show_no_secret(entries, (n - 1) as nat);
        match read_entries(entries, (n - 1) as nat) {
            Err(f) => {
                if let ConnStringFailure::InvalidDebugValue { value } = f {
                    let i = choose|i: int|
                        0 <= i < n - 1 && entry_key(text::trim(#[trigger] entries[i])) == DEBUG_KEY@
                            && entry_value(text::trim(entries[i])) == value;
                    assert(0 <= i < n && entry_key(text::trim(entries[i])) == DEBUG_KEY@);
                }
            },
            Ok(_) => {
                let t = text::trim(entries[n - 1]);
                if let Err(ConnStringFailure::InvalidDebugValue { value }) = read_entries(entries, n) {
                    assert(entry_key(t) == DEBUG_KEY@ && entry_value(t) == value);
                }
            },
        }
    }
}

/// A refused connection string never has a credential echoed back: the
/// refusal shows at most an entry number, a key name of the format, an
/// unknown key that is a short word of ASCII letters, or the value given for
/// `Debug`.
pub proof fn lemma_refusal_shows_no_secret(s: Seq<char>)
    ensures
        parse_conn_string(s) matches Err(f) ==> shows_no_secret(
            f,
            split_on(s, ';'),
            split_on(s, ';').len(),
        ),
{
    reveal_strlit("Endpoint");
    reveal_strlit("Region");
    reveal_strlit("AccessKey");
    reveal_strlit("SecretKey");
    reveal_strlit("Bucket");
    let entries = split_on(s, ';');
    lemma_read_entries_show_no_secret(entries, entries.len());
}

/// A value as a connection string can carry it unchanged: not empty, no
/// `;`, and no white space at either end.
pub open spec fn is_plain_value(v: Seq<char>) -> bool {
    &&& v.len() > 0
    &&& !text::has_char(v, ';')
    &&& !text::is_white_space(v[0])
    &&& !text::is_white_space(v.last())
}

/// The entry `key=value`.
pub open spec fn entry_of(key: Seq<char>, value: Seq<char>) -> Seq<char> {
    key + "="@ + value
}

/// The connection string of the five required keys, in the order the format
/// shows them, without `Debug`.
pub open spec fn conn_string_of(
    endpoint: Seq<char>,
    region: Seq<char>,
    access_key: Seq<char>,
    secret_key: Seq<char>,
    bucket: Seq<char>,
) -> Seq<char> {
    entry_of(ENDPOINT_KEY@, endpoint) + ";"@ + entry_of(REGION_KEY@, region) + ";"@ + entry_of(
        ACCESS_KEY_KEY@,
        access_key,
    ) + ";"@ + entry_of(SECRET_KEY_KEY@, secret_key) + ";"@ + entry_of(BUCKET_KEY@, bucket)
}

proof fn lemma_split_on_without_sep(y: Seq<char>, sep: char)
    requires
        !text::has_char(y, sep),
    ensures
        split_on(y, sep) == seq![y],
    decreases y.len(),
{
    if y.len() > 0 {
        let d = y.drop_last();
        assert(!text::has_char(d, sep)) by {
            if text::has_char(d, sep) {
                let i = choose|i: int| 0 <= i < d.len() && d[i] == sep;
                assert(y[i] == sep);
            }
        }
        lemma_split_on_without_sep(d, sep);
        assert(y.last() != sep);
        assert(d.push(y.last()) =~= y);
        assert(seq![d].update(0, d.push(y.last())) =~= seq![y]);
    } else {
        assert(y =~= Seq::<char>::empty());
    }
}

proof fn lemma_split_on_append(x: Seq<char>, y: Seq<char>, sep: char)
    requires
        !text::has_char(y, sep),
    ensures
        split_on(x + seq![sep] + y, sep) == split_on(x, sep).push(y),
    decreases y.len(),
{
    let s = x + seq![sep] + y;
    if y.len() == 0 {
        assert(s.drop_last() =~= x);
        assert(y =~= Seq::<char>::empty());
    } else {
        let d = y.drop_last();
        assert(!text::has_char(d, sep)) by {
            if text::has_char(d, sep) {
                let i = choose|i: int| 0 <= i < d.len() && d[i] == sep;
                assert(y[i] == sep);
            }
        }
        lemma_split_on_append(x, d, sep);
        assert(s.drop_last() =~= x + seq![sep] + d);
        assert(s.last() == y.last());
        assert(y.last() != sep);
        assert(d.push(y.last()) =~= y);
        let rest = split_on(x, sep).push(d);
        assert(rest.update(rest.len() - 1, rest.last().push(s.last())) =~= split_on(x, sep).push(y));
    }
}

proof fn lemma_plain_entry(key: Seq<char>, value: Seq<char>)
    requires
        key.len() > 0,
        !text::is_white_space(key[0]),
        !text::is_white_space(key.last()),
        !text::has_char(key, '='),
        !text::has_char(key, ';'),
        is_plain_value(value),
    ensures
        text::trim(entry_of(key, value)) == entry_of(key, value),
        text::has_char(entry_of(key, value), '='),
        entry_key(entry_of(key, value)) == key,
        entry_value(entry_of(key, value)) == value,
        !text::has_char(entry_of(key, value), ';'),
{
    reveal_strlit("=");
    let t = entry_of(key, value);
    let k = key.len() as int;
    assert(t[0] == key[0]);
    assert(t.last() == value.last());
    assert(text::trim_start(t) == t);
    assert(text::trim_end(t) == t);
    assert(t[k] == '=');
    assert forall|j: int| 0 <= j < k implies t[j] != '=' by {
        assert(t[j] == key[j]);
    }
    lemma_first_index_of(t, '=', k);
    assert(t.subrange(0, k) =~= key);
    assert(t.subrange(k + 1, t.len() as int) =~= value);
    assert(text::trim_start(key) == key);
    assert(text::trim_end(key) == key);
    assert(text::trim_start(value) == value);
    assert(text::trim_end(value) == value);
    assert(!text::has_char(t, ';')) by {
        if text::has_char(t, ';') {
            let i = choose|i: int| 0 <= i < t.len() && t[i] == ';';
            if i < k {
                assert(key[i] == ';');
            } else if i > k {
                assert(value[i - k - 1] == ';');
            }
        }
    }
}

proof fn lemma_key_name_is_plain(key: Seq<char>)
    requires
        key == ENDPOINT_KEY@ || key == REGION_KEY@ || key == ACCESS_KEY_KEY@ || key
            == SECRET_KEY_KEY@ || key == BUCKET_KEY@,
    ensures
        key.len() > 0,
        !text::is_white_space(key[0]),
        !text::is_white_space(key.last()),
        !text::has_char(key, '='),
        !text::has_char(key, ';'),
{
    reveal_strlit("Endpoint");
    reveal_strlit("Region");
    reveal_strlit("AccessKey");
    reveal_strlit("SecretKey");
    reveal_strlit("Bucket");
}

/// A connection string written in the documented shape, with values that
/// need no trimming and hold no `;`, parses back into exactly those values,
/// with `Debug` off. A value may hold `=`: only the first `=` of an entry
/// separates.
pub proof fn lemma_documented_shape_parses(
    endpoint: Seq<char>,
    region: Seq<char>,
    access_key: Seq<char>,
    secret_key: Seq<char>,
    bucket: Seq<char>,
)
    requires
        is_plain_value(endpoint),
        is_plain_value(region),
        is_plain_value(access_key),
        is_plain_value(secret_key),
        is_plain_value(bucket),
    ensures
        parse_conn_string(conn_string_of(endpoint, region, access_key, secret_key, bucket)) == Ok::<
            ConnStringView,
            ConnStringFailure,
        >(ConnStringView { endpoint, region, access_key, secret_key, bucket, debug: false }),
{
    reveal_strlit(";");
    reveal_strlit("Endpoint");
    reveal_strlit("Region");
    reveal_strlit("AccessKey");
    reveal_strlit("SecretKey");
    reveal_strlit("Bucket");
    reveal_strlit("Debug");
    let e1 = entry_of(ENDPOINT_KEY@, endpoint);
    let e2 = entry_of(REGION_KEY@, region);
    let e3 = entry_of(ACCESS_KEY_KEY@, access_key);
    let e4 = entry_of(SECRET_KEY_KEY@, secret_key);
    let e5 = entry_of(BUCKET_KEY@, bucket);
    lemma_key_name_is_plain(ENDPOINT_KEY@);
    lemma_key_name_is_plain(REGION_KEY@);
    lemma_key_name_is_plain(ACCESS_KEY_KEY@);
    lemma_key_name_is_plain(SECRET_KEY_KEY@);
    lemma_key_name_is_plain(BUCKET_KEY@);
    lemma_plain_entry(ENDPOINT_KEY@, endpoint);
    lemma_plain_entry(REGION_KEY@, region);
    lemma_plain_entry(ACCESS_KEY_KEY@, access_key);
    lemma_plain_entry(SECRET_KEY_KEY@, secret_key);
    lemma_plain_entry(BUCKET_KEY@, bucket);
    let p1 = e1;
    let p2 = p1 + seq![';'] + e2;
    let p3 = p2 + seq![';'] + e3;
    let p4 = p3 + seq![';'] + e4;
    let p5 = p4 + seq![';'] + e5;
    assert(";"@ =~= seq![';']);
    assert(conn_string_of(endpoint, region, access_key, secret_key, bucket) =~= p5);
    lemma_split_on_without_sep(e1, ';');
    lemma_split_on_append(p1, e2, ';');
    lemma_split_on_append(p2, e3, ';');
    lemma_split_on_append(p3, e4, ';');
    lemma_split_on_append(p4, e5, ';');
    let entries = split_on(p5, ';');
    assert(entries =~= seq![e1, e2, e3, e4, e5]);
    assert(REGION_KEY@ != ENDPOINT_KEY@);
    assert(ACCESS_KEY_KEY@ != ENDPOINT_KEY@ && ACCESS_KEY_KEY@ != REGION_KEY@);
    assert(SECRET_KEY_KEY@[0] != ACCESS_KEY_KEY@[0]);
    assert(SECRET_KEY_KEY@ != ENDPOINT_KEY@ && SECRET_KEY_KEY@ != REGION_KEY@
        && SECRET_KEY_KEY@ != ACCESS_KEY_KEY@);
    assert(BUCKET_KEY@[0] != REGION_KEY@[0]);
    assert(BUCKET_KEY@ != ENDPOINT_KEY@ && BUCKET_KEY@ != REGION_KEY@ && BUCKET_KEY@
        != ACCESS_KEY_KEY@ && BUCKET_KEY@ != SECRET_KEY_KEY@);
    assert(read_entries(entries, 0) == Ok::<ConnFields, ConnStringFailure>(no_fields()));
    assert(read_entries(entries, 1) == Ok::<ConnFields, ConnStringFailure>(
        ConnFields { endpoint: Some(endpoint), ..no_fields() },
    ));
    assert(read_entries(entries, 2) == Ok::<ConnFields, ConnStringFailure>(
        ConnFields { endpoint: Some(endpoint), region: Some(region), ..no_fields() },
    ));
    assert(read_entries(entries, 3) == Ok::<ConnFields, ConnStringFailure>(
        ConnFields {
            endpoint: Some(endpoint),
            region: Some(region),
            access_key: Some(access_key),
            ..no_fields()
        },
    ));
    assert(read_entries(entries, 4) == Ok::<ConnFields, ConnStringFailure>(
        ConnFields {
            endpoint: Some(endpoint),
            region: Some(region),
            access_key: Some(access_key),
            secret_key: Some(secret_key),
            ..no_fields()
        },
    ));
    assert(read_entries(entries, 5) == Ok::<ConnFields, ConnStringFailure>(
        ConnFields {
            endpoint: Some(endpoint),
            region: Some(region),
            access_key: Some(access_key),
            secret_key: Some(secret_key),
            bucket: Some(bucket),
            debug: None,
        },
    ));
}

/// One of the five required key names.
pub open spec fn is_required_key(k: Seq<char>) -> bool {
    ||| k == ENDPOINT_KEY@
    ||| k == REGION_KEY@
    ||| k == ACCESS_KEY_KEY@
    ||| k == SECRET_KEY_KEY@
    ||| k == BUCKET_KEY@
}

/// The value a parsed connection string holds for the required key `name`.
pub open spec fn value_for(v: ConnStringView, name: Seq<char>) -> Seq<char> {
    if name == ENDPOINT_KEY@ {
        v.endpoint
    } else if name == REGION_KEY@ {
        v.region
    } else if name == ACCESS_KEY_KEY@ {
        v.access_key
    } else if name == SECRET_KEY_KEY@ {
        v.secret_key
    } else {
        v.bucket
    }
}

/// The slot of the keys met so far that holds the required key `name`.
pub open spec fn slot_for(f: ConnFields, name: Seq<char>) -> Option<Seq<char>> {
    if name == ENDPOINT_KEY@ {
        f.endpoint
    } else if name == REGION_KEY@ {
        f.region
    } else if name == ACCESS_KEY_KEY@ {
        f.access_key
    } else if name == SECRET_KEY_KEY@ {
        f.secret_key
    } else {
        f.bucket
    }
}

/// Entries joined by `;`.
pub open spec fn joined(entries: Seq<Seq<char>>) -> Seq<char>
    decreases entries.len(),
{
    if entries.len() <= 1 {
        if entries.len() == 1 {
            entries[0]
        } else {
            Seq::<char>::empty()
        }
    } else {
        joined(entries.drop_last()) + seq![';'] + entries.last()
    }
}

/// The entries `keys[i]=values[i]`, in order.
pub open spec fn entries_of(keys: Seq<Seq<char>>, values: Seq<Seq<char>>) -> Seq<Seq<char>> {
    Seq::new(keys.len(), |i: int| entry_of(keys[i], values[i]))
}

proof fn lemma_split_joined(entries: Seq<Seq<char>>)
    requires
        entries.len() >= 1,
        forall|i: int| 0 <= i < entries.len() ==> !text::has_char(#[trigger] entries[i], ';'),
    ensures
        split_on(joined(entries), ';') == entries,
    decreases entries.len(),
{
    if entries.len() == 1 {
        lemma_split_on_without_sep(entries[0], ';');
        assert(seq![entries[0]] =~= entries);
    } else {
        let d = entries.drop_last();
        lemma_split_joined(d);
        lemma_split_on_append(joined(d), entries.last(), ';');
        assert(d.push(entries.last()) =~= entries);
    }
}

proof fn lemma_key_names_differ()
    ensures
        REGION_KEY@ != ENDPOINT_KEY@,
        ACCESS_KEY_KEY@ != ENDPOINT_KEY@,
        ACCESS_KEY_KEY@ != REGION_KEY@,
        SECRET_KEY_KEY@ != ENDPOINT_KEY@,
        SECRET_KEY_KEY@ != REGION_KEY@,
        SECRET_KEY_KEY@ != ACCESS_KEY_KEY@,
        BUCKET_KEY@ != ENDPOINT_KEY@,
        BUCKET_KEY@ != REGION_KEY@,
        BUCKET_KEY@ != ACCESS_KEY_KEY@,
        BUCKET_KEY@ != SECRET_KEY_KEY@,
        DEBUG_KEY@ != ENDPOINT_KEY@,
        DEBUG_KEY@ != REGION_KEY@,
        DEBUG_KEY@ != ACCESS_KEY_KEY@,
        DEBUG_KEY@ != SECRET_KEY_KEY@,
        DEBUG_KEY@ != BUCKET_KEY@,
{
    reveal_strlit("Endpoint");
    reveal_strlit("Region");
    reveal_strlit("AccessKey");
    reveal_strlit("SecretKey");
    reveal_strlit("Bucket");
    reveal_strlit("Debug");
    assert(SECRET_KEY_KEY@[0] != ACCESS_KEY_KEY@[0]);
    assert(BUCKET_KEY@[0] != REGION_KEY@[0]);
    assert(DEBUG_KEY@.len() != REGION_KEY@.len());
}

proof fn lemma_read_distinct_entries(keys: Seq<Seq<char>>, values: Seq<Seq<char>>, k: nat)
    requires
        keys.len() == values.len(),
        k <= keys.len(),
        forall|i: int| 0 <= i < keys.len() ==> is_required_key(#[trigger] keys[i]),
        forall|i: int, j: int| 0 <= i < j < keys.len() ==> #[trigger] keys[i] != #[trigger] keys[j],
        forall|i: int| 0 <= i < values.len() ==> is_plain_value(#[trigger] values[i]),
    ensures
        read_entries(entries_of(keys, values), k) matches Ok(f) && {
            &&& f.debug is None
            &&& forall|i: int| 0 <= i < k ==> slot_for(f, #[trigger] keys[i]) == Some(values[i])
            &&& forall|name: Seq<char>|
                is_required_key(name) && (forall|i: int| 0 <= i < k ==> keys[i] != name)
                    ==> #[trigger] slot_for(f, name) is None
        },
    decreases k,
{
    lemma_key_names_differ();
    let es = entries_of(keys, values);
    if k > 0 {
        let n = (k - 1) as int;
        lemma_read_distinct_entries(keys, values, (k - 1) as nat);
        let f = read_entries(es, (k - 1) as nat)->Ok_0;
        lemma_key_name_is_plain(keys[n]);
        lemma_plain_entry(keys[n], values[n]);
        assert(es[n] == entry_of(keys[n], values[n]));
        assert forall|i: int| 0 <= i < n implies keys[i] != keys[n] by {
            assert(keys[i] != keys[n]);
        }
        assert(slot_for(f, keys[n]) is None);
        let g = read_entries(es, k)->Ok_0;
        assert(read_entries(es, k) is Ok);
        assert(slot_for(g, keys[n]) == Some(values[n]));
        assert forall|name: Seq<char>| is_required_key(name) && name != keys[n] implies #[trigger] slot_for(
            g,
            name,
        ) == slot_for(f, name) by {}
        assert forall|i: int| 0 <= i < k implies slot_for(g, #[trigger] keys[i]) == Some(values[i]) by {
            if i < n {
                assert(keys[i] != keys[n]);
            }
        }
    }
}

/// Parsing does not depend on the order of the entries: the five required
/// entries `key=value`, each key given once, in any order, with values that
/// need no trimming and hold no `;`, parse into exactly those values, with
/// `Debug` off. In particular a key name of the format is never refused as
/// unknown, wherever it stands.
pub proof fn lemma_entries_parse_in_any_order(keys: Seq<Seq<char>>, values: Seq<Seq<char>>)
    requires
        keys.len() == values.len(),
        forall|i: int| 0 <= i < keys.len() ==> is_required_key(#[trigger] keys[i]),
        forall|i: int, j: int| 0 <= i < j < keys.len() ==> #[trigger] keys[i] != #[trigger] keys[j],
        forall|name: Seq<char>| is_required_key(name) ==> #[trigger] keys.contains(name),
        forall|i: int| 0 <= i < values.len() ==> is_plain_value(#[trigger] values[i]),
    ensures
        parse_conn_string(joined(entries_of(keys, values))) matches Ok(v) && {
            &&& !v.debug
            &&& forall|i: int| 0 <= i < keys.len() ==> value_for(v, #[trigger] keys[i]) == values[i]
        },
{
    lemma_key_names_differ();
    reveal_strlit("Endpoint");
    let es = entries_of(keys, values);
    assert(keys.contains(ENDPOINT_KEY@));
    assert(keys.len() >= 1);
    assert forall|i: int| 0 <= i < es.len() implies !text::has_char(#[trigger] es[i], ';') by {
        lemma_key_name_is_plain(keys[i]);
        lemma_plain_entry(keys[i], values[i]);
    }
    lemma_split_joined(es);
    lemma_read_distinct_entries(keys, values, keys.len());
    let f = read_entries(es, keys.len())->Ok_0;
    assert forall|name: Seq<char>| is_required_key(name) implies #[trigger] slot_for(f, name) matches Some(
        x,
    ) && x.len() > 0 by {
        assert(keys.contains(name));
        let i = choose|i: int| 0 <= i < keys.len() && keys[i] == name;
        assert(slot_for(f, keys[i]) == Some(values[i]));
    }
    assert(slot_for(f, ENDPOINT_KEY@) is Some);
    assert(slot_for(f, REGION_KEY@) is Some);
    assert(slot_for(f, ACCESS_KEY_KEY@) is Some);
    assert(slot_for(f, SECRET_KEY_KEY@) is Some);
    assert(slot_for(f, BUCKET_KEY@) is Some);
    let v = parse_conn_string(joined(es))->Ok_0;
    assert forall|i: int| 0 <= i < keys.len() implies value_for(v, #[trigger] keys[i]) == values[i] by {
        assert(slot_for(f, keys[i]) == Some(values[i]));
    }
}

/// A key name of the format is never refused as an unknown key: only an
/// entry whose key is none of them is.
pub proof fn lemma_known_keys_are_never_unknown(s: Seq<char>)
    ensures
        parse_conn_string(s) matches Err(ConnStringFailure::UnknownKey { entry, key }) ==> exists|
            i: int,
        |
            0 <= i < split_on(s, ';').len() && i + 1 == entry && !is_key_name(
                entry_key(text::trim(#[trigger] split_on(s, ';')[i])),
            ),
{
    let entries = split_on(s, ';');
    lemma_unknown_key_entries(entries, entries.len());
}

proof fn lemma_unknown_key_entries(entries: Seq<Seq<char>>, n: nat)
    requires
        n <= entries.len(),
    ensures
        read_entries(entries, n) matches Err(ConnStringFailure::UnknownKey { entry, key }) ==> exists|
            i: int,
        | 0 <= i < n && i + 1 == entry && !is_key_name(entry_key(text::trim(#[trigger] entries[i]))),
    decreases n,
{
    if n > 0 {
        lemma_unknown_key_entries(entries, (n - 1) as nat);
        if let Err(ConnStringFailure::UnknownKey { entry, key }) = read_entries(entries, n) {
            match read_entries(entries, (n - 1) as nat) {
                Err(_) => {
                    let i = choose|i: int|
                        0 <= i < n - 1 && i + 1 == entry && !is_key_name(
                            entry_key(text::trim(#[trigger] entries[i])),
                        );
                    assert(0 <= i < n);
                },
                Ok(_) => {
                    let i = n - 1;
                    assert(!is_key_name(entry_key(text::trim(entries[i]))));
                },
            }
        }
    }
}

/// The key names a connection string may hold, as error messages list them.
pub const EXPECTED_KEYS: &'static str = "Endpoint, Region, AccessKey, SecretKey, Bucket and optionally Debug";

/// The message of a refusal. It names the entry, a printable key or a key
/// name, or the `Debug` value; nothing else of the connection string.
pub open spec fn failure_message(f: ConnStringFailure) -> Seq<char> {
    match f {
        ConnStringFailure::NotKeyValue { entry } => "entry #"@ + text::decimal(entry)
            + " is not Key=Value"@,
        ConnStringFailure::UnknownKey { entry, key } => match key {
            Some(k) => "unknown key '"@ + k + "' (entry #"@ + text::decimal(entry)
                + "), expected "@ + EXPECTED_KEYS@,
            None => "entry #"@ + text::decimal(entry) + " has an unknown key, expected "@
                + EXPECTED_KEYS@,
        },
        ConnStringFailure::DuplicateKey { key } => "'"@ + key + "' is given more than once"@,
        ConnStringFailure::MissingKey { key } => "'"@ + key + "' is missing or empty"@,
        ConnStringFailure::InvalidDebugValue { value } =>
            "'Debug' expects 1/0, true/false, yes/no or on/off - got '"@ + value + "'"@,
    }
}

impl S3ConnStringError {
    /// The message of this refusal (what `Display` shows).
    pub fn to_string(&self) -> (r: String)
        ensures
            r@ == failure_message(self@),
    {
        let mut r = String::new();
        match self {
            S3ConnStringError::NotKeyValue { entry } => {
                push_str(&mut r, "entry #");
                push_decimal(&mut r, *entry as u64);
                push_str(&mut r, " is not Key=Value");
            },
            S3ConnStringError::UnknownKey { entry, key } => match key {
                Some(k) => {
                    push_str(&mut r, "unknown key '");
                    push_str(&mut r, k.as_str());
                    push_str(&mut r, "' (entry #");
                    push_decimal(&mut r, *entry as u64);
                    push_str(&mut r, "), expected ");
                    push_str(&mut r, EXPECTED_KEYS);
                },
                None => {
                    push_str(&mut r, "entry #");
                    push_decimal(&mut r, *entry as u64);
                    push_str(&mut r, " has an unknown key, expected ");
                    push_str(&mut r, EXPECTED_KEYS);
                },
            },
            S3ConnStringError::DuplicateKey { key } => {
                push_str(&mut r, "'");
                push_str(&mut r, key);
                push_str(&mut r, "' is given more than once");
            },
            S3ConnStringError::MissingKey { key } => {
                push_str(&mut r, "'");
                push_str(&mut r, key);
                push_str(&mut r, "' is missing or empty");
            },
            S3ConnStringError::InvalidDebugValue { value } => {
                push_str(&mut r, "'Debug' expects 1/0, true/false, yes/no or on/off - got '");
                push_str(&mut r, value.as_str());
                push_str(&mut r, "'");
            },
        }
        proof {
            assert(r@ =~= failure_message(self@));
        }
        r
    }
}

} // verus!
