//! Character-level building blocks shared by the parsers and formatters:
//! Unicode white space and trimming, conversions between `str`, `Vec<char>`
//! and `String`, decimal rendering and the code-point order of strings.
use vstd::prelude::*;

verus! {

/// The Unicode `White_Space` property, which `char::is_whitespace` and
/// `str::trim` go by.
pub open spec fn is_white_space(c: char) -> bool {
    let u = c as u32;
    ||| 0x09 <= u <= 0x0D
    ||| u == 0x20
    ||| u == 0x85
    ||| u == 0xA0
    ||| u == 0x1680
    ||| 0x2000 <= u <= 0x200A
    ||| u == 0x2028
    ||| u == 0x2029
    ||| u == 0x202F
    ||| u == 0x205F
    ||| u == 0x3000
}

/// `s` without its leading white space.
pub open spec fn trim_start(s: Seq<char>) -> Seq<char>
    decreases s.len(),
{
    if s.len() > 0 && is_white_space(s[0]) {
        trim_start(s.drop_first())
    } else {
        s
    }
}

/// `s` without its trailing white space.
pub open spec fn trim_end(s: Seq<char>) -> Seq<char>
    decreases s.len(),
{
    if s.len() > 0 && is_white_space(s.last()) {
        trim_end(s.drop_last())
    } else {
        s
    }
}

/// `s` without leading and trailing white space, as `str::trim` gives it.
pub open spec fn trim(s: Seq<char>) -> Seq<char> {
    trim_end(trim_start(s))
}

/// Every character of `s` is white space (so `trim(s)` is empty).
pub open spec fn all_white_space(s: Seq<char>) -> bool {
    forall|i: int| 0 <= i < s.len() ==> is_white_space(#[trigger] s[i])
}

/// `s` without all of its trailing `c` (`str::trim_end_matches`).
pub open spec fn trim_end_char(s: Seq<char>, c: char) -> Seq<char>
    decreases s.len(),
{
    if s.len() > 0 && s.last() == c {
        trim_end_char(s.drop_last(), c)
    } else {
        s
    }
}

/// Dropping one trailing `c` does not change what trimming all of them gives.
pub proof fn lemma_trim_end_char_step(s: Seq<char>, n: int, c: char)
    requires
        0 < n <= s.len(),
        s[n - 1] == c,
    ensures
        trim_end_char(s.subrange(0, n), c) == trim_end_char(s.subrange(0, n - 1), c),
{
    assert(s.subrange(0, n).drop_last() =~= s.subrange(0, n - 1));
}

/// `s` holds the character `c`.
pub open spec fn has_char(s: Seq<char>, c: char) -> bool {
    exists|i: int| 0 <= i < s.len() && s[i] == c
}

/// Index of the first `c` in `s`; meaningful when `has_char(s, c)`.
pub open spec fn first_index_of(s: Seq<char>, c: char) -> int
    decreases s.len(),
{
    if s.len() == 0 {
        0
    } else if s[0] == c {
        0
    } else {
        1 + first_index_of(s.drop_first(), c)
    }
}

/// `s` starts with `p`.
pub open spec fn starts_with(s: Seq<char>, p: Seq<char>) -> bool {
    p.len() <= s.len() && s.subrange(0, p.len() as int) == p
}

/// `s` ends with `p`.
pub open spec fn ends_with(s: Seq<char>, p: Seq<char>) -> bool {
    p.len() <= s.len() && s.subrange(s.len() - p.len(), s.len() as int) == p
}

/// The decimal digit of `d` (`d < 10`).
pub open spec fn digit_char(d: nat) -> char {
    (('0' as u32) + d) as char
}

/// Decimal rendering of `n`, without leading zeros, as `to_string` gives it.
pub open spec fn decimal(n: nat) -> Seq<char>
    decreases n,
{
    if n < 10 {
        seq![digit_char(n)]
    } else {
        decimal(n / 10).push(digit_char(n % 10))
    }
}

/// Code-point order of strings, which is the order of their UTF-8 bytes and
/// so the order `Ord for String` uses.
pub open spec fn chars_le(a: Seq<char>, b: Seq<char>) -> bool
    decreases a.len(),
{
    if a.len() == 0 {
        true
    } else if b.len() == 0 {
        false
    } else if (a[0] as u32) < (b[0] as u32) {
        true
    } else if (a[0] as u32) > (b[0] as u32) {
        false
    } else {
        chars_le(a.drop_first(), b.drop_first())
    }
}

/// Strict code-point order of strings.
pub open spec fn chars_lt(a: Seq<char>, b: Seq<char>) -> bool {
    chars_le(a, b) && a != b
}

/// Code-point order is reflexive.
pub proof fn lemma_chars_le_reflexive(a: Seq<char>)
    ensures
        chars_le(a, a),
    decreases a.len(),
{
    if a.len() > 0 {
        lemma_chars_le_reflexive(a.drop_first());
    }
}

/// Code-point order is total.
pub proof fn lemma_chars_le_total(a: Seq<char>, b: Seq<char>)
    ensures
        chars_le(a, b) || chars_le(b, a),
    decreases a.len(),
{
    if a.len() > 0 && b.len() > 0 && (a[0] as u32) == (b[0] as u32) {
        lemma_chars_le_total(a.drop_first(), b.drop_first());
    }
}

/// Code-point order is antisymmetric.
pub proof fn lemma_chars_le_antisymmetric(a: Seq<char>, b: Seq<char>)
    requires
        chars_le(a, b),
        chars_le(b, a),
    ensures
        a == b,
    decreases a.len(),
{
    if a.len() > 0 {
        lemma_chars_le_antisymmetric(a.drop_first(), b.drop_first());
        assert(a[0] == b[0]) by {
            let u = a[0] as u32;
            vstd::utf8::char_u32_cast(a[0], u);
            vstd::utf8::char_u32_cast(b[0], u);
        }
        assert(a =~= seq![a[0]] + a.drop_first());
        assert(b =~= seq![b[0]] + b.drop_first());
    } else {
        assert(b.len() == 0);
        assert(a =~= b);
    }
}

/// Code-point order is transitive.
pub proof fn lemma_chars_le_transitive(a: Seq<char>, b: Seq<char>, c: Seq<char>)
    requires
        chars_le(a, b),
        chars_le(b, c),
    ensures
        chars_le(a, c),
    decreases a.len(),
{
    if a.len() > 0 && b.len() > 0 && c.len() > 0 {
        if (a[0] as u32) == (b[0] as u32) && (b[0] as u32) == (c[0] as u32) {
            lemma_chars_le_transitive(a.drop_first(), b.drop_first(), c.drop_first());
        }
    }
}

/// The text an optional `String` holds.
pub open spec fn option_string_view(o: Option<String>) -> Option<Seq<char>> {
    match o {
        Some(s) => Some(s@),
        None => None,
    }
}

/// The text an optional `&str` holds.
pub open spec fn option_str_view(o: Option<&str>) -> Option<Seq<char>> {
    match o {
        Some(s) => Some(s@),
        None => None,
    }
}

/// Appends one character to a string (`String::push`).
#[verifier::external_body]
pub(crate) fn push_char(s: &mut String, c: char)
    ensures
        final(s)@ == old(s)@.push(c),
{
    s.push(c);
}

/// The characters of `s`, in order.
pub fn chars_of(s: &str) -> (v: Vec<char>)
    ensures
        v@ == s@,
{
    let n = s.unicode_len();
    let mut v: Vec<char> = Vec::new();
    let mut i: usize = 0;
    while i < n
        invariant
            n == s@.len(),
            i <= n,
            v@ == s@.subrange(0, i as int),
        decreases n - i,
    {
        v.push(s.get_char(i));
        i = i + 1;
    }
    assert(v@ =~= s@);
    v
}

/// The string made of `cs[lo..hi]`.
pub fn string_from(cs: &Vec<char>, lo: usize, hi: usize) -> (r: String)
    requires
        lo <= hi <= cs@.len(),
    ensures
        r@ == cs@.subrange(lo as int, hi as int),
{
    let mut r = String::new();
    let mut i: usize = lo;
    while i < hi
        invariant
            lo <= i <= hi <= cs@.len(),
            r@ == cs@.subrange(lo as int, i as int),
        decreases hi - i,
    {
        push_char(&mut r, cs[i]);
        assert(cs@.subrange(lo as int, i + 1) =~= cs@.subrange(lo as int, i as int).push(cs@[i as int]));
        i = i + 1;
    }
    r
}

/// Appends all of `t` to `s`.
pub fn push_str(s: &mut String, t: &str)
    ensures
        final(s)@ == old(s)@ + t@,
{
    let n = t.unicode_len();
    let mut i: usize = 0;
    let ghost start = s@;
    while i < n
        invariant
            n == t@.len(),
            i <= n,
            s@ == start + t@.subrange(0, i as int),
        decreases n - i,
    {
        push_char(s, t.get_char(i));
        assert(t@.subrange(0, i + 1) =~= t@.subrange(0, i as int).push(t@[i as int]));
        i = i + 1;
    }
    assert(t@.subrange(0, n as int) =~= t@);
}

/// `c` has the Unicode `White_Space` property (`char::is_whitespace`).
pub fn is_white_space_char(c: char) -> (r: bool)
    ensures
        r == is_white_space(c),
{
    let u = c as u32;
    (0x09 <= u && u <= 0x0D) || u == 0x20 || u == 0x85 || u == 0xA0 || u == 0x1680 || (0x2000 <= u
        && u <= 0x200A) || u == 0x2028 || u == 0x2029 || u == 0x202F || u == 0x205F || u == 0x3000
}

proof fn lemma_trim_start_step(s: Seq<char>, lo: int, hi: int)
    requires
        0 <= lo < hi <= s.len(),
        is_white_space(s[lo]),
    ensures
        trim_start(s.subrange(lo, hi)) == trim_start(s.subrange(lo + 1, hi)),
{
    assert(s.subrange(lo, hi).drop_first() =~= s.subrange(lo + 1, hi));
}

proof fn lemma_trim_end_step(s: Seq<char>, lo: int, hi: int)
    requires
        0 <= lo < hi <= s.len(),
        is_white_space(s[hi - 1]),
    ensures
        trim_end(s.subrange(lo, hi)) == trim_end(s.subrange(lo, hi - 1)),
{
    assert(s.subrange(lo, hi).drop_last() =~= s.subrange(lo, hi - 1));
}

/// The bounds of `trim(cs[lo..hi])` inside `cs`.
pub fn trim_range(cs: &Vec<char>, lo: usize, hi: usize) -> (r: (usize, usize))
    requires
        lo <= hi <= cs@.len(),
    ensures
        lo <= r.0 <= r.1 <= hi,
        cs@.subrange(r.0 as int, r.1 as int) == trim(cs@.subrange(lo as int, hi as int)),
{
    let mut a = lo;
    while a < hi && is_white_space_char(cs[a])
        invariant
            lo <= a <= hi <= cs@.len(),
            trim_start(cs@.subrange(lo as int, hi as int)) == trim_start(
                cs@.subrange(a as int, hi as int),
            ),
        decreases hi - a,
    {
        proof {
            lemma_trim_start_step(cs@, a as int, hi as int);
        }
        a = a + 1;
    }
    assert(trim_start(cs@.subrange(a as int, hi as int)) == cs@.subrange(a as int, hi as int));
    let mut b = hi;
    while b > a && is_white_space_char(cs[b - 1])
        invariant
            lo <= a <= b <= hi <= cs@.len(),
            trim_end(cs@.subrange(a as int, hi as int)) == trim_end(
                cs@.subrange(a as int, b as int),
            ),
        decreases b - a,
    {
        proof {
            lemma_trim_end_step(cs@, a as int, b as int);
        }
        b = b - 1;
    }
    (a, b)
}

/// `cs[lo..hi]` is exactly the text `t`.
pub fn range_is(cs: &Vec<char>, lo: usize, hi: usize, t: &str) -> (r: bool)
    requires
        lo <= hi <= cs@.len(),
    ensures
        r == (cs@.subrange(lo as int, hi as int) == t@),
{
    let n = t.unicode_len();
    if hi - lo != n {
        proof {
            if cs@.subrange(lo as int, hi as int) == t@ {
                assert(cs@.subrange(lo as int, hi as int).len() == t@.len());
            }
        }
        return false;
    }
    let mut i: usize = 0;
    while i < n
        invariant
            n == t@.len(),
            hi - lo == n,
            lo <= hi <= cs@.len(),
            i <= n,
            forall|j: int| 0 <= j < i ==> cs@[lo + j] == t@[j],
        decreases n - i,
    {
        if cs[lo + i] != t.get_char(i) {
            proof {
                assert(cs@.subrange(lo as int, hi as int)[i as int] != t@[i as int]);
            }
            return false;
        }
        i = i + 1;
    }
    assert(cs@.subrange(lo as int, hi as int) =~= t@);
    true
}

/// The index of the first `c` in `cs[lo..hi]`, if there is one.
pub fn find_char(cs: &Vec<char>, lo: usize, hi: usize, c: char) -> (r: Option<usize>)
    requires
        lo <= hi <= cs@.len(),
    ensures
        r is None ==> !has_char(cs@.subrange(lo as int, hi as int), c),
        r matches Some(k) ==> lo <= k < hi && cs@[k as int] == c && forall|j: int|
            lo <= j < k ==> cs@[j] != c,
{
    let mut i = lo;
    while i < hi
        invariant
            lo <= i <= hi <= cs@.len(),
            forall|j: int| lo <= j < i ==> cs@[j] != c,
        decreases hi - i,
    {
        if cs[i] == c {
            return Some(i);
        }
        i = i + 1;
    }
    proof {
        if has_char(cs@.subrange(lo as int, hi as int), c) {
            let k = choose|k: int|
                0 <= k < hi - lo && cs@.subrange(lo as int, hi as int)[k] == c;
            assert(cs@[lo + k] == c);
        }
    }
    None
}

/// The character of the decimal digit `d`.
pub fn digit_of(d: u64) -> (c: char)
    requires
        d < 10,
    ensures
        c == digit_char(d as nat),
{
    match d {
        0 => '0',
        1 => '1',
        2 => '2',
        3 => '3',
        4 => '4',
        5 => '5',
        6 => '6',
        7 => '7',
        8 => '8',
        _ => '9',
    }
}

/// Appends the decimal rendering of `n` to `s`.
pub fn push_decimal(s: &mut String, n: u64)
    ensures
        final(s)@ == old(s)@ + decimal(n as nat),
    decreases n,
{
    if n >= 10 {
        push_decimal(s, n / 10);
    }
    let c = digit_of(n % 10);
    push_char(s, c);
    proof {
        if n >= 10 {
            assert(decimal(n as nat) == decimal((n / 10) as nat).push(digit_char((n % 10) as nat)));
        }
    }
}


/// `s` starts with `p` (`str::starts_with`).
pub fn str_starts_with(s: &str, p: &str) -> (r: bool)
    ensures
        r == starts_with(s@, p@),
{
    let n = s.unicode_len();
    let m = p.unicode_len();
    if m > n {
        return false;
    }
    let mut i: usize = 0;
    while i < m
        invariant
            n == s@.len(),
            m == p@.len(),
            m <= n,
            i <= m,
            forall|j: int| 0 <= j < i ==> s@[j] == p@[j],
        decreases m - i,
    {
        if s.get_char(i) != p.get_char(i) {
            assert(s@.subrange(0, m as int)[i as int] != p@[i as int]);
            return false;
        }
        i = i + 1;
    }
    assert(s@.subrange(0, m as int) =~= p@);
    true
}

/// `a` and `b` hold the same text.
pub fn str_eq(a: &str, b: &str) -> (r: bool)
    ensures
        r == (a@ == b@),
{
    let n = a.unicode_len();
    if n != b.unicode_len() {
        return false;
    }
    let r = str_starts_with(a, b);
    proof {
        if r {
            assert(a@.subrange(0, n as int) =~= a@);
        }
        if a@ == b@ {
            assert(a@.subrange(0, n as int) =~= a@);
        }
    }
    r
}

/// What `str::to_lowercase` returns for `s`: the full Unicode lowercase
/// mapping, which may change the length of the text.
pub uninterp spec fn unicode_lowercase(s: Seq<char>) -> Seq<char>;

/// A character whose Unicode lowercase mapping is one character and does
/// not depend on its neighbours, and which this library spells out: Latin
/// (ASCII, Latin-1, Latin Extended-A but `İ`), basic Greek (U+0384 to
/// U+03CE but `Σ`) and basic Cyrillic (U+0400 to U+045F).
pub open spec fn in_simple_case_table(c: char) -> bool {
    let u = c as u32;
    ||| (u <= 0x17F && u != 0x130)
    ||| (0x384 <= u <= 0x3CE && u != 0x3A3)
    ||| (0x400 <= u <= 0x45F)
}

/// The Unicode lowercase of a character of the simple case table: Latin
/// capitals move to their small letters (by 0x20, by one in the paired
/// blocks of Latin Extended-A, `Ÿ` to `ÿ`), Greek and Cyrillic capitals to
/// theirs; every other character of the table is its own lowercase.
pub open spec fn simple_lower_char(c: char) -> char {
    let u = c as u32;
    if (0x41 <= u <= 0x5A) || (0xC0 <= u <= 0xDE && u != 0xD7) || (0x391 <= u <= 0x3AB && u
        != 0x3A2 && u != 0x3A3) || (0x410 <= u <= 0x42F) {
        (u + 0x20) as char
    } else if ((0x100 <= u <= 0x12F || 0x132 <= u <= 0x137 || 0x14A <= u <= 0x177) && u % 2 == 0)
        || ((0x139 <= u <= 0x148 || 0x179 <= u <= 0x17E) && u % 2 == 1) {
        (u + 1) as char
    } else if u == 0x178 {
        '\u{FF}'
    } else if u == 0x386 {
        '\u{3AC}'
    } else if 0x388 <= u <= 0x38A {
        (u + 0x25) as char
    } else if u == 0x38C {
        '\u{3CC}'
    } else if 0x38E <= u <= 0x38F {
        (u + 0x3F) as char
    } else if 0x400 <= u <= 0x40F {
        (u + 0x50) as char
    } else {
        c
    }
}

/// Every character of `s` is in the simple case table.
pub open spec fn in_simple_case(s: Seq<char>) -> bool {
    forall|i: int| 0 <= i < s.len() ==> in_simple_case_table(#[trigger] s[i])
}

/// `s` lowercased character by character through the simple case table.
pub open spec fn simple_lowercase(s: Seq<char>) -> Seq<char> {
    s.map_values(|c: char| simple_lower_char(c))
}

/// The lowercase of a character of the simple case table.
pub fn simple_lower(c: char) -> (r: char)
    requires
        in_simple_case_table(c),
    ensures
        r == simple_lower_char(c),
{
    let u = c as u32;
    if u <= 0xFF {
        let b = u as u8;
        if (0x41 <= b && b <= 0x5A) || (0xC0 <= b && b <= 0xDE && b != 0xD7) {
            let l = b + 0x20;
            assert(l as u32 == u + 0x20);
            l as char
        } else {
            c
        }
    } else {
        match c {
            '\u{0100}' => '\u{0101}',
            '\u{0102}' => '\u{0103}',
            '\u{0104}' => '\u{0105}',
            '\u{0106}' => '\u{0107}',
            '\u{0108}' => '\u{0109}',
            '\u{010A}' => '\u{010B}',
            '\u{010C}' => '\u{010D}',
            '\u{010E}' => '\u{010F}',
            '\u{0110}' => '\u{0111}',
            '\u{0112}' => '\u{0113}',
            '\u{0114}' => '\u{0115}',
            '\u{0116}' => '\u{0117}',
            '\u{0118}' => '\u{0119}',
            '\u{011A}' => '\u{011B}',
            '\u{011C}' => '\u{011D}',
            '\u{011E}' => '\u{011F}',
            '\u{0120}' => '\u{0121}',
            '\u{0122}' => '\u{0123}',
            '\u{0124}' => '\u{0125}',
            '\u{0126}' => '\u{0127}',
            '\u{0128}' => '\u{0129}',
            '\u{012A}' => '\u{012B}',
            '\u{012C}' => '\u{012D}',
            '\u{012E}' => '\u{012F}',
            '\u{0132}' => '\u{0133}',
            '\u{0134}' => '\u{0135}',
            '\u{0136}' => '\u{0137}',
            '\u{0139}' => '\u{013A}',
            '\u{013B}' => '\u{013C}',
            '\u{013D}' => '\u{013E}',
            '\u{013F}' => '\u{0140}',
            '\u{0141}' => '\u{0142}',
            '\u{0143}' => '\u{0144}',
            '\u{0145}' => '\u{0146}',
            '\u{0147}' => '\u{0148}',
            '\u{014A}' => '\u{014B}',
            '\u{014C}' => '\u{014D}',
            '\u{014E}' => '\u{014F}',
            '\u{0150}' => '\u{0151}',
            '\u{0152}' => '\u{0153}',
            '\u{0154}' => '\u{0155}',
            '\u{0156}' => '\u{0157}',
            '\u{0158}' => '\u{0159}',
            '\u{015A}' => '\u{015B}',
            '\u{015C}' => '\u{015D}',
            '\u{015E}' => '\u{015F}',
            '\u{0160}' => '\u{0161}',
            '\u{0162}' => '\u{0163}',
            '\u{0164}' => '\u{0165}',
            '\u{0166}' => '\u{0167}',
            '\u{0168}' => '\u{0169}',
            '\u{016A}' => '\u{016B}',
            '\u{016C}' => '\u{016D}',
            '\u{016E}' => '\u{016F}',
            '\u{0170}' => '\u{0171}',
            '\u{0172}' => '\u{0173}',
            '\u{0174}' => '\u{0175}',
            '\u{0176}' => '\u{0177}',
            '\u{0178}' => '\u{00FF}',
            '\u{0179}' => '\u{017A}',
            '\u{017B}' => '\u{017C}',
            '\u{017D}' => '\u{017E}',
            '\u{0386}' => '\u{03AC}',
            '\u{0388}' => '\u{03AD}',
            '\u{0389}' => '\u{03AE}',
            '\u{038A}' => '\u{03AF}',
            '\u{038C}' => '\u{03CC}',
            '\u{038E}' => '\u{03CD}',
            '\u{038F}' => '\u{03CE}',
            '\u{0391}' => '\u{03B1}',
            '\u{0392}' => '\u{03B2}',
            '\u{0393}' => '\u{03B3}',
            '\u{0394}' => '\u{03B4}',
            '\u{0395}' => '\u{03B5}',
            '\u{0396}' => '\u{03B6}',
            '\u{0397}' => '\u{03B7}',
            '\u{0398}' => '\u{03B8}',
            '\u{0399}' => '\u{03B9}',
            '\u{039A}' => '\u{03BA}',
            '\u{039B}' => '\u{03BB}',
            '\u{039C}' => '\u{03BC}',
            '\u{039D}' => '\u{03BD}',
            '\u{039E}' => '\u{03BE}',
            '\u{039F}' => '\u{03BF}',
            '\u{03A0}' => '\u{03C0}',
            '\u{03A1}' => '\u{03C1}',
            '\u{03A4}' => '\u{03C4}',
            '\u{03A5}' => '\u{03C5}',
            '\u{03A6}' => '\u{03C6}',
            '\u{03A7}' => '\u{03C7}',
            '\u{03A8}' => '\u{03C8}',
            '\u{03A9}' => '\u{03C9}',
            '\u{03AA}' => '\u{03CA}',
            '\u{03AB}' => '\u{03CB}',
            '\u{0400}' => '\u{0450}',
            '\u{0401}' => '\u{0451}',
            '\u{0402}' => '\u{0452}',
            '\u{0403}' => '\u{0453}',
            '\u{0404}' => '\u{0454}',
            '\u{0405}' => '\u{0455}',
            '\u{0406}' => '\u{0456}',
            '\u{0407}' => '\u{0457}',
            '\u{0408}' => '\u{0458}',
            '\u{0409}' => '\u{0459}',
            '\u{040A}' => '\u{045A}',
            '\u{040B}' => '\u{045B}',
            '\u{040C}' => '\u{045C}',
            '\u{040D}' => '\u{045D}',
            '\u{040E}' => '\u{045E}',
            '\u{040F}' => '\u{045F}',
            '\u{0410}' => '\u{0430}',
            '\u{0411}' => '\u{0431}',
            '\u{0412}' => '\u{0432}',
            '\u{0413}' => '\u{0433}',
            '\u{0414}' => '\u{0434}',
            '\u{0415}' => '\u{0435}',
            '\u{0416}' => '\u{0436}',
            '\u{0417}' => '\u{0437}',
            '\u{0418}' => '\u{0438}',
            '\u{0419}' => '\u{0439}',
            '\u{041A}' => '\u{043A}',
            '\u{041B}' => '\u{043B}',
            '\u{041C}' => '\u{043C}',
            '\u{041D}' => '\u{043D}',
            '\u{041E}' => '\u{043E}',
            '\u{041F}' => '\u{043F}',
            '\u{0420}' => '\u{0440}',
            '\u{0421}' => '\u{0441}',
            '\u{0422}' => '\u{0442}',
            '\u{0423}' => '\u{0443}',
            '\u{0424}' => '\u{0444}',
            '\u{0425}' => '\u{0445}',
            '\u{0426}' => '\u{0446}',
            '\u{0427}' => '\u{0447}',
            '\u{0428}' => '\u{0448}',
            '\u{0429}' => '\u{0449}',
            '\u{042A}' => '\u{044A}',
            '\u{042B}' => '\u{044B}',
            '\u{042C}' => '\u{044C}',
            '\u{042D}' => '\u{044D}',
            '\u{042E}' => '\u{044E}',
            '\u{042F}' => '\u{044F}',
            _ => c,
        }
    }
}

/// `str::to_lowercase`. The contract names its result: the mapping is
/// Unicode's and takes its tables to state.
#[verifier::external_body]
pub(crate) fn lowercase(s: &str) -> (r: String)
    ensures
        r@ == unicode_lowercase(s@),
{
    s.to_lowercase()
}

/// `a` comes before `b` or equals it in code-point order.
pub fn chars_le_exec(a: &Vec<char>, b: &Vec<char>) -> (r: bool)
    ensures
        r == chars_le(a@, b@),
{
    let mut i: usize = 0;
    assert(a@.skip(0) =~= a@);
    assert(b@.skip(0) =~= b@);
    while i < a.len() && i < b.len() && a[i] == b[i]
        invariant
            i <= a@.len(),
            i <= b@.len(),
            chars_le(a@, b@) == chars_le(a@.skip(i as int), b@.skip(i as int)),
        decreases a@.len() - i,
    {
        assert(a@.skip(i as int).drop_first() =~= a@.skip(i + 1));
        assert(b@.skip(i as int).drop_first() =~= b@.skip(i + 1));
        i = i + 1;
    }
    if i == a.len() {
        assert(a@.skip(i as int).len() == 0);
        true
    } else if i == b.len() {
        assert(b@.skip(i as int).len() == 0);
        false
    } else {
        proof {
            assert(a@.skip(i as int)[0] == a@[i as int]);
            assert(b@.skip(i as int)[0] == b@[i as int]);
            if (a@[i as int] as u32) == (b@[i as int] as u32) {
                vstd::utf8::char_u32_cast(a@[i as int], a@[i as int] as u32);
                vstd::utf8::char_u32_cast(b@[i as int], b@[i as int] as u32);
            }
        }
        (a[i] as u32) < (b[i] as u32)
    }
}

} // verus!
