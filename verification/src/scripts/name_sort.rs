//! The order folders and files are listed in: by name, case-insensitively
//! (Unicode lowercase), ties broken by the exact name, so the order is total
//! and does not depend on the order S3 answered in.
use vstd::prelude::*;

use crate::api::{FileHttpModel, FolderHttpModel};
use crate::text;
use crate::text::{chars_le_exec, chars_of, lowercase, simple_lower};

verus! {

broadcast use vstd::seq_lib::group_to_multiset_ensures;

/// The key a name is sorted by: its Unicode lowercase form
/// (`str::to_lowercase`), spelled out character by character for names made
/// of characters of the simple case table.
pub open spec fn sort_key(s: Seq<char>) -> Seq<char> {
    if text::in_simple_case(s) {
        text::simple_lowercase(s)
    } else {
        text::unicode_lowercase(s)
    }
}

/// `a` is listed before `b`, or they have the same name: their lowercase
/// forms in code-point order, the names themselves when those are equal.
pub open spec fn name_le(a: Seq<char>, b: Seq<char>) -> bool {
    let la = sort_key(a);
    let lb = sort_key(b);
    text::chars_lt(la, lb) || (la == lb && text::chars_le(a, b))
}

/// An entry that is listed by its name.
pub trait Named {
    spec fn sort_name(&self) -> Seq<char>;

    fn name_text(&self) -> (r: &str)
        ensures
            r@ == self.sort_name(),
    ;
}

impl Named for FolderHttpModel {
    open spec fn sort_name(&self) -> Seq<char> {
        self.name@
    }

    fn name_text(&self) -> (r: &str) {
        self.name.as_str()
    }
}

impl Named for FileHttpModel {
    open spec fn sort_name(&self) -> Seq<char> {
        self.name@
    }

    fn name_text(&self) -> (r: &str) {
        self.name.as_str()
    }
}

/// The entries of `s` are in listing order.
pub open spec fn sorted_by_name<T: Named>(s: Seq<T>) -> bool {
    forall|i: int, j: int|
        #![trigger s[i], s[j]]
        0 <= i < j < s.len() ==> name_le(s[i].sort_name(), s[j].sort_name())
}

/// Listing order is total: of two names, one comes first or they are equal.
pub proof fn lemma_name_le_total(a: Seq<char>, b: Seq<char>)
    ensures
        name_le(a, b) || name_le(b, a),
{
    let la = sort_key(a);
    let lb = sort_key(b);
    text::lemma_chars_le_total(la, lb);
    text::lemma_chars_le_total(a, b);
}

/// Listing order is reflexive.
pub proof fn lemma_name_le_reflexive(a: Seq<char>)
    ensures
        name_le(a, a),
{
    text::lemma_chars_le_reflexive(a);
}

/// Listing order is transitive.
pub proof fn lemma_name_le_transitive(a: Seq<char>, b: Seq<char>, c: Seq<char>)
    requires
        name_le(a, b),
        name_le(b, c),
    ensures
        name_le(a, c),
{
    let la = sort_key(a);
    let lb = sort_key(b);
    let lc = sort_key(c);
    if la == lb && lb == lc {
        text::lemma_chars_le_transitive(a, b, c);
    } else {
        if text::chars_le(la, lb) && text::chars_le(lb, lc) {
            text::lemma_chars_le_transitive(la, lb, lc);
        }
        if la == lc {
            if text::chars_lt(la, lb) {
                text::lemma_chars_le_antisymmetric(lb, lc);
            } else {
                text::lemma_chars_le_antisymmetric(la, lb);
            }
        }
    }
}

/// Listing order is antisymmetric: ties on the lowercase form are broken by
/// the exact name, so only equal names are listed in either order.
pub proof fn lemma_name_le_antisymmetric(a: Seq<char>, b: Seq<char>)
    requires
        name_le(a, b),
        name_le(b, a),
    ensures
        a == b,
{
    let la = sort_key(a);
    let lb = sort_key(b);
    if text::chars_lt(la, lb) && text::chars_lt(lb, la) {
        text::lemma_chars_le_antisymmetric(la, lb);
    }
    if la == lb {
        text::lemma_chars_le_antisymmetric(a, b);
    }
}

/// The names of `s`, in order.
pub open spec fn names_of<T: Named>(s: Seq<T>) -> Seq<Seq<char>> {
    s.map_values(|t: T| t.sort_name())
}

/// The names of `s` are in listing order.
pub open spec fn names_in_order(s: Seq<Seq<char>>) -> bool {
    forall|i: int, j: int| #![trigger s[i], s[j]] 0 <= i < j < s.len() ==> name_le(s[i], s[j])
}

/// Listing order leaves no choice: two sequences of names in listing order
/// that hold the same names are the same sequence.
pub proof fn lemma_listing_order_is_unique(a: Seq<Seq<char>>, b: Seq<Seq<char>>)
    requires
        names_in_order(a),
        names_in_order(b),
        a.to_multiset() == b.to_multiset(),
    ensures
        a == b,
    decreases a.len(),
{
    vstd::seq_lib::to_multiset_len(a);
    vstd::seq_lib::to_multiset_len(b);
    if a.len() == 0 {
        assert(a =~= b);
    } else {
        let x = a[0];
        let y = b[0];
        vstd::seq_lib::to_multiset_contains(a, x);
        vstd::seq_lib::to_multiset_contains(b, x);
        vstd::seq_lib::to_multiset_contains(a, y);
        vstd::seq_lib::to_multiset_contains(b, y);
        assert(a.contains(x));
        assert(b.contains(y));
        let k = choose|k: int| 0 <= k < b.len() && b[k] == x;
        let m = choose|m: int| 0 <= m < a.len() && a[m] == y;
        lemma_name_le_reflexive(x);
        lemma_name_le_reflexive(y);
        if k > 0 {
            assert(name_le(b[0], b[k]));
        }
        if m > 0 {
            assert(name_le(a[0], a[m]));
        }
        lemma_name_le_antisymmetric(x, y);
        vstd::seq_lib::to_multiset_remove(a, 0);
        vstd::seq_lib::to_multiset_remove(b, 0);
        assert(a.remove(0) =~= a.drop_first());
        assert(b.remove(0) =~= b.drop_first());
        assert(names_in_order(a.drop_first())) by {
            assert forall|i: int, j: int| 0 <= i < j < a.drop_first().len() implies name_le(
                #[trigger] a.drop_first()[i],
                #[trigger] a.drop_first()[j],
            ) by {
                assert(name_le(a[i + 1], a[j + 1]));
            }
        }
        assert(names_in_order(b.drop_first())) by {
            assert forall|i: int, j: int| 0 <= i < j < b.drop_first().len() implies name_le(
                #[trigger] b.drop_first()[i],
                #[trigger] b.drop_first()[j],
            ) by {
                assert(name_le(b[i + 1], b[j + 1]));
            }
        }
        lemma_listing_order_is_unique(a.drop_first(), b.drop_first());
        assert(a =~= seq![x] + a.drop_first());
        assert(b =~= seq![y] + b.drop_first());
    }
}

/// Entries in listing order that hold the same names come in the same order
/// of names, whatever order they were given in.
pub proof fn lemma_sorted_names_are_determined<T: Named>(s1: Seq<T>, s2: Seq<T>)
    requires
        sorted_by_name(s1),
        sorted_by_name(s2),
        names_of(s1).to_multiset() == names_of(s2).to_multiset(),
    ensures
        names_of(s1) == names_of(s2),
{
    assert(names_in_order(names_of(s1))) by {
        assert forall|i: int, j: int| 0 <= i < j < names_of(s1).len() implies name_le(
            #[trigger] names_of(s1)[i],
            #[trigger] names_of(s1)[j],
        ) by {
            assert(name_le(s1[i].sort_name(), s1[j].sort_name()));
        }
    }
    assert(names_in_order(names_of(s2))) by {
        assert forall|i: int, j: int| 0 <= i < j < names_of(s2).len() implies name_le(
            #[trigger] names_of(s2)[i],
            #[trigger] names_of(s2)[j],
        ) by {
            assert(name_le(s2[i].sort_name(), s2[j].sort_name()));
        }
    }
    lemma_listing_order_is_unique(names_of(s1), names_of(s2));
}

/// The key `s` is sorted by. A name made of characters of the simple case
/// table is lowercased here, character by character; any other name goes
/// through `str::to_lowercase`.
fn sort_key_of(s: &str) -> (r: Vec<char>)
    ensures
        r@ == sort_key(s@),
{
    let cs = chars_of(s);
    let mut i: usize = 0;
    while i < cs.len()
        invariant
            cs@ == s@,
            i <= cs@.len(),
            forall|k: int| 0 <= k < i ==> text::in_simple_case_table(#[trigger] cs@[k]),
        decreases cs@.len() - i,
    {
        let u = cs[i] as u32;
        if !((u <= 0x17F && u != 0x130) || (0x384 <= u && u <= 0x3CE && u != 0x3A3) || (0x400 <= u
            && u <= 0x45F)) {
            assert(!text::in_simple_case_table(cs@[i as int]));
            let lowered = lowercase(s);
            return chars_of(lowered.as_str());
        }
        i = i + 1;
    }
    let mut r: Vec<char> = Vec::new();
    let mut j: usize = 0;
    while j < cs.len()
        invariant
            cs@ == s@,
            text::in_simple_case(s@),
            j <= cs@.len(),
            r@ == text::simple_lowercase(cs@.take(j as int)),
        decreases cs@.len() - j,
    {
        r.push(simple_lower(cs[j]));
        assert(cs@.take(j + 1) =~= cs@.take(j as int).push(cs@[j as int]));
        assert(r@ =~= text::simple_lowercase(cs@.take(j + 1)));
        j = j + 1;
    }
    assert(cs@.take(cs@.len() as int) =~= cs@);
    r
}

/// `a` is listed before `b` or has the same name.
pub fn name_le_exec(a: &str, b: &str) -> (r: bool)
    ensures
        r == name_le(a@, b@),
{
    let la = sort_key_of(a);
    let lb = sort_key_of(b);
    let le1 = chars_le_exec(&la, &lb);
    let le2 = chars_le_exec(&lb, &la);
    if le1 && le2 {
        proof {
            text::lemma_chars_le_antisymmetric(la@, lb@);
        }
        let ac = chars_of(a);
        let bc = chars_of(b);
        chars_le_exec(&ac, &bc)
    } else {
        proof {
            if la@ == lb@ {
                text::lemma_chars_le_reflexive(la@);
            }
        }
        le1
    }
}

/// The listing order is case-insensitive across scripts: of two names made
/// of characters of the simple case table (Latin, basic Greek and Cyrillic),
/// the one whose lowercase form comes first in code-point order is listed
/// first, whatever the case of either name. So `банан` comes before
/// `Яблоко`, since `б` (U+0431) comes before `я` (U+044F).
pub proof fn lemma_order_is_by_lowercase(a: Seq<char>, b: Seq<char>)
    requires
        text::in_simple_case(a),
        text::in_simple_case(b),
        text::chars_lt(text::simple_lowercase(a), text::simple_lowercase(b)),
    ensures
        name_le(a, b),
        !name_le(b, a),
{
    let la = text::simple_lowercase(a);
    let lb = text::simple_lowercase(b);
    if text::chars_le(lb, la) {
        text::lemma_chars_le_antisymmetric(la, lb);
    }
}

/// Names that differ only in case, in any script of the simple case table,
/// are equal before the tie-break: the exact names decide their order.
pub proof fn lemma_case_differences_tie(a: Seq<char>, b: Seq<char>)
    requires
        text::in_simple_case(a),
        text::in_simple_case(b),
        text::simple_lowercase(a) == text::simple_lowercase(b),
    ensures
        name_le(a, b) == text::chars_le(a, b),
{
}

/// An upper-case letter of the simple case table and its lower-case letter
/// have the same sort key: `A`/`a`, `Ä`/`ä`, `Ł`/`ł`, `Ω`/`ω`, `Я`/`я`.
pub proof fn lemma_letter_cases_share_a_key(c: char)
    requires
        text::in_simple_case_table(c),
    ensures
        text::in_simple_case_table(text::simple_lower_char(c)),
        sort_key(seq![c]) == sort_key(seq![text::simple_lower_char(c)]),
{
    let l = text::simple_lower_char(c);
    let u = c as u32;
    assert(text::in_simple_case_table(l));
    assert(text::simple_lower_char(l) == l);
    assert(text::in_simple_case(seq![c]));
    assert(text::in_simple_case(seq![l]));
    assert(text::simple_lowercase(seq![c]) =~= seq![l]);
    assert(text::simple_lowercase(seq![l]) =~= seq![l]);
}

/// Whether an entry is named `n`.
pub open spec fn has_name<T: Named>(n: Seq<char>) -> spec_fn(T) -> bool {
    |t: T| t.sort_name() == n
}

/// The entries of `s` named `n`, in the order of `s`.
pub open spec fn entries_named<T: Named>(s: Seq<T>, n: Seq<char>) -> Seq<T> {
    s.filter(has_name::<T>(n))
}

proof fn lemma_entries_named_push<T: Named>(s: Seq<T>, x: T, n: Seq<char>)
    ensures
        entries_named(s.push(x), n) == if x.sort_name() == n {
            entries_named(s, n).push(x)
        } else {
            entries_named(s, n)
        },
{
    s.lemma_filter_push(x, has_name::<T>(n));
}

proof fn lemma_no_entries_named<T: Named>(s: Seq<T>, n: Seq<char>)
    requires
        forall|k: int| 0 <= k < s.len() ==> (#[trigger] s[k]).sort_name() != n,
    ensures
        entries_named(s, n) == Seq::<T>::empty(),
{
    let p = has_name::<T>(n);
    if s.filter(p).len() > 0 {
        s.lemma_filter_pred(p, 0);
        s.lemma_filter_contains_rev(p, s.filter(p)[0]);
        let k = choose|k: int| 0 <= k < s.len() && s[k] == s.filter(p)[0];
        assert(s[k].sort_name() == n);
    }
    assert(s.filter(p) =~= Seq::<T>::empty());
}

/// `v` reversed.
fn reversed<T>(v: Vec<T>) -> (r: Vec<T>)
    ensures
        r@.len() == v@.len(),
        forall|k: int| 0 <= k < r@.len() ==> r@[k] == v@[v@.len() - 1 - k],
{
    let ghost orig = v@;
    let mut v = v;
    let mut r: Vec<T> = Vec::new();
    while v.len() > 0
        invariant
            v@ == orig.subrange(0, v@.len() as int),
            r@.len() + v@.len() == orig.len(),
            forall|k: int| 0 <= k < r@.len() ==> r@[k] == orig[orig.len() - 1 - k],
        decreases v@.len(),
    {
        let x = v.pop().unwrap();
        r.push(x);
    }
    r
}

/// Merges two sorted runs; on equal names the entries of `a` come first.
fn merge<T: Named>(a: Vec<T>, b: Vec<T>) -> (r: Vec<T>)
    requires
        sorted_by_name(a@),
        sorted_by_name(b@),
    ensures
        sorted_by_name(r@),
        r@.to_multiset() == a@.to_multiset().add(b@.to_multiset()),
        forall|n: Seq<char>| #[trigger]
            entries_named(r@, n) == entries_named(a@, n) + entries_named(b@, n),
{
    let ghost sa = a@;
    let ghost sb = b@;
    let mut ra = reversed(a);
    let mut rb = reversed(b);
    let mut out: Vec<T> = Vec::new();
    assert(sa.subrange(0, 0) =~= Seq::<T>::empty());
    assert(sb.subrange(0, 0) =~= Seq::<T>::empty());
    while ra.len() > 0 || rb.len() > 0
        invariant
            ra@.len() <= sa.len(),
            rb@.len() <= sb.len(),
            sorted_by_name(sa),
            sorted_by_name(sb),
            forall|k: int| 0 <= k < ra@.len() ==> ra@[k] == sa[sa.len() - 1 - k],
            forall|k: int| 0 <= k < rb@.len() ==> rb@[k] == sb[sb.len() - 1 - k],
            sorted_by_name(out@),
            out@.to_multiset() == sa.subrange(0, sa.len() - ra@.len()).to_multiset().add(
                sb.subrange(0, sb.len() - rb@.len()).to_multiset(),
            ),
            out@.len() > 0 ==> forall|k: int|
                sa.len() - ra@.len() <= k < sa.len() ==> name_le(
                    out@.last().sort_name(),
                    #[trigger] sa[k].sort_name(),
                ),
            out@.len() > 0 ==> forall|k: int|
                sb.len() - rb@.len() <= k < sb.len() ==> name_le(
                    out@.last().sort_name(),
                    #[trigger] sb[k].sort_name(),
                ),
            forall|n: Seq<char>| #[trigger]
                entries_named(out@, n) == entries_named(sa.subrange(0, sa.len() - ra@.len()), n)
                    + entries_named(sb.subrange(0, sb.len() - rb@.len()), n),
            forall|k: int, m: int|
                0 <= k < sb.len() - rb@.len() && sa.len() - ra@.len() <= m < sa.len()
                    ==> #[trigger] sb[k].sort_name() != #[trigger] sa[m].sort_name(),
        decreases ra@.len() + rb@.len(),
    {
        let ghost i = sa.len() - ra@.len();
        let ghost j = sb.len() - rb@.len();
        let take_a = if rb.len() == 0 {
            true
        } else if ra.len() == 0 {
            false
        } else {
            name_le_exec(ra[ra.len() - 1].name_text(), rb[rb.len() - 1].name_text())
        };
        let ghost old_out = out@;
        if take_a {
            let x = ra.pop().unwrap();
            assert(x == sa[i]);
            out.push(x);
            proof {
                assert(sa.subrange(0, i + 1) =~= sa.subrange(0, i).push(sa[i]));
                assert forall|n: Seq<char>| #[trigger] entries_named(out@, n) == entries_named(
                    sa.subrange(0, i + 1),
                    n,
                ) + entries_named(sb.subrange(0, j), n) by {
                    lemma_entries_named_push(old_out, x, n);
                    lemma_entries_named_push(sa.subrange(0, i), sa[i], n);
                    if x.sort_name() == n {
                        assert forall|k: int| 0 <= k < sb.subrange(0, j).len() implies (
                        #[trigger] sb.subrange(0, j)[k]).sort_name() != n by {
                            assert(sb.subrange(0, j)[k] == sb[k]);
                            assert(sb[k].sort_name() != sa[i].sort_name());
                        }
                        lemma_no_entries_named(sb.subrange(0, j), n);
                        assert(entries_named(sa.subrange(0, i), n).push(x) + Seq::<T>::empty()
                            =~= (entries_named(sa.subrange(0, i), n) + Seq::<T>::empty()).push(
                            x,
                        ));
                    }
                }
                assert forall|k: int| i + 1 <= k < sa.len() implies name_le(
                    out@.last().sort_name(),
                    #[trigger] sa[k].sort_name(),
                ) by {
                    assert(name_le(sa[i].sort_name(), sa[k].sort_name()));
                }
                assert forall|k: int| j <= k < sb.len() implies name_le(
                    out@.last().sort_name(),
                    #[trigger] sb[k].sort_name(),
                ) by {
                    assert(name_le(sa[i].sort_name(), sb[j].sort_name()));
                    if k > j {
                        assert(name_le(sb[j].sort_name(), sb[k].sort_name()));
                        lemma_name_le_transitive(
                            sa[i].sort_name(),
                            sb[j].sort_name(),
                            sb[k].sort_name(),
                        );
                    }
                }
            }
        } else {
            let x = rb.pop().unwrap();
            assert(x == sb[j]);
            out.push(x);
            proof {
                assert(sb.subrange(0, j + 1) =~= sb.subrange(0, j).push(sb[j]));
                assert forall|n: Seq<char>| #[trigger] entries_named(out@, n) == entries_named(
                    sa.subrange(0, i),
                    n,
                ) + entries_named(sb.subrange(0, j + 1), n) by {
                    lemma_entries_named_push(old_out, x, n);
                    lemma_entries_named_push(sb.subrange(0, j), sb[j], n);
                    if x.sort_name() == n {
                        assert((entries_named(sa.subrange(0, i), n) + entries_named(
                            sb.subrange(0, j),
                            n,
                        )).push(x) =~= entries_named(sa.subrange(0, i), n) + entries_named(
                            sb.subrange(0, j),
                            n,
                        ).push(x));
                    }
                }
                assert forall|k: int, m: int|
                    0 <= k < j + 1 && i <= m < sa.len() implies #[trigger] sb[k].sort_name()
                    != #[trigger] sa[m].sort_name() by {
                    if k == j && sb[k].sort_name() == sa[m].sort_name() {
                        if m > i {
                            assert(name_le(sa[i].sort_name(), sa[m].sort_name()));
                        } else {
                            lemma_name_le_reflexive(sa[i].sort_name());
                        }
                        assert(name_le(sa[i].sort_name(), sb[j].sort_name()));
                    }
                }
                assert forall|k: int| j + 1 <= k < sb.len() implies name_le(
                    out@.last().sort_name(),
                    #[trigger] sb[k].sort_name(),
                ) by {
                    assert(name_le(sb[j].sort_name(), sb[k].sort_name()));
                }
                assert forall|k: int| i <= k < sa.len() implies name_le(
                    out@.last().sort_name(),
                    #[trigger] sa[k].sort_name(),
                ) by {
                    lemma_name_le_total(sa[i].sort_name(), sb[j].sort_name());
                    assert(name_le(sb[j].sort_name(), sa[i].sort_name()));
                    if k > i {
                        assert(name_le(sa[i].sort_name(), sa[k].sort_name()));
                        lemma_name_le_transitive(
                            sb[j].sort_name(),
                            sa[i].sort_name(),
                            sa[k].sort_name(),
                        );
                    }
                }
            }
        }
        proof {
            let n = out@.len() - 1;
            assert forall|p: int, q: int| 0 <= p < q < out@.len() implies name_le(
                #[trigger] out@[p].sort_name(),
                #[trigger] out@[q].sort_name(),
            ) by {
                if q == n && p < n {
                    let last_old = old_out.last();
                    if p < n - 1 {
                        assert(name_le(old_out[p].sort_name(), last_old.sort_name()));
                        lemma_name_le_transitive(
                            old_out[p].sort_name(),
                            last_old.sort_name(),
                            out@[n].sort_name(),
                        );
                    }
                } else {
                    assert(out@[p] == old_out[p]);
                    assert(out@[q] == old_out[q]);
                }
            }
        }
    }
    assert(sa.subrange(0, sa.len() as int) =~= sa);
    assert(sb.subrange(0, sb.len() as int) =~= sb);
    out
}

/// Sorts `v` into listing order. The sort is stable: entries of the same
/// name keep the order they had in `v`.
pub fn sort_by_name<T: Named>(v: Vec<T>) -> (r: Vec<T>)
    ensures
        sorted_by_name(r@),
        r@.to_multiset() == v@.to_multiset(),
        forall|n: Seq<char>| #[trigger] entries_named(r@, n) == entries_named(v@, n),
    decreases v@.len(),
{
    if v.len() <= 1 {
        return v;
    }
    let ghost whole = v@;
    let mut left = v;
    let mid = left.len() / 2;
    let right = left.split_off(mid);
    proof {
        assert(whole =~= left@ + right@);
        vstd::seq_lib::lemma_multiset_commutative(left@, right@);
    }
    let ghost sl = left@;
    let ghost sr = right@;
    let l = sort_by_name(left);
    let r = sort_by_name(right);
    let out = merge(l, r);
    assert forall|n: Seq<char>| #[trigger] entries_named(out@, n) == entries_named(whole, n) by {
        Seq::filter_distributes_over_add(sl, sr, has_name::<T>(n));
    }
    out
}

} // verus!
