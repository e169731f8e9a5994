//! Lexicographic (code-point) order on strings, an executable comparison,
//! and an alphabetical sort for lists of strings.

use vstd::prelude::*;
use vstd::relations::{sorted_by, total_ordering};
use vstd::seq_lib::{lemma_multiset_commutative, lemma_sorted_unique};
use vstd::string::StrSliceExecFns;

verus! {

/// Lexicographic "less than or equal" on character sequences, comparing
/// characters by code point; a prefix comes before every extension of it.
pub open spec fn lex_leq(a: Seq<char>, b: Seq<char>) -> bool
    decreases a.len(),
{
    if a.len() == 0 {
        true
    } else if b.len() == 0 {
        false
    } else if a[0] == b[0] {
        lex_leq(a.drop_first(), b.drop_first())
    } else {
        (a[0] as u32) < (b[0] as u32)
    }
}

/// The canonical alphabetical (code-point order) reordering of a list of
/// character sequences.
pub open spec fn sorted_strings(s: Seq<Seq<char>>) -> Seq<Seq<char>> {
    s.sort_by(|a: Seq<char>, b: Seq<char>| lex_leq(a, b))
}

/// Every element comes no later than each element after it, alphabetically.
pub open spec fn lex_ascending(s: Seq<Seq<char>>) -> bool {
    forall|i: int, j: int| 0 <= i < j < s.len() ==> lex_leq(s[i], s[j])
}

pub proof fn lemma_lex_refl(a: Seq<char>)
    ensures
        lex_leq(a, a),
    decreases a.len(),
{
    if a.len() > 0 {
        lemma_lex_refl(a.drop_first());
    }
}

pub proof fn lemma_lex_antisym(a: Seq<char>, b: Seq<char>)
    requires
        lex_leq(a, b),
        lex_leq(b, a),
    ensures
        a == b,
    decreases a.len(),
{
    if a.len() == 0 {
        assert(b.len() == 0);
        assert(a =~= b);
    } else if a[0] == b[0] {
        lemma_lex_antisym(a.drop_first(), b.drop_first());
        assert(a =~= Seq::<char>::empty().push(a[0]) + a.drop_first());
        assert(b =~= Seq::<char>::empty().push(b[0]) + b.drop_first());
    }
}

pub proof fn lemma_lex_trans(a: Seq<char>, b: Seq<char>, c: Seq<char>)
    requires
        lex_leq(a, b),
        lex_leq(b, c),
    ensures
        lex_leq(a, c),
    decreases a.len(),
{
    if a.len() > 0 && b.len() > 0 && c.len() > 0 {
        if a[0] == b[0] && b[0] == c[0] {
            lemma_lex_trans(a.drop_first(), b.drop_first(), c.drop_first());
        }
    }
}

pub proof fn lemma_lex_connected(a: Seq<char>, b: Seq<char>)
    ensures
        lex_leq(a, b) || lex_leq(b, a),
    decreases a.len(),
{
    if a.len() > 0 && b.len() > 0 {
        if a[0] == b[0] {
            lemma_lex_connected(a.drop_first(), b.drop_first());
        } else {
            vstd::utf8::char_u32_cast(a[0], a[0] as u32);
            vstd::utf8::char_u32_cast(b[0], b[0] as u32);
            assert((a[0] as u32) != (b[0] as u32));
        }
    }
}

/// Code-point order on character sequences is a total order.
pub proof fn lemma_lex_total_ordering()
    ensures
        total_ordering(|a: Seq<char>, b: Seq<char>| lex_leq(a, b)),
{
    let leq = |a: Seq<char>, b: Seq<char>| lex_leq(a, b);
    assert forall|a: Seq<char>| #[trigger] leq(a, a) by {
        lemma_lex_refl(a);
    }
    assert forall|a: Seq<char>, b: Seq<char>| #[trigger] leq(a, b) && #[trigger] leq(b, a)
        implies a == b by {
        lemma_lex_antisym(a, b);
    }
    assert forall|a: Seq<char>, b: Seq<char>, c: Seq<char>|
        #[trigger] leq(a, b) && #[trigger] leq(b, c) implies leq(a, c) by {
        lemma_lex_trans(a, b, c);
    }
    assert forall|a: Seq<char>, b: Seq<char>| #[trigger] leq(a, b) || #[trigger] leq(b, a) by {
        lemma_lex_connected(a, b);
    }
}

/// A skipped common prefix does not change how two sequences compare.
proof fn lemma_lex_skip(a: Seq<char>, b: Seq<char>, i: int)
    requires
        0 <= i <= a.len(),
        i <= b.len(),
        forall|k: int| 0 <= k < i ==> a[k] == b[k],
    ensures
        lex_leq(a, b) == lex_leq(a.skip(i), b.skip(i)),
    decreases i,
{
    if i == 0 {
        assert(a.skip(0) =~= a);
        assert(b.skip(0) =~= b);
    } else {
        assert(a.len() > 0 && b.len() > 0 && a[0] == b[0]);
        assert(forall|k: int| 0 <= k < i - 1 ==> a.drop_first()[k] == b.drop_first()[k]);
        lemma_lex_skip(a.drop_first(), b.drop_first(), i - 1);
        assert(a.drop_first().skip(i - 1) =~= a.skip(i));
        assert(b.drop_first().skip(i - 1) =~= b.skip(i));
    }
}

/// Does `a` come no later than `b` in code-point order?
pub fn str_leq(a: &str, b: &str) -> (r: bool)
    ensures
        r == lex_leq(a@, b@),
{
    let a_len = a.unicode_len();
    let b_len = b.unicode_len();
    let mut i: usize = 0;
    while i < a_len && i < b_len
        invariant
            0 <= i <= a@.len(),
            i <= b@.len(),
            a_len == a@.len(),
            b_len == b@.len(),
            forall|k: int| 0 <= k < i ==> a@[k] == b@[k],
        decreases a@.len() - i,
    {
        let ca = a.get_char(i);
        let cb = b.get_char(i);
        if ca != cb {
            proof {
                lemma_lex_skip(a@, b@, i as int);
                assert(a@.skip(i as int)[0] == a@[i as int]);
                assert(b@.skip(i as int)[0] == b@[i as int]);
            }
            return (ca as u32) < (cb as u32);
        }
        i = i + 1;
    }
    proof {
        lemma_lex_skip(a@, b@, i as int);
        if a@.len() <= b@.len() {
            assert(i == a@.len());
            assert(a@.skip(i as int).len() == 0);
        } else {
            assert(i == b@.len());
            assert(b@.skip(i as int).len() == 0);
            assert(a@.skip(i as int).len() > 0);
        }
    }
    a_len <= b_len
}

/// Sorting a list of strings neither adds nor removes any string.
pub proof fn lemma_sorted_strings_contains(s: Seq<Seq<char>>, x: Seq<char>)
    ensures
        sorted_strings(s).contains(x) <==> s.contains(x),
{
    broadcast use vstd::seq_lib::group_to_multiset_ensures;

    let leq = |a: Seq<char>, b: Seq<char>| lex_leq(a, b);
    lemma_lex_total_ordering();
    s.lemma_sort_by_ensures(leq);
    assert(s.contains(x) <==> s.to_multiset().count(x) > 0);
    assert(sorted_strings(s).contains(x) <==> sorted_strings(s).to_multiset().count(x) > 0);
}

/// Sorting a list of distinct strings keeps them distinct.
pub proof fn lemma_sorted_strings_no_duplicates(s: Seq<Seq<char>>)
    requires
        s.no_duplicates(),
    ensures
        sorted_strings(s).no_duplicates(),
{
    broadcast use vstd::seq_lib::group_to_multiset_ensures;

    let leq = |a: Seq<char>, b: Seq<char>| lex_leq(a, b);
    lemma_lex_total_ordering();
    s.lemma_sort_by_ensures(leq);
    s.lemma_multiset_has_no_duplicates();
    sorted_strings(s).lemma_multiset_has_no_duplicates_conv();
}

proof fn lemma_insert_multiset_strs(s: Seq<Seq<char>>, pos: int, elt: Seq<char>)
    requires
        0 <= pos <= s.len(),
    ensures
        s.insert(pos, elt).to_multiset() =~= s.to_multiset().insert(elt),
{
    broadcast use vstd::seq_lib::group_to_multiset_ensures;

    let left = s.subrange(0, pos);
    let right = s.subrange(pos, s.len() as int);
    lemma_multiset_commutative(left.push(elt), right);
    lemma_multiset_commutative(left, right);
    assert(s =~= left + right);
}

/// An alphabetical (code-point order) copy of the list of strings.
pub fn sort_strings(v: &Vec<String>) -> (r: Vec<String>)
    ensures
        r.deep_view() == sorted_strings(v.deep_view()),
{
    let ghost leq = |a: Seq<char>, b: Seq<char>| lex_leq(a, b);
    let mut r: Vec<String> = Vec::new();
    let mut i: usize = 0;
    proof {
        assert(v.deep_view().take(0) =~= Seq::<Seq<char>>::empty());
        assert(r.deep_view() =~= Seq::<Seq<char>>::empty());
    }
    while i < v.len()
        invariant
            0 <= i <= v@.len(),
            r@.len() == i,
            r.deep_view().to_multiset() == v.deep_view().take(i as int).to_multiset(),
            lex_ascending(r.deep_view()),
        decreases v@.len() - i,
    {
        broadcast use vstd::seq_lib::group_to_multiset_ensures;

        let x: String = v[i].clone();
        let mut j: usize = 0;
        while j < r.len() && str_leq(r[j].as_str(), x.as_str())
            invariant
                0 <= j <= r@.len(),
                x@ == v.deep_view()[i as int],
                i < v@.len(),
                forall|k: int| 0 <= k < j ==> lex_leq(r.deep_view()[k], x@),
                lex_ascending(r.deep_view()),
            decreases r@.len() - j,
        {
            j = j + 1;
        }
        let ghost prev = r.deep_view();
        let ghost prev_strs = r@;
        r.insert(j, x);
        proof {
            prev_strs.insert_ensures(j as int, x);
            prev.insert_ensures(j as int, x@);
            assert(r.deep_view() =~= prev.insert(j as int, x@));
            lemma_insert_multiset_strs(prev, j as int, x@);
            assert(v.deep_view().take(i as int).push(x@) =~= v.deep_view().take(i as int + 1));
            let cur = r.deep_view();
            assert forall|a: int, b: int| 0 <= a < b < cur.len() implies lex_leq(
                cur[a],
                cur[b],
            ) by {
                if a == j {
                    assert(cur[b] == prev[b - 1]);
                    assert(!lex_leq(prev[j as int], x@));
                    lemma_lex_connected(x@, prev[j as int]);
                    if j < b - 1 {
                        assert(lex_leq(prev[j as int], prev[b - 1]));
                        lemma_lex_trans(x@, prev[j as int], prev[b - 1]);
                    }
                } else if b == j {
                    assert(cur[a] == prev[a]);
                    assert(lex_leq(prev[a], x@));
                } else if a < j && j < b {
                    assert(cur[a] == prev[a]);
                    assert(cur[b] == prev[b - 1]);
                    assert(lex_leq(prev[a], prev[b - 1]));
                } else if b < j {
                    assert(cur[a] == prev[a] && cur[b] == prev[b]);
                } else {
                    assert(cur[a] == prev[a - 1] && cur[b] == prev[b - 1]);
                    assert(lex_leq(prev[a - 1], prev[b - 1]));
                }
            }
        }
        i = i + 1;
    }
    proof {
        assert(v.deep_view().take(v@.len() as int) =~= v.deep_view());
        assert(sorted_by(r.deep_view(), leq)) by {
            assert forall|a: int, b: int| 0 <= a < b < r.deep_view().len() implies leq(
                r.deep_view()[a],
                r.deep_view()[b],
            ) by {
                assert(lex_leq(r.deep_view()[a], r.deep_view()[b]));
            }
        }
        lemma_lex_total_ordering();
        v.deep_view().lemma_sort_by_ensures(leq);
        lemma_sorted_unique(r.deep_view(), v.deep_view().sort_by(leq), leq);
    }
    r
}

} // verus!
