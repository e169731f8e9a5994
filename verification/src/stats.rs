//! Descriptive statistics over a list of integers: exact mean (as a
//! sum/length pair), median (upper-middle element of the sorted list), and
//! mode (all values of maximal frequency).

use vstd::prelude::*;
use vstd::relations::sorted_by;
use vstd::seq_lib::{lemma_multiset_commutative, lemma_sorted_unique};

use crate::StatsError;

verus! {

/// The exact sum of a sequence of integers.
pub open spec fn sum_int(s: Seq<i32>) -> int
    decreases s.len(),
{
    if s.len() == 0 {
        0
    } else {
        sum_int(s.drop_last()) + s.last()
    }
}

/// How many positions of `s` hold the value `x`.
pub open spec fn occurrences(s: Seq<i32>, x: i32) -> nat
    decreases s.len(),
{
    if s.len() == 0 {
        0
    } else {
        occurrences(s.drop_last(), x) + if s.last() == x {
            1nat
        } else {
            0nat
        }
    }
}

/// `x` is a mode of `s`: it occurs in `s`, and no value occurs more often.
pub open spec fn is_mode(s: Seq<i32>, x: i32) -> bool {
    s.contains(x) && forall|y: i32| s.contains(y) ==> occurrences(s, y) <= occurrences(s, x)
}

/// The canonical ascending reordering of `s`.
pub open spec fn sorted_version(s: Seq<i32>) -> Seq<i32> {
    s.sort_by(|x: i32, y: i32| x <= y)
}

/// The sequence never decreases from one position to a later one.
pub open spec fn is_ascending(s: Seq<i32>) -> bool {
    forall|a: int, b: int| 0 <= a < b < s.len() ==> s[a] <= s[b]
}

/// The sum of every element of the list, exactly.
///
/// The mean of the list is this sum divided by the length; the division is
/// left to the caller so that it can be carried out in whatever numeric
/// domain it needs.
pub fn sum(v: &Vec<i32>) -> (r: i128)
    ensures
        r == sum_int(v@),
{
    let mut total: i128 = 0;
    let mut i: usize = 0;
    while i < v.len()
        invariant
            0 <= i <= v@.len(),
            total == sum_int(v@.take(i as int)),
            -0x8000_0000 * (i as int) <= total <= 0x8000_0000 * (i as int),
        decreases v@.len() - i,
    {
        proof {
            assert(v@.take(i as int + 1).drop_last() =~= v@.take(i as int));
            assert(v@.take(i as int + 1).last() == v@[i as int]);
        }
        total = total + v[i] as i128;
        i = i + 1;
    }
    proof {
        assert(v@.take(v@.len() as int) =~= v@);
    }
    total
}

/// The mean of the list, as an exact fraction: the sum of the elements paired
/// with their count.  Empty input is rejected, since the mean of nothing is
/// undefined.
pub fn mean_ratio(v: &Vec<i32>) -> (r: Result<(i128, usize), StatsError>)
    ensures
        r is Ok <==> v@.len() > 0,
        v@.len() == 0 ==> r == Err::<(i128, usize), StatsError>(StatsError::EmptyInput),
        r matches Ok(p) ==> p.0 == sum_int(v@) && p.1 == v@.len(),
{
    if v.len() == 0 {
        Err(StatsError::EmptyInput)
    } else {
        let s = sum(v);
        Ok((s, v.len()))
    }
}

proof fn lemma_insert_multiset(s: Seq<i32>, pos: int, elt: i32)
    requires
        0 <= pos <= s.len(),
    ensures
        s.insert(pos, elt).to_multiset() =~= s.to_multiset().insert(elt),
{
    broadcast use vstd::seq_lib::group_to_multiset_ensures;

    let left = s.subrange(0, pos);
    let right = s.subrange(pos, s.len() as int);
    lemma_multiset_commutative(left.push(elt), right);
    lemma_multiset_commutative(left, right);
    assert(s =~= left + right);
}

/// An ascending copy of the list; the list itself is not changed.
pub fn sorted_copy(v: &Vec<i32>) -> (r: Vec<i32>)
    ensures
        r@ == sorted_version(v@),
{
    let ghost leq = |x: i32, y: i32| x <= y;
    let mut r: Vec<i32> = Vec::new();
    let mut i: usize = 0;
    proof {
        assert(v@.take(0) =~= Seq::<i32>::empty());
    }
    while i < v.len()
        invariant
            0 <= i <= v@.len(),
            r@.len() == i,
            r@.to_multiset() == v@.take(i as int).to_multiset(),
            is_ascending(r@),
        decreases v@.len() - i,
    {
        broadcast use vstd::seq_lib::group_to_multiset_ensures;

        let x = v[i];
        let mut j: usize = 0;
        while j < r.len() && r[j] <= x
            invariant
                0 <= j <= r@.len(),
                forall|k: int| 0 <= k < j ==> r@[k] <= x,
                is_ascending(r@),
            decreases r@.len() - j,
        {
            j = j + 1;
        }
        let ghost prev = r@;
        r.insert(j, x);
        proof {
            prev.insert_ensures(j as int, x);
            lemma_insert_multiset(prev, j as int, x);
            assert(v@.take(i as int).push(x) =~= v@.take(i as int + 1));
            assert forall|a: int, b: int| 0 <= a < b < r@.len() implies r@[a] <= r@[b] by {
                if a == j {
                    assert(r@[b] == prev[b - 1]);
                    assert(prev[j as int] > x);
                    if j < b - 1 {
                        assert(prev[j as int] <= prev[b - 1]);
                    }
                } else if b == j {
                    assert(r@[a] == prev[a]);
                    assert(prev[a] <= x);
                } else if a < j && j < b {
                    assert(r@[a] == prev[a]);
                    assert(r@[b] == prev[b - 1]);
                    assert(prev[a] <= prev[b - 1]);
                } else if b < j {
                    assert(r@[a] == prev[a] && r@[b] == prev[b]);
                } else {
                    assert(r@[a] == prev[a - 1] && r@[b] == prev[b - 1]);
                    assert(prev[a - 1] <= prev[b - 1]);
                }
            }
        }
        i = i + 1;
    }
    proof {
        assert(v@.take(v@.len() as int) =~= v@);
        assert(sorted_by(r@, leq)) by {
            assert forall|a: int, b: int| 0 <= a < b < r@.len() implies leq(r@[a], r@[b]) by {
                assert(r@[a] <= r@[b]);
            }
        }
        v@.lemma_sort_by_ensures(leq);
        lemma_sorted_unique(r@, v@.sort_by(leq), leq);
    }
    r
}

/// The median: the element at position `len / 2` (integer division) of the
/// ascending reordering of the list.  For a list of even length this is the
/// upper of the two middle elements.  Empty input is rejected.
pub fn median(v: &Vec<i32>) -> (r: Result<i32, StatsError>)
    ensures
        r is Ok <==> v@.len() > 0,
        v@.len() == 0 ==> r == Err::<i32, StatsError>(StatsError::EmptyInput),
        v@.len() > 0 ==> r == Ok::<i32, StatsError>(sorted_version(v@)[v@.len() as int / 2]),
{
    if v.len() == 0 {
        return Err(StatsError::EmptyInput);
    }
    let sorted = sorted_copy(v);
    proof {
        broadcast use vstd::seq_lib::group_to_multiset_ensures;

        v@.lemma_sort_by_ensures(|x: i32, y: i32| x <= y);
        assert(sorted@.len() == sorted@.to_multiset().len());
        assert(v@.len() == v@.to_multiset().len());
    }
    Ok(sorted[v.len() / 2])
}

/// How many times `x` occurs in the list.
pub fn count_occurrences(v: &Vec<i32>, x: i32) -> (c: usize)
    ensures
        c == occurrences(v@, x),
{
    let mut c: usize = 0;
    let mut i: usize = 0;
    while i < v.len()
        invariant
            0 <= i <= v@.len(),
            c == occurrences(v@.take(i as int), x),
            c <= i,
        decreases v@.len() - i,
    {
        proof {
            assert(v@.take(i as int + 1).drop_last() =~= v@.take(i as int));
            assert(v@.take(i as int + 1).last() == v@[i as int]);
        }
        if v[i] == x {
            c = c + 1;
        }
        i = i + 1;
    }
    proof {
        assert(v@.take(v@.len() as int) =~= v@);
    }
    c
}

/// The largest frequency with which any value occurs in the (non-empty) list.
fn max_frequency(v: &Vec<i32>) -> (m: usize)
    requires
        v@.len() > 0,
    ensures
        exists|x: i32| v@.contains(x) && occurrences(v@, x) == m,
        forall|x: i32| v@.contains(x) ==> occurrences(v@, x) <= m,
{
    let mut m: usize = count_occurrences(v, v[0]);
    let mut i: usize = 1;
    while i < v.len()
        invariant
            1 <= i <= v@.len(),
            exists|j: int| 0 <= j < i && occurrences(v@, v@[j]) == m,
            forall|j: int| 0 <= j < i ==> occurrences(v@, #[trigger] v@[j]) <= m,
        decreases v@.len() - i,
    {
        let c = count_occurrences(v, v[i]);
        if c > m {
            m = c;
        }
        i = i + 1;
    }
    m
}

/// Does the list contain the value `x`?
fn vec_contains(v: &Vec<i32>, x: i32) -> (r: bool)
    ensures
        r == v@.contains(x),
{
    let mut i: usize = 0;
    while i < v.len()
        invariant
            0 <= i <= v@.len(),
            forall|j: int| 0 <= j < i ==> v@[j] != x,
        decreases v@.len() - i,
    {
        if v[i] == x {
            return true;
        }
        i = i + 1;
    }
    false
}

/// The modes of the list: every value whose frequency equals the maximum
/// frequency, each listed once, and nothing of lower frequency.  Empty input
/// is rejected.
pub fn mode(v: &Vec<i32>) -> (r: Result<Vec<i32>, StatsError>)
    ensures
        r is Ok <==> v@.len() > 0,
        v@.len() == 0 ==> r == Err::<Vec<i32>, StatsError>(StatsError::EmptyInput),
        r matches Ok(ms) ==> {
            &&& forall|x: i32| ms@.contains(x) <==> is_mode(v@, x)
            &&& ms@.no_duplicates()
            &&& ms@.len() > 0
        },
{
    if v.len() == 0 {
        return Err(StatsError::EmptyInput);
    }
    let m = max_frequency(v);
    let mut ms: Vec<i32> = Vec::new();
    let mut i: usize = 0;
    while i < v.len()
        invariant
            0 <= i <= v@.len(),
            exists|x: i32| v@.contains(x) && occurrences(v@, x) == m,
            forall|x: i32| v@.contains(x) ==> occurrences(v@, x) <= m,
            forall|x: i32|
                #[trigger] ms@.contains(x) <==> (v@.take(i as int).contains(x) && occurrences(
                    v@,
                    x,
                ) == m),
            ms@.no_duplicates(),
        decreases v@.len() - i,
    {
        let x = v[i];
        let ghost before = ms@;
        if count_occurrences(v, x) == m && !vec_contains(&ms, x) {
            ms.push(x);
            proof {
                assert(v@.take(i as int + 1).contains(x)) by {
                    assert(v@.take(i as int + 1)[i as int] == x);
                }
                assert forall|y: i32| #[trigger] ms@.contains(y) implies (before.contains(y) || y
                    == x) by {
                    let k = choose|k: int| 0 <= k < ms@.len() && ms@[k] == y;
                    if k < before.len() {
                        assert(before[k] == y);
                    }
                }
                assert(ms@.no_duplicates()) by {
                    assert(forall|k: int| 0 <= k < before.len() ==> ms@[k] == before[k]);
                }
                assert(ms@.contains(x)) by {
                    assert(ms@[before.len() as int] == x);
                }
                assert(forall|y: i32| before.contains(y) ==> #[trigger] ms@.contains(y)) by {
                    assert(forall|k: int| 0 <= k < before.len() ==> ms@[k] == before[k]);
                }
            }
        }
        proof {
            assert forall|y: i32| #[trigger] v@.take(i as int + 1).contains(y) implies (
            v@.take(i as int).contains(y) || y == x) by {
                let k = choose|k: int| 0 <= k < i + 1 && #[trigger] v@.take(i as int + 1)[k] == y;
                if k < i {
                    assert(v@.take(i as int)[k] == y);
                }
            }
            assert forall|y: i32| #[trigger] v@.take(i as int).contains(y) implies v@.take(
                i as int + 1,
            ).contains(y) by {
                let k = choose|k: int| 0 <= k < i && #[trigger] v@.take(i as int)[k] == y;
                assert(v@.take(i as int + 1)[k] == y);
            }
        }
        i = i + 1;
    }
    proof {
        assert(v@.take(v@.len() as int) =~= v@);
        let w = choose|x: i32| v@.contains(x) && occurrences(v@, x) == m;
        assert(ms@.contains(w));
        assert forall|x: i32| #[trigger] ms@.contains(x) implies is_mode(v@, x) by {
            assert(occurrences(v@, x) == m);
        }
        assert forall|x: i32| is_mode(v@, x) implies ms@.contains(x) by {
            assert(occurrences(v@, w) <= occurrences(v@, x));
        }
    }
    Ok(ms)
}

} // verus!
