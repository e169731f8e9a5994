//! In-memory employee directory: each name is mapped to exactly one
//! department; adding an existing name overwrites its department.  Queries
//! return one department's members, or the whole company grouped by
//! department, with every member list alphabetically sorted.

use vstd::prelude::*;
use vstd::pervasive::VecAdditionalExecFns;

use crate::strutil::{sort_strings, sorted_strings};

verus! {

/// One directory entry as the specification sees it: (name, department).
pub type EntryView = (Seq<char>, Seq<char>);

/// No two entries share a name.
pub open spec fn unique_names(s: Seq<EntryView>) -> bool {
    forall|i: int, j: int| 0 <= i < j < s.len() ==> (#[trigger] s[i]).0 != (#[trigger] s[j]).0
}

/// Some entry carries this name.
pub open spec fn has_name(s: Seq<EntryView>, name: Seq<char>) -> bool {
    exists|i: int| 0 <= i < s.len() && (#[trigger] s[i]).0 == name
}

/// The index of the entry carrying this name (unique when names are unique).
pub open spec fn name_index(s: Seq<EntryView>, name: Seq<char>) -> int {
    choose|i: int| 0 <= i < s.len() && (#[trigger] s[i]).0 == name
}

/// The department recorded for this name.
pub open spec fn dept_of(s: Seq<EntryView>, name: Seq<char>) -> Seq<char> {
    s[name_index(s, name)].1
}

/// The names recorded under the given department, in entry order.
pub open spec fn members_of(s: Seq<EntryView>, dept: Seq<char>) -> Seq<Seq<char>> {
    s.filter(|e: EntryView| e.1 == dept).map_values(|e: EntryView| e.0)
}

/// The distinct departments, each at the position of its first appearance.
pub open spec fn departments(s: Seq<EntryView>) -> Seq<Seq<char>>
    decreases s.len(),
{
    if s.len() == 0 {
        Seq::empty()
    } else {
        let prior = departments(s.drop_last());
        if prior.contains(s.last().1) {
            prior
        } else {
            prior.push(s.last().1)
        }
    }
}

/// A name is a member of a department exactly when an entry pairs the two.
pub proof fn lemma_members_contains(s: Seq<EntryView>, d: Seq<char>, n: Seq<char>)
    ensures
        members_of(s, d).contains(n) <==> exists|i: int|
            0 <= i < s.len() && #[trigger] s[i] == ((n, d)),
    decreases s.len(),
{
    reveal(Seq::filter);
    let pred = |e: EntryView| e.1 == d;
    if s.len() == 0 {
        assert(!members_of(s, d).contains(n)) by {
            assert(members_of(s, d).len() == 0);
        }
    } else {
        let butlast = s.drop_last();
        lemma_members_contains(butlast, d, n);
        let prior = members_of(butlast, d);
        if pred(s.last()) {
            assert(members_of(s, d) =~= prior.push(s.last().0));
            if members_of(s, d).contains(n) {
                let k = choose|k: int|
                    0 <= k < members_of(s, d).len() && members_of(s, d)[k] == n;
                if k < prior.len() {
                    assert(prior[k] == n);
                    let i = choose|i: int| 0 <= i < butlast.len() && #[trigger] butlast[i] == ((
                    n,
                    d,
                    ));
                    assert(s[i] == ((n, d)));
                } else {
                    assert(s.last() == ((n, d)));
                    assert(s[s.len() - 1] == ((n, d)));
                }
            }
            if exists|i: int| 0 <= i < s.len() && #[trigger] s[i] == ((n, d)) {
                let i = choose|i: int| 0 <= i < s.len() && #[trigger] s[i] == ((n, d));
                if i < s.len() - 1 {
                    assert(butlast[i] == ((n, d)));
                    assert(prior.contains(n));
                    let k = choose|k: int| 0 <= k < prior.len() && prior[k] == n;
                    assert(members_of(s, d)[k] == n);
                } else {
                    assert(members_of(s, d)[prior.len() as int] == n);
                }
            }
        } else {
            assert(members_of(s, d) =~= prior);
            if exists|i: int| 0 <= i < s.len() && #[trigger] s[i] == ((n, d)) {
                let i = choose|i: int| 0 <= i < s.len() && #[trigger] s[i] == ((n, d));
                assert(i < s.len() - 1);
                assert(butlast[i] == ((n, d)));
            }
        }
    }
}

/// When no name is recorded twice, no department lists a name twice.
pub proof fn lemma_members_unique(s: Seq<EntryView>, d: Seq<char>)
    requires
        unique_names(s),
    ensures
        members_of(s, d).no_duplicates(),
    decreases s.len(),
{
    reveal(Seq::filter);
    if s.len() == 0 {
        assert(members_of(s, d) =~= Seq::<Seq<char>>::empty());
    } else {
        let butlast = s.drop_last();
        assert(unique_names(butlast));
        lemma_members_unique(butlast, d);
        let prior = members_of(butlast, d);
        if s.last().1 == d {
            assert(members_of(s, d) =~= prior.push(s.last().0));
            if prior.contains(s.last().0) {
                lemma_members_contains(butlast, d, s.last().0);
                let i = choose|i: int|
                    0 <= i < butlast.len() && #[trigger] butlast[i] == ((s.last().0, d));
                assert(s[i].0 == s[s.len() - 1].0);
                assert(false);
            }
            assert forall|a: int, b: int|
                0 <= a < b < members_of(s, d).len() implies members_of(s, d)[a] != members_of(
                s,
                d,
            )[b] by {
                if b < prior.len() {
                    assert(prior[a] != prior[b]);
                } else {
                    assert(members_of(s, d)[b] == s.last().0);
                    assert(members_of(s, d)[a] == prior[a]);
                    assert(prior.contains(prior[a]));
                }
            }
        } else {
            assert(members_of(s, d) =~= prior);
        }
    }
}

/// The grouped listing names each department once.
pub proof fn lemma_departments_no_duplicates(s: Seq<EntryView>)
    ensures
        departments(s).no_duplicates(),
    decreases s.len(),
{
    if s.len() > 0 {
        lemma_departments_no_duplicates(s.drop_last());
        let prior = departments(s.drop_last());
        if !prior.contains(s.last().1) {
            assert forall|a: int, b: int|
                0 <= a < b < departments(s).len() implies departments(s)[a] != departments(
                s,
            )[b] by {
                if b < prior.len() {
                    assert(prior[a] != prior[b]);
                } else {
                    assert(departments(s)[b] == s.last().1);
                    assert(departments(s)[a] == prior[a]);
                    assert(prior.contains(prior[a]));
                }
            }
        }
    }
}

/// An employee directory.  Entries are kept in the order names were first
/// added; a name occurs at most once.
pub struct Directory {
    entries: Vec<(String, String)>,
}

impl View for Directory {
    type V = Seq<EntryView>;

    closed spec fn view(&self) -> Seq<EntryView> {
        self.entries.deep_view()
    }
}

impl Directory {
    /// The directory is well formed: no name is recorded twice.
    pub open spec fn wf(&self) -> bool {
        unique_names(self@)
    }

    /// An empty directory.
    pub fn new() -> (d: Directory)
        ensures
            d@ == Seq::<EntryView>::empty(),
            d.wf(),
    {
        let d = Directory { entries: Vec::new() };
        proof {
            assert(d@ =~= Seq::<EntryView>::empty());
        }
        d
    }

    /// How many names are recorded.
    pub fn len(&self) -> (n: usize)
        ensures
            n == self@.len(),
    {
        self.entries.len()
    }

    /// The position of the entry with the given name, if any.
    fn find_name(&self, name: &String) -> (r: Option<usize>)
        ensures
            match r {
                Some(i) => 0 <= i < self@.len() && self@[i as int].0 == name@,
                None => !has_name(self@, name@),
            },
    {
        let mut i: usize = 0;
        while i < self.entries.len()
            invariant
                0 <= i <= self@.len(),
                self@.len() == self.entries@.len(),
                forall|j: int| 0 <= j < i ==> (#[trigger] self@[j]).0 != name@,
            decreases self@.len() - i,
        {
            if self.entries[i].0 == *name {
                return Some(i);
            }
            i = i + 1;
        }
        None
    }

    /// Record `name` under `department`.  A new name is appended; a name
    /// already present keeps its position and gets the new department.
    pub fn add(&mut self, name: String, department: String)
        requires
            old(self).wf(),
        ensures
            final(self).wf(),
            has_name(old(self)@, name@) ==> final(self)@ == old(self)@.update(
                name_index(old(self)@, name@),
                (name@, department@),
            ),
            !has_name(old(self)@, name@) ==> final(self)@ == old(self)@.push(
                (name@, department@),
            ),
    {
        let ghost pre = self@;
        match self.find_name(&name) {
            Some(i) => {
                proof {
                    use_index_for_name(pre, name@, i as int);
                }
                self.entries.set(i, (name, department));
                proof {
                    assert(self@ =~= pre.update(i as int, (name@, department@)));
                }
            },
            None => {
                self.entries.push((name, department));
                proof {
                    assert(self@ =~= pre.push((name@, department@)));
                    assert forall|a: int, b: int| 0 <= a < b < self@.len() implies (
                    #[trigger] self@[a]).0 != (#[trigger] self@[b]).0 by {
                        if b == self@.len() - 1 {
                            assert(pre[a].0 != name@);
                        }
                    }
                }
            },
        }
    }

    /// The department recorded for `name`, if any.
    pub fn department_of(&self, name: &String) -> (r: Option<String>)
        requires
            self.wf(),
        ensures
            r is Some <==> has_name(self@, name@),
            r matches Some(d) ==> d@ == dept_of(self@, name@),
    {
        match self.find_name(name) {
            Some(i) => {
                proof {
                    use_index_for_name(self@, name@, i as int);
                }
                Some(self.entries[i].1.clone())
            },
            None => None,
        }
    }

    /// All names recorded under `department`, alphabetically sorted; under a
    /// well-formed directory no name is listed twice.
    pub fn department_list(&self, department: &String) -> (r: Vec<String>)
        ensures
            r.deep_view() == sorted_strings(members_of(self@, department@)),
            self.wf() ==> r.deep_view().no_duplicates(),
    {
        proof {
            if self.wf() {
                lemma_members_unique(self@, department@);
                crate::strutil::lemma_sorted_strings_no_duplicates(
                    members_of(self@, department@),
                );
            }
        }
        let mut names: Vec<String> = Vec::new();
        let mut i: usize = 0;
        proof {
            reveal(Seq::filter);
            assert(self@.take(0) =~= Seq::<EntryView>::empty());
            assert(names.deep_view() =~= members_of(self@.take(0), department@));
        }
        while i < self.entries.len()
            invariant
                0 <= i <= self@.len(),
                self@.len() == self.entries@.len(),
                names.deep_view() == members_of(self@.take(i as int), department@),
            decreases self@.len() - i,
        {
            let ghost prior = names.deep_view();
            if self.entries[i].1 == *department {
                names.push(self.entries[i].0.clone());
            }
            proof {
                reveal(Seq::filter);
                let taken = self@.take(i as int + 1);
                assert(taken.drop_last() =~= self@.take(i as int));
                assert(taken.last() == self@[i as int]);
                if self@[i as int].1 == department@ {
                    assert(names.deep_view() =~= prior.push(self@[i as int].0));
                    assert(members_of(taken, department@) =~= members_of(
                        self@.take(i as int),
                        department@,
                    ).push(self@[i as int].0));
                } else {
                    assert(members_of(taken, department@) =~= members_of(
                        self@.take(i as int),
                        department@,
                    ));
                }
            }
            i = i + 1;
        }
        proof {
            assert(self@.take(self@.len() as int) =~= self@);
        }
        sort_strings(&names)
    }

    /// Every department in first-appearance order — each department named
    /// once — with its members alphabetically sorted.
    pub fn full_list(&self) -> (r: Vec<(String, Vec<String>)>)
        ensures
            r@.len() == departments(self@).len(),
            forall|t: int|
                0 <= t < r@.len() ==> (#[trigger] r@[t]).0@ == departments(self@)[t]
                    && r@[t].1.deep_view() == sorted_strings(
                    members_of(self@, departments(self@)[t]),
                ),
            forall|t: int|
                0 <= t < r@.len() && self.wf() ==> (#[trigger] r@[t]).1.deep_view().no_duplicates(),
            departments(self@).no_duplicates(),
    {
        proof {
            lemma_departments_no_duplicates(self@);
        }
        let mut depts: Vec<String> = Vec::new();
        let mut i: usize = 0;
        proof {
            assert(self@.take(0) =~= Seq::<EntryView>::empty());
            assert(depts.deep_view() =~= Seq::<Seq<char>>::empty());
        }
        while i < self.entries.len()
            invariant
                0 <= i <= self@.len(),
                self@.len() == self.entries@.len(),
                depts.deep_view() == departments(self@.take(i as int)),
            decreases self@.len() - i,
        {
            let ghost prior = depts.deep_view();
            let seen = contains_string(&depts, &self.entries[i].1);
            if !seen {
                depts.push(self.entries[i].1.clone());
            }
            proof {
                let taken = self@.take(i as int + 1);
                assert(taken.drop_last() =~= self@.take(i as int));
                assert(taken.last() == self@[i as int]);
                if !seen {
                    assert(depts.deep_view() =~= prior.push(self@[i as int].1));
                }
            }
            i = i + 1;
        }
        proof {
            assert(self@.take(self@.len() as int) =~= self@);
        }
        let mut r: Vec<(String, Vec<String>)> = Vec::new();
        let mut k: usize = 0;
        while k < depts.len()
            invariant
                0 <= k <= depts@.len(),
                depts.deep_view() == departments(self@),
                r@.len() == k,
                forall|t: int|
                    0 <= t < k ==> (#[trigger] r@[t]).0@ == departments(self@)[t]
                        && r@[t].1.deep_view() == sorted_strings(
                        members_of(self@, departments(self@)[t]),
                    ),
                forall|t: int|
                    0 <= t < k && self.wf() ==> (#[trigger] r@[t]).1.deep_view().no_duplicates(),
            decreases depts@.len() - k,
        {
            let d = depts[k].clone();
            let names = self.department_list(&d);
            r.push((d, names));
            k = k + 1;
        }
        r
    }
}

/// Law: recording a name overwrites any earlier association.  After `add`,
/// the name is a member of exactly the department just given — in
/// particular, its old department's list no longer carries it — and the
/// membership of every other name is untouched.
pub proof fn lemma_add_overwrites(
    pre: Seq<EntryView>,
    post: Seq<EntryView>,
    name: Seq<char>,
    dept: Seq<char>,
)
    requires
        unique_names(pre),
        post == if has_name(pre, name) {
            pre.update(name_index(pre, name), (name, dept))
        } else {
            pre.push((name, dept))
        },
    ensures
        forall|d: Seq<char>| #[trigger] members_of(post, d).contains(name) <==> d == dept,
        forall|d: Seq<char>, n: Seq<char>|
            n != name ==> (#[trigger] members_of(post, d).contains(n) <==> members_of(
                pre,
                d,
            ).contains(n)),
{
    assert forall|d: Seq<char>| #[trigger] members_of(post, d).contains(name) <==> d == dept by {
        lemma_members_contains(post, d, name);
        if has_name(pre, name) {
            let k = name_index(pre, name);
            assert(pre[k].0 == name);
            assert(post[k] == ((name, dept)));
            if d == dept {
                assert(exists|i: int| 0 <= i < post.len() && #[trigger] post[i] == ((name, d)));
            }
            if members_of(post, d).contains(name) {
                let i = choose|i: int| 0 <= i < post.len() && #[trigger] post[i] == ((name, d));
                if i != k {
                    assert(pre[i].0 == name);
                    assert(false);
                }
            }
        } else {
            assert(post[post.len() - 1] == ((name, dept)));
            if members_of(post, d).contains(name) {
                let i = choose|i: int| 0 <= i < post.len() && #[trigger] post[i] == ((name, d));
                if i != post.len() - 1 {
                    assert(pre[i].0 == name);
                    assert(has_name(pre, name));
                    assert(false);
                }
            }
        }
    }
    assert forall|d: Seq<char>, n: Seq<char>| n != name implies (#[trigger] members_of(
        post,
        d,
    ).contains(n) <==> members_of(pre, d).contains(n)) by {
        lemma_members_contains(post, d, n);
        lemma_members_contains(pre, d, n);
        if has_name(pre, name) {
            let k = name_index(pre, name);
            assert(pre[k].0 == name);
            if members_of(post, d).contains(n) {
                let i = choose|i: int| 0 <= i < post.len() && #[trigger] post[i] == ((n, d));
                assert(i != k);
                assert(pre[i] == ((n, d)));
            }
            if members_of(pre, d).contains(n) {
                let i = choose|i: int| 0 <= i < pre.len() && #[trigger] pre[i] == ((n, d));
                assert(i != k);
                assert(post[i] == ((n, d)));
            }
        } else {
            if members_of(post, d).contains(n) {
                let i = choose|i: int| 0 <= i < post.len() && #[trigger] post[i] == ((n, d));
                assert(i != post.len() - 1);
                assert(pre[i] == ((n, d)));
            }
            if members_of(pre, d).contains(n) {
                let i = choose|i: int| 0 <= i < pre.len() && #[trigger] pre[i] == ((n, d));
                assert(post[i] == ((n, d)));
            }
        }
    }
}

/// An index that holds the name is the one `name_index` denotes, when names
/// are unique.
proof fn use_index_for_name(s: Seq<EntryView>, name: Seq<char>, i: int)
    requires
        unique_names(s),
        0 <= i < s.len(),
        s[i].0 == name,
    ensures
        has_name(s, name),
        name_index(s, name) == i,
{
    assert(has_name(s, name));
    let k = name_index(s, name);
    if k != i {
        assert(s[k].0 == name);
        assert(false);
    }
}

/// Does the list contain this exact string?
fn contains_string(v: &Vec<String>, x: &String) -> (r: bool)
    ensures
        r == v.deep_view().contains(x@),
{
    let mut i: usize = 0;
    while i < v.len()
        invariant
            0 <= i <= v@.len(),
            forall|j: int| 0 <= j < i ==> v.deep_view()[j] != x@,
        decreases v@.len() - i,
    {
        if v[i] == *x {
            proof {
                assert(v.deep_view()[i as int] == x@);
            }
            return true;
        }
        i = i + 1;
    }
    proof {
        if v.deep_view().contains(x@) {
            let j = choose|j: int| 0 <= j < v.deep_view().len() && v.deep_view()[j] == x@;
            assert(false);
        }
    }
    false
}

} // verus!
