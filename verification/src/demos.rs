//! Small demonstrations of ownership, borrowing, strings, vectors, and
//! struct building.

use vstd::prelude::*;
use vstd::pervasive::VecAdditionalExecFns;
use vstd::string::{StrSliceExecFns, StringExecFns};

use crate::directory::{has_name, Directory, EntryView};

verus! {

/// How many characters of `s` come before the first space.
pub open spec fn first_word_len(s: Seq<char>) -> int
    decreases s.len(),
{
    if s.len() == 0 {
        0
    } else if s[0] == ' ' {
        0
    } else {
        1 + first_word_len(s.drop_first())
    }
}

/// The characters of `s` before the first space (all of `s` if it has none).
pub open spec fn first_word_spec(s: Seq<char>) -> Seq<char> {
    s.take(first_word_len(s))
}

proof fn lemma_first_word_len_at(s: Seq<char>, i: int)
    requires
        0 <= i <= s.len(),
        forall|k: int| 0 <= k < i ==> s[k] != ' ',
        i == s.len() || s[i] == ' ',
    ensures
        first_word_len(s) == i,
    decreases i,
{
    if s.len() == 0 {
    } else if i == 0 {
    } else {
        assert(forall|k: int| 0 <= k < i - 1 ==> s.drop_first()[k] != ' ');
        lemma_first_word_len_at(s.drop_first(), i - 1);
    }
}

/// The first word of the string: everything before the first space.
pub fn first_word(s: &String) -> (r: &str)
    ensures
        r@ == first_word_spec(s@),
{
    let text = s.as_str();
    let n = text.unicode_len();
    let mut i: usize = 0;
    while i < n && text.get_char(i) != ' '
        invariant
            0 <= i <= s@.len(),
            n == s@.len(),
            text@ == s@,
            forall|k: int| 0 <= k < i ==> s@[k] != ' ',
        decreases s@.len() - i,
    {
        i = i + 1;
    }
    proof {
        lemma_first_word_len_at(s@, i as int);
    }
    text.substring_char(0, i)
}

/// Append ", world" to the borrowed string.
pub fn change(some_string: &mut String)
    ensures
        final(some_string)@ == old(some_string)@ + ", world"@,
{
    some_string.append(", world");
}

/// The length of the string in bytes.
pub fn calculate_length(s: &String) -> (n: usize)
    ensures
        n == vstd::utf8::encode_utf8(s@).len() as usize,
{
    s.as_str().len()
}

/// A freshly built greeting, returned by value so that it outlives this call.
pub fn dangle() -> (r: String)
    ensures
        r@ == "hello"@,
{
    String::from_str("hello")
}

/// Growing a string: "foo" with "bar" pushed onto it.
pub fn updating() -> (r: String)
    ensures
        r@ == "foobar"@,
{
    let mut s = String::from_str("foo");
    s.append("bar");
    proof {
        reveal_strlit("foo");
        reveal_strlit("bar");
        reveal_strlit("foobar");
        assert(s@ =~= "foobar"@);
    }
    s
}

/// Moving owned strings into a collection: the directory below owns both the
/// field name and its value once they are added.
pub fn ownership() -> (d: Directory)
    ensures
        d@ == Seq::<EntryView>::empty().push(("Favorite color"@, "Blue"@)),
        d.wf(),
{
    let field_name = String::from_str("Favorite color");
    let field_value = String::from_str("Blue");
    let mut d = Directory::new();
    proof {
        assert(!has_name(d@, "Favorite color"@));
    }
    d.add(field_name, field_value);
    d
}

/// One cell of a spreadsheet row: an integer or a piece of text.
pub enum SpreadsheetCell {
    Int(i32),
    Text(String),
}

/// A row holding cells of different kinds in one vector.
pub fn multiple_types() -> (row: Vec<SpreadsheetCell>)
    ensures
        row@.len() == 2,
        row@[0] == SpreadsheetCell::Int(3),
        row@[1] matches SpreadsheetCell::Text(t) && t@ == "blue"@,
{
    let mut row: Vec<SpreadsheetCell> = Vec::new();
    row.push(SpreadsheetCell::Int(3));
    row.push(SpreadsheetCell::Text(String::from_str("blue")));
    row
}

/// The number one greater than the argument.
pub fn plus_one(x: i32) -> (r: i32)
    requires
        x < i32::MAX,
    ensures
        r == x + 1,
{
    x + 1
}

/// The Fibonacci number at position `n`: the sequence starts 0, 1, and each
/// later number is the sum of the two before it.
pub open spec fn fib_spec(n: nat) -> nat
    decreases n,
{
    if n == 0 {
        0
    } else if n == 1 {
        1
    } else {
        fib_spec((n - 2) as nat) + fib_spec((n - 1) as nat)
    }
}

proof fn lemma_fib_monotonic(m: nat, n: nat)
    requires
        m <= n,
    ensures
        fib_spec(m) <= fib_spec(n),
    decreases n - m,
{
    if m < n {
        lemma_fib_monotonic(m, (n - 1) as nat);
        if n >= 2 {
            assert(fib_spec(n) == fib_spec((n - 2) as nat) + fib_spec((n - 1) as nat));
        }
    }
}

/// The Fibonacci number at iteration `n`, computed by a loop.
pub fn fib(n: u32) -> (r: u64)
    requires
        fib_spec(n as nat + 1) <= u64::MAX,
    ensures
        r == fib_spec(n as nat),
{
    let n: u64 = n as u64;
    let mut count: u64 = 1;
    let mut prev: u64 = 0;
    let mut curr: u64 = 1;
    while count <= n
        invariant
            n <= u32::MAX,
            1 <= count <= n + 1,
            prev == fib_spec((count - 1) as nat),
            curr == fib_spec(count as nat),
            fib_spec(n as nat + 1) <= u64::MAX,
        decreases n + 1 - count,
    {
        proof {
            lemma_fib_monotonic((count + 1) as nat, n as nat + 1);
        }
        let next: u64 = prev + curr;
        prev = curr;
        curr = next;
        count = count + 1;
    }
    prev
}

/// Raise every element of the list by fifty.
pub fn iterating(v: &mut Vec<i32>)
    requires
        forall|k: int| 0 <= k < old(v)@.len() ==> old(v)@[k] + 50 <= i32::MAX,
    ensures
        final(v)@.len() == old(v)@.len(),
        forall|k: int| 0 <= k < old(v)@.len() ==> final(v)@[k] == old(v)@[k] + 50,
{
    let mut i: usize = 0;
    while i < v.len()
        invariant
            0 <= i <= v@.len(),
            v@.len() == old(v)@.len(),
            forall|k: int| 0 <= k < i ==> v@[k] == old(v)@[k] + 50,
            forall|k: int| i <= k < v@.len() ==> v@[k] == old(v)@[k],
            forall|k: int| 0 <= k < old(v)@.len() ==> old(v)@[k] + 50 <= i32::MAX,
        decreases v@.len() - i,
    {
        let bumped = v[i] + 50;
        v.set(i, bumped);
        i = i + 1;
    }
}

/// A registered user.
pub struct User {
    pub username: String,
    pub email: String,
    pub sign_in_count: u64,
    pub active: bool,
}

/// A fresh active user with the given email and username.
pub fn build_user(email: String, username: String) -> (u: User)
    ensures
        u.email == email,
        u.username == username,
        u.active == true,
        u.sign_in_count == 1,
{
    User { email: email, username: username, active: true, sign_in_count: 1 }
}

/// A fresh active user, built with field-init shorthand.
pub fn build_user_improved(email: String, username: String) -> (u: User)
    ensures
        u.email == email,
        u.username == username,
        u.active == true,
        u.sign_in_count == 1,
{
    User { email, username, active: true, sign_in_count: 1 }
}

} // verus!
