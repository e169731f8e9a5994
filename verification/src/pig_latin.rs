//! Pig-latin transformation.  A word starting with a consonant has its first
//! letter moved to the end behind a dash, followed by "ay" ("first" becomes
//! "irst-fay"); a word starting with a vowel keeps its letters and gets
//! "-hay" appended ("apple" becomes "apple-hay").

use vstd::prelude::*;
use vstd::string::{StrSliceExecFns, StringExecFns};

verus! {

/// Is this character one of the five lowercase vowels?
pub open spec fn is_vowel(c: char) -> bool {
    c == 'a' || c == 'e' || c == 'i' || c == 'o' || c == 'u'
}

/// Does the word start with a consonant?  An empty word does not.
pub open spec fn starts_with_consonant(w: Seq<char>) -> bool {
    w.len() > 0 && !is_vowel(w[0])
}

/// The pig-latin form of a word that starts with a consonant: the first
/// letter moves to the end, between a dash and "ay".
pub open spec fn consonant_pig(w: Seq<char>) -> Seq<char> {
    w.skip(1) + seq!['-'] + w.take(1) + seq!['a', 'y']
}

/// The pig-latin form of a word that starts with a vowel: "-hay" appended.
pub open spec fn vowel_pig(w: Seq<char>) -> Seq<char> {
    w + seq!['-', 'h', 'a', 'y']
}

/// The pig-latin form of any word.
pub open spec fn pig_latin_word(w: Seq<char>) -> Seq<char> {
    if starts_with_consonant(w) {
        consonant_pig(w)
    } else {
        vowel_pig(w)
    }
}

/// The pig-latin form of a sequence of words, each preceded by one space.
pub open spec fn pig_latin_sentence(words: Seq<Seq<char>>) -> Seq<char>
    decreases words.len(),
{
    if words.len() == 0 {
        Seq::empty()
    } else {
        pig_latin_sentence(words.drop_last()) + seq![' '] + pig_latin_word(words.last())
    }
}

/// The pieces `str::split_whitespace` cuts a string into; they depend on the
/// characters of the string alone.
pub uninterp spec fn split_ws(s: Seq<char>) -> Seq<Seq<char>>;

/// Relies on str::split_whitespace: cuts the string into its maximal runs of
/// non-whitespace characters, in order.
#[verifier::external_body]
fn split_words(s: &str) -> (r: Vec<String>)
    ensures
        r.deep_view() == split_ws(s@),
{
    s.split_whitespace().map(|w| w.to_string()).collect()
}

/// Does the word start with a consonant?  (An empty word counts as not.)
pub fn first_letter_consonant(word: &str) -> (r: bool)
    ensures
        r == starts_with_consonant(word@),
{
    if word.unicode_len() == 0 {
        false
    } else {
        let c = word.get_char(0);
        !(c == 'a' || c == 'e' || c == 'i' || c == 'o' || c == 'u')
    }
}

/// Move the first letter of the (non-empty) word to the end, between a dash
/// and "ay".
pub fn consonant_conversion(word: &str) -> (r: String)
    requires
        word@.len() >= 1,
    ensures
        r@ == consonant_pig(word@),
{
    let n = word.unicode_len();
    let rest = word.substring_char(1, n);
    let first = word.substring_char(0, 1);
    let mut r = String::from_str(rest);
    r.append("-");
    r.append(first);
    r.append("ay");
    proof {
        reveal_strlit("-");
        reveal_strlit("ay");
        assert("-"@ =~= seq!['-']);
        assert("ay"@ =~= seq!['a', 'y']);
        assert(word@.subrange(1, n as int) =~= word@.skip(1));
        assert(word@.subrange(0, 1) =~= word@.take(1));
        assert(r@ =~= consonant_pig(word@));
    }
    r
}

/// Append "-hay" to the word.
pub fn vowel_conversion(word: &str) -> (r: String)
    ensures
        r@ == vowel_pig(word@),
{
    let mut r = String::new();
    r.append(word);
    r.append("-hay");
    proof {
        reveal_strlit("-hay");
        assert("-hay"@ =~= seq!['-', 'h', 'a', 'y']);
        assert(r@ =~= vowel_pig(word@));
    }
    r
}

/// The pig-latin form of one word.
pub fn convert_word(word: &str) -> (r: String)
    ensures
        r@ == pig_latin_word(word@),
{
    if first_letter_consonant(word) {
        consonant_conversion(word)
    } else {
        vowel_conversion(word)
    }
}

/// The pig-latin form of a list of words, each preceded by one space.
pub fn convert_sentence(words: &Vec<String>) -> (r: String)
    ensures
        r@ == pig_latin_sentence(words.deep_view()),
{
    let mut r = String::new();
    let mut i: usize = 0;
    proof {
        assert(words.deep_view().take(0) =~= Seq::<Seq<char>>::empty());
    }
    while i < words.len()
        invariant
            0 <= i <= words@.len(),
            r@ == pig_latin_sentence(words.deep_view().take(i as int)),
        decreases words@.len() - i,
    {
        let w = convert_word(words[i].as_str());
        r.append(" ");
        r.append(w.as_str());
        proof {
            reveal_strlit(" ");
            assert(" "@ =~= seq![' ']);
            let taken = words.deep_view().take(i as int + 1);
            assert(taken.drop_last() =~= words.deep_view().take(i as int));
            assert(taken.last() == words.deep_view()[i as int]);
            assert(r@ =~= pig_latin_sentence(taken));
        }
        i = i + 1;
    }
    proof {
        assert(words.deep_view().take(words@.len() as int) =~= words.deep_view());
    }
    r
}

/// The pig-latin form of a whole text: each whitespace-separated word is
/// transformed, and each transformed word is preceded by one space.
pub fn pig_latin_text(s: &str) -> (r: String)
    ensures
        r@ == pig_latin_sentence(split_ws(s@)),
{
    let words = split_words(s);
    convert_sentence(&words)
}

} // verus!
