//! Summaries of media items: a trait for types that can describe themselves
//! in one line, with an article and a tweet implementing it.

use vstd::prelude::*;
use vstd::string::StringExecFns;

verus! {

/// A type that can summarize itself in one line.
pub trait Summary {
    /// The characters the summary consists of.
    spec fn summary_spec(&self) -> Seq<char>;

    /// The one-line summary.
    fn summarize(&self) -> (r: String)
        ensures
            r@ == self.summary_spec(),
    ;
}

/// A news article.
pub struct NewsArticle {
    pub headline: String,
    pub location: String,
    pub author: String,
    pub content: String,
}

impl Summary for NewsArticle {
    /// Headline, author, and location: "headline, by author (location)".
    open spec fn summary_spec(&self) -> Seq<char> {
        self.headline@ + ", by "@ + self.author@ + " ("@ + self.location@ + ")"@
    }

    fn summarize(&self) -> (r: String) {
        let mut r = self.headline.clone();
        r.append(", by ");
        r.append(self.author.as_str());
        r.append(" (");
        r.append(self.location.as_str());
        r.append(")");
        proof {
            assert(r@ =~= self.summary_spec());
        }
        r
    }
}

/// A tweet.
pub struct Tweet {
    pub username: String,
    pub content: String,
    pub reply: bool,
    pub retweet: bool,
}

impl Summary for Tweet {
    /// The author followed by the whole content: "username: content".
    open spec fn summary_spec(&self) -> Seq<char> {
        self.username@ + ": "@ + self.content@
    }

    fn summarize(&self) -> (r: String) {
        let mut r = self.username.clone();
        r.append(": ");
        r.append(self.content.as_str());
        proof {
            assert(r@ =~= self.summary_spec());
        }
        r
    }
}

/// The breaking-news line for an item: "Breaking news! " and its summary.
pub fn notify<T: Summary>(item: &T) -> (r: String)
    ensures
        r@ == "Breaking news! "@ + item.summary_spec(),
{
    let mut r = String::from_str("Breaking news! ");
    let s = item.summarize();
    r.append(s.as_str());
    r
}

} // verus!
