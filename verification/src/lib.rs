//! Small verified utilities: descriptive statistics over integer lists,
//! an in-memory employee directory, a pig-latin word transformer, and a
//! collection of small demonstration types and functions.

pub mod coins;
pub mod demos;
pub mod directory;
pub mod generics;
pub mod guessing;
pub mod pig_latin;
pub mod rectangles;
pub mod restaurant;
pub mod stats;
pub mod strutil;
pub mod summary;

use vstd::prelude::*;

verus! {

/// Errors reported by the statistics helpers.
#[derive(Clone, Copy, Debug, PartialEq, Eq, Structural)]
pub enum StatsError {
    /// The input sequence was empty, so no statistic is defined.
    EmptyInput,
}

} // verus!
