//! The number-guessing game's decisions: a validated guess type whose values
//! always lie between 1 and 100, a secret drawn from that range, and the
//! comparison of a guess against the secret.

use vstd::prelude::*;

verus! {

/// What one round of the guessing game concludes.
#[derive(Clone, Copy, Debug, PartialEq, Eq, Structural)]
pub enum GuessOutcome {
    TooSmall,
    TooBig,
    Win,
}

/// A guess that has been checked to lie between 1 and 100.
#[derive(Clone, Copy, Debug)]
pub struct Guess {
    value: i32,
}

impl Guess {
    /// The number this guess carries.
    pub closed spec fn spec_value(&self) -> i32 {
        self.value
    }

    /// The guess carries a number between 1 and 100.
    pub open spec fn wf(&self) -> bool {
        1 <= self.spec_value() <= 100
    }

    /// Wrap a number already known to lie between 1 and 100.
    pub fn new(value: i32) -> (g: Guess)
        requires
            1 <= value <= 100,
        ensures
            g.spec_value() == value,
            g.wf(),
    {
        Guess { value }
    }

    /// The wrapped number.
    pub fn value(&self) -> (v: i32)
        ensures
            v == self.spec_value(),
    {
        self.value
    }
}

/// Validate a raw number: inside 1 to 100 it becomes a `Guess`; outside it
/// is rejected.
pub fn custom_types_2(value: i32) -> (r: Option<Guess>)
    ensures
        r is Some <==> 1 <= value <= 100,
        r matches Some(g) ==> g.spec_value() == value && g.wf(),
{
    if 1 <= value && value <= 100 {
        Some(Guess::new(value))
    } else {
        None
    }
}

/// Relies on rand::random_range: the result lies within the given non-empty
/// half-open range.
#[verifier::external_body]
fn draw_number(lo: i32, hi: i32) -> (r: i32)
    requires
        lo < hi,
    ensures
        lo <= r < hi,
{
    rand::random_range(lo..hi)
}

/// A fresh secret for the guessing game: some number from 1 to 100.
pub fn new_secret() -> (r: i32)
    ensures
        1 <= r <= 100,
{
    draw_number(1, 101)
}

/// One round of the guessing game: how the guess compares with the secret.
pub fn check_guess(guess: &Guess, secret: i32) -> (r: GuessOutcome)
    ensures
        r == GuessOutcome::TooSmall <==> guess.spec_value() < secret,
        r == GuessOutcome::TooBig <==> guess.spec_value() > secret,
        r == GuessOutcome::Win <==> guess.spec_value() == secret,
{
    let v = guess.value();
    if v < secret {
        GuessOutcome::TooSmall
    } else if v > secret {
        GuessOutcome::TooBig
    } else {
        GuessOutcome::Win
    }
}

} // verus!
