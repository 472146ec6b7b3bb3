//! A guess in a number-guessing game, restricted to the range 1 to 100.

use vstd::prelude::*;

verus! {

/// A number between 1 and 100 inclusive; the constructor refuses
/// anything else, so every value of this type is in range.
pub struct Guess {
    value: i32,
}

impl View for Guess {
    type V = int;

    closed spec fn view(&self) -> int {
        self.value as int
    }
}

impl Guess {
    /// Wrap a guessed number, which must lie between 1 and 100.
    pub fn new(value: i32) -> (r: Guess)
        requires
            1 <= value <= 100,
        ensures
            r@ == value,
    {
        Guess { value }
    }
}

} // verus!
