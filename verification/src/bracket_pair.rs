//! One matched pair of loop brackets: the instruction index of a `[` and the
//! index of the `]` it pairs with.

use vstd::prelude::*;

verus! {

/// A matching pair of brackets, held as two instruction indices.
#[derive(Clone, Copy, Debug, PartialEq, Eq, Structural)]
pub struct BracketPair {
    first_bracket: usize,
    second_bracket: usize,
}

impl BracketPair {
    /// The index of the opening bracket.
    pub closed spec fn first(&self) -> int {
        self.first_bracket as int
    }

    /// The index of the closing bracket.
    pub closed spec fn second(&self) -> int {
        self.second_bracket as int
    }

    /// A bracket pair from a pair of indices, opening bracket first.
    pub fn from_indeces(pair: (usize, usize)) -> (r: Self)
        ensures
            r.first() == pair.0,
            r.second() == pair.1,
    {
        BracketPair { first_bracket: pair.0, second_bracket: pair.1 }
    }

    /// Returns the opening bracket's index.
    pub fn get_first_bracket_index(&self) -> (i: usize)
        ensures
            i == self.first(),
    {
        self.first_bracket
    }

    /// Returns the closing bracket's index.
    pub fn get_second_bracket_index(&self) -> (i: usize)
        ensures
            i == self.second(),
    {
        self.second_bracket
    }
}

} // verus!
