//! One-based genomic positions.

use vstd::prelude::*;

verus! {

/// A 1-based position on a reference sequence.
///
/// A valid position is never zero.
#[derive(Clone, Copy, Debug, PartialEq, Eq, Structural)]
pub struct Position {
    /// The 1-based coordinate; at least 1.
    pub value: usize,
}

/// Whether a position holds a legal 1-based coordinate.
pub open spec fn position_valid(p: Position) -> bool {
    p.value >= 1
}

impl Position {
    /// Returns the least position, 1.
    pub fn min() -> (p: Position)
        ensures
            p.value == 1,
    {
        Position { value: 1 }
    }

    /// Creates a position from a 1-based coordinate; zero is rejected.
    pub fn new(value: usize) -> (r: Option<Position>)
        ensures
            value == 0 <==> r is None,
            r is Some ==> r->0.value == value && position_valid(r->0),
    {
        if value == 0 {
            None
        } else {
            Some(Position { value })
        }
    }

    /// Returns the 1-based coordinate.
    pub fn get(&self) -> (v: usize)
        ensures
            v == self.value,
    {
        self.value
    }

    /// Adds an offset, unless the sum leaves the machine range.
    pub fn checked_add(&self, rhs: usize) -> (r: Option<Position>)
        ensures
            self.value + rhs <= usize::MAX ==> r == Some(
                Position { value: (self.value + rhs) as usize },
            ),
            self.value + rhs > usize::MAX ==> r is None,
    {
        match self.value.checked_add(rhs) {
            Some(value) => Some(Position { value }),
            None => None,
        }
    }
}

} // verus!
