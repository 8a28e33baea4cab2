//! A statistic reduced to its place in the numeric order.

use vstd::prelude::*;

verus! {

/// The place of a double-precision value in the order of all such values.
///
/// Two values compare as their keys do; both zeros share the key 0. A value
/// that is not a number has no place: it is neither above, below nor equal to
/// anything, itself included.
#[derive(Clone, Copy, Debug, PartialEq, Eq)]
pub enum Rank {
    /// Not a number.
    Nan,
    /// A number, with its order key.
    Number(i64),
}

impl Rank {
    /// `self > other` as doubles.
    pub open spec fn above(self, other: Rank) -> bool {
        match (self, other) {
            (Rank::Number(a), Rank::Number(b)) => a > b,
            _ => false,
        }
    }

    /// `self >= other` as doubles.
    pub open spec fn not_below(self, other: Rank) -> bool {
        match (self, other) {
            (Rank::Number(a), Rank::Number(b)) => a >= b,
            _ => false,
        }
    }

    /// Tests `self > other`.
    pub fn exceeds(self, other: Rank) -> (r: bool)
        ensures
            r == self.above(other),
    {
        match (self, other) {
            (Rank::Number(a), Rank::Number(b)) => a > b,
            _ => false,
        }
    }

    /// Tests `self < other`.
    pub fn is_below(self, other: Rank) -> (r: bool)
        ensures
            r == other.above(self),
    {
        other.exceeds(self)
    }

    /// Tests `self >= other`.
    pub fn at_least(self, other: Rank) -> (r: bool)
        ensures
            r == self.not_below(other),
    {
        match (self, other) {
            (Rank::Number(a), Rank::Number(b)) => a >= b,
            _ => false,
        }
    }
}

} // verus!
