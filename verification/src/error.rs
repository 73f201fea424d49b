//! What can go wrong between raw markup and a drawn solution.

use vstd::prelude::*;

verus! {

/// Every failure is final: nothing is retried and no partial result is given.
#[derive(Clone, Copy, Debug, PartialEq, Eq, Structural)]
pub enum PuzzleError {
    /// The pattern that finds cells in the markup was refused by the regex
    /// engine.
    Pattern,
    /// The number of cells is not a perfect square, so there is no side length.
    NotSquare,
    /// The walls cut the grid into a number of regions other than its side
    /// length.
    RegionCount,
    /// The engine found that no placement of stars obeys the rules.
    Unsatisfiable,
    /// The engine gave up without deciding.
    Indeterminate,
    /// The engine reported a placement, but the placement breaks a constraint
    /// of the model it was given.
    InvalidAssignment,
}

impl PuzzleError {
    /// Whether the failure lies in the shape of the input rather than in the
    /// search for a placement.
    pub open spec fn malformed_input(self) -> bool {
        self == PuzzleError::Pattern || self == PuzzleError::NotSquare || self == PuzzleError::RegionCount
    }

    /// Tells a malformed input from a failed search.
    pub fn is_malformed_input(&self) -> (r: bool)
        ensures
            r == self.malformed_input(),
    {
        match self {
            PuzzleError::Pattern | PuzzleError::NotSquare | PuzzleError::RegionCount => true,
            PuzzleError::Unsatisfiable | PuzzleError::Indeterminate | PuzzleError::InvalidAssignment => false,
        }
    }
}

} // verus!
