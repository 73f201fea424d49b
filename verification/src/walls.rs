//! Wall flags of a single cell.

use vstd::prelude::*;

verus! {

/// What a cell's wall flags say: whether the cell is closed off from the
/// neighbour above it and from the neighbour to its left.
pub struct WallFlags {
    pub blocked_above: bool,
    pub blocked_left: bool,
}

/// The wall flags of one cell, packed into the two lowest bits of a byte.
#[derive(Clone, Copy, Debug)]
pub struct Walls {
    bits: u8,
}

impl View for Walls {
    type V = WallFlags;

    closed spec fn view(&self) -> WallFlags {
        WallFlags { blocked_above: self.bits & 2 != 0, blocked_left: self.bits & 1 != 0 }
    }
}

/// What a list of wall flags says, cell by cell.
pub open spec fn flags_of(walls: Seq<Walls>) -> Seq<WallFlags> {
    Seq::new(walls.len(), |c: int| walls[c]@)
}

impl Walls {
    /// A cell with no walls: open towards both neighbours.
    pub fn new() -> (w: Self)
        ensures
            w@ == (WallFlags { blocked_above: false, blocked_left: false }),
    {
        assert(0u8 & 1 == 0 && 0u8 & 2 == 0) by (bit_vector);
        Walls { bits: 0 }
    }

    /// Draws the wall to the left of the cell; the wall above is untouched.
    pub fn set_left(&mut self)
        ensures
            final(self)@ == (WallFlags { blocked_above: old(self)@.blocked_above, blocked_left: true }),
    {
        let b: u8 = self.bits;
        assert((b | 1) & 1 != 0 && ((b | 1) & 2 != 0) == (b & 2 != 0)) by (bit_vector);
        self.bits = b | 1;
    }

    /// Whether the cell is closed off from its left neighbour.
    pub fn left(&self) -> (r: bool)
        ensures
            r == self@.blocked_left,
    {
        self.bits & 1 != 0
    }

    /// Draws the wall above the cell; the wall to the left is untouched.
    pub fn set_top(&mut self)
        ensures
            final(self)@ == (WallFlags { blocked_above: true, blocked_left: old(self)@.blocked_left }),
    {
        let b: u8 = self.bits;
        assert((b | 2) & 2 != 0 && ((b | 2) & 1 != 0) == (b & 1 != 0)) by (bit_vector);
        self.bits = b | 2;
    }

    /// Whether the cell is closed off from the neighbour above it.
    pub fn top(&self) -> (r: bool)
        ensures
            r == self@.blocked_above,
    {
        self.bits & 2 != 0
    }
}

} // verus!
