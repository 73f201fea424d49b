//! From the markup of a puzzle page to the wall flags of its cells.
//!
//! A cell is an element whose class list lies between `cell selectable` and
//! `cell-off`. The class list holds `bt` when the cell has a wall above it
//! and `bl` when it has a wall to its left.

use crate::captures::{capture_first_groups, first_groups, groups_of};
use crate::error::PuzzleError;
use crate::walls::{flags_of, WallFlags, Walls};
use bstr::ByteSlice;
use vstd::prelude::*;

verus! {

/// Whether `needle` stands in `haystack` at index `i`.
pub open spec fn occurs_at(haystack: Seq<u8>, needle: Seq<u8>, i: int) -> bool {
    0 <= i && i + needle.len() <= haystack.len() && haystack.subrange(i, i + needle.len())
        == needle
}

/// Whether `needle` stands somewhere in `haystack`.
pub open spec fn occurs(haystack: Seq<u8>, needle: Seq<u8>) -> bool {
    exists|i: int| occurs_at(haystack, needle, i)
}

/// `bstr::ByteSlice::find`: the index of the first occurrence of `needle` in
/// `haystack`, or `None` when there is none.
#[verifier::external_body]
fn find_bytes(haystack: &[u8], needle: &[u8]) -> (r: Option<usize>)
    ensures
        match r {
            Some(i) => occurs_at(haystack@, needle@, i as int) && forall|j: int|
                0 <= j < i ==> !occurs_at(haystack@, needle@, j),
            None => !occurs(haystack@, needle@),
        },
{
    haystack.find(needle)
}

/// The class that marks a wall above the cell: `bt`.
pub open spec fn top_mark() -> Seq<u8> {
    seq![0x62u8, 0x74u8]
}

/// The class that marks a wall to the left of the cell: `bl`.
pub open spec fn left_mark() -> Seq<u8> {
    seq![0x62u8, 0x6cu8]
}

/// What the class list of a cell says about its walls.
pub open spec fn flags_of_classes(classes: Seq<u8>) -> WallFlags {
    WallFlags {
        blocked_above: occurs(classes, top_mark()),
        blocked_left: occurs(classes, left_mark()),
    }
}

/// What the class lists of all cells say about their walls.
pub open spec fn flags_of_cells(found: Seq<Option<Seq<u8>>>) -> Seq<WallFlags> {
    Seq::new(found.len(), |i: int| flags_of_classes(found[i]->Some_0))
}

/// Reads the wall flags of a cell off its class list.
pub fn walls_of_classes(classes: &[u8]) -> (walls: Walls)
    ensures
        walls@ == flags_of_classes(classes@),
{
    let top: [u8; 2] = [0x62, 0x74];
    let left: [u8; 2] = [0x62, 0x6c];
    assert(top@ =~= top_mark());
    assert(left@ =~= left_mark());
    let mut walls = Walls::new();
    if find_bytes(classes, top.as_slice()).is_some() {
        walls.set_top();
    }
    if find_bytes(classes, left.as_slice()).is_some() {
        walls.set_left();
    }
    walls
}

/// Reads the wall flags of all cells off their class lists. Fails exactly
/// when a cell was matched without a class list.
pub fn walls_of_cells(found: &Vec<Option<Vec<u8>>>) -> (r: Result<Vec<Walls>, PuzzleError>)
    ensures
        match r {
            Ok(walls) => {
                &&& forall|i: int| 0 <= i < found.len() ==> (#[trigger] found[i]) is Some
                &&& flags_of(walls@) == flags_of_cells(groups_of(found@))
            },
            Err(e) => e == PuzzleError::Pattern && exists|i: int|
                0 <= i < found.len() && (#[trigger] found[i]) is None,
        },
{
    let mut walls: Vec<Walls> = Vec::new();
    let mut i: usize = 0;
    while i < found.len()
        invariant
            0 <= i <= found.len(),
            walls.len() == i,
            forall|k: int| 0 <= k < i ==> (#[trigger] found[k]) is Some,
            forall|k: int|
                0 <= k < i ==> (#[trigger] walls[k])@ == flags_of_classes(found[k]->Some_0@),
        decreases found.len() - i,
    {
        match &found[i] {
            Some(classes) => {
                walls.push(walls_of_classes(classes.as_slice()));
            },
            None => {
                return Err(PuzzleError::Pattern);
            },
        }
        i = i + 1;
    }
    assert(flags_of(walls@) =~= flags_of_cells(groups_of(found@)));
    Ok(walls)
}

/// The pattern that finds the cells of a puzzle page and captures the class
/// list of each.
pub const CELL_PATTERN: &'static str =
    "<div tabindex=\"1\" class=\"cell selectable(.*?)cell-off\".*?</div>";

/// Finds the cells in the markup of a puzzle page and reads off their wall
/// flags, in the order in which the cells stand in the markup.
///
/// Whether the regex engine takes the pattern is for the engine to say. When
/// it does, every match of the pattern is a cell, and the flags are read off
/// the class list that the match captured.
pub fn extract_walls(markup: &[u8]) -> (r: Result<Vec<Walls>, PuzzleError>)
    ensures
        match r {
            Ok(walls) => {
                let found = first_groups(CELL_PATTERN@, markup@);
                &&& forall|i: int| 0 <= i < found.len() ==> (#[trigger] found[i]) is Some
                &&& flags_of(walls@) == flags_of_cells(found)
            },
            Err(e) => e == PuzzleError::Pattern,
        },
{
    match capture_first_groups(CELL_PATTERN, markup) {
        Ok(found) => {
            let r = walls_of_cells(&found);
            proof {
                if r is Ok {
                    assert forall|i: int|
                        0 <= i < groups_of(found@).len() implies (#[trigger] groups_of(
                        found@,
                    )[i]) is Some by {
                        assert(found[i] is Some);
                    }
                }
            }
            r
        },
        Err(_) => Err(PuzzleError::Pattern),
    }
}

} // verus!
