//! The star quota: how many stars every row, column and region must hold.

use vstd::prelude::*;

verus! {

/// The number of stars that every row, column and region of a grid with
/// side length `size` must hold.
pub open spec fn quota_of(size: nat) -> nat {
    if size < 10 {
        1
    } else if size < 14 {
        2
    } else if size < 17 {
        3
    } else if size < 21 {
        4
    } else if size < 25 {
        5
    } else {
        6
    }
}

/// Computes the star quota of a grid with side length `size`.
pub fn star_quota(size: usize) -> (k: usize)
    ensures
        k == quota_of(size as nat),
{
    if size < 10 {
        1
    } else if size < 14 {
        2
    } else if size < 17 {
        3
    } else if size < 21 {
        4
    } else if size < 25 {
        5
    } else {
        6
    }
}

} // verus!
