//! A well-formed puzzle: a square grid whose walls cut it into as many
//! regions as it has rows.

use crate::encoding::{build_model, model_of};
use crate::error::PuzzleError;
use crate::grid::{is_perfect_square, square, Grid, Layout};
use crate::model::{ConstraintModel, ModelView};
use crate::quota::{quota_of, star_quota};
use crate::regions::{
    build_regions, lemma_one_region_per_cell, lemma_region_count, Partition, Regions,
};
use crate::rules::obeys_rules;
use crate::walls::{flags_of, WallFlags, Walls};
use vstd::prelude::*;

verus! {

/// The mathematical picture of a puzzle: the grid and its regions.
pub struct PuzzleView {
    pub layout: Layout,
    pub partition: Partition,
}

impl PuzzleView {
    /// The regions are those that the walls cut the grid into, and there are
    /// as many of them as the grid has rows.
    pub open spec fn wf(self) -> bool {
        &&& self.layout.wf()
        &&& self.partition.divides(self.layout)
        &&& self.partition.groups.len() == self.layout.size
    }

    /// The number of stars that every row, column and region must hold.
    pub open spec fn quota(self) -> nat {
        quota_of(self.layout.size)
    }

    /// The constraint model of the puzzle.
    pub open spec fn model(self) -> ModelView {
        model_of(self.layout.size, self.partition.groups, self.quota())
    }

    /// Whether `stars` obeys the rules of the puzzle.
    pub open spec fn solved_by(self, stars: Seq<bool>) -> bool {
        obeys_rules(self.layout.size, self.partition.groups, self.quota(), stars)
    }
}

/// Whether `count` cells with the flags `flags` form a square grid of side
/// length `size` that its walls cut into a number of regions other than
/// `size`.
pub open spec fn miscounted(flags: Seq<WallFlags>, size: nat) -> bool {
    square(size) == flags.len() && (Layout { size, walls: flags }).region_count() != size
}

/// Different side lengths give different numbers of cells.
pub proof fn lemma_square_injective(a: nat, b: nat)
    requires
        square(a) == square(b),
    ensures
        a == b,
{
    assert(a == b) by (nonlinear_arith)
        requires
            a * a == b * b,
            a >= 0,
            b >= 0,
    ;
}

/// In a well-formed puzzle every cell belongs to exactly one region, and
/// there are as many regions as the grid has rows.
pub proof fn lemma_regions_partition_the_grid(p: PuzzleView, c: int)
    requires
        p.wf(),
        p.layout.has_cell(c),
    ensures
        p.partition.groups.len() == p.layout.size,
        p.layout.region_count() == p.layout.size,
        exists|g: int| 0 <= g < p.partition.groups.len() && p.partition.groups[g].contains(c),
        forall|g: int, h: int|
            0 <= g < p.partition.groups.len() && 0 <= h < p.partition.groups.len()
                && p.partition.groups[g].contains(c) && p.partition.groups[h].contains(c) ==> g
                == h,
{
    lemma_region_count(p.partition, p.layout);
    lemma_one_region_per_cell(p.partition, p.layout, c);
    assert(p.partition.groups[p.partition.region_of[c]].contains(c));
}

/// A puzzle that is fit to be solved.
#[derive(Debug)]
pub struct Puzzle {
    grid: Grid,
    regions: Regions,
}

impl View for Puzzle {
    type V = PuzzleView;

    closed spec fn view(&self) -> PuzzleView {
        PuzzleView { layout: self.grid@, partition: self.regions@ }
    }
}

impl Puzzle {
    #[verifier::type_invariant]
    spec fn inv(self) -> bool {
        self@.wf()
    }

    /// Makes a puzzle of the wall flags of its cells, given in row-major
    /// order. Fails when the cells do not form a square, and when the walls
    /// do not cut the square into as many regions as it has rows.
    pub fn new(walls: Vec<Walls>) -> (r: Result<Puzzle, PuzzleError>)
        ensures
            match r {
                Ok(puzzle) => {
                    &&& puzzle@.wf()
                    &&& puzzle@.layout.walls == flags_of(walls@)
                    &&& puzzle@.layout.region_count() == puzzle@.layout.size
                },
                Err(e) => e == PuzzleError::NotSquare || e == PuzzleError::RegionCount,
            },
            r == Err::<Puzzle, PuzzleError>(PuzzleError::NotSquare) <==> !is_perfect_square(walls.len() as nat),
            r == Err::<Puzzle, PuzzleError>(PuzzleError::RegionCount) <==> exists|size: nat|
                miscounted(flags_of(walls@), size),
    {
        let ghost flags = flags_of(walls@);
        let grid = match Grid::new(walls) {
            Ok(grid) => grid,
            Err(e) => {
                proof {
                    assert forall|size: nat| !miscounted(flags, size) by {
                        assert(square(size) != flags.len());
                    }
                }
                return Err(PuzzleError::NotSquare);
            },
        };
        let regions = build_regions(&grid);
        proof {
            lemma_region_count(regions@, grid@);
            assert(square(grid@.size) == flags.len());
            assert(grid@ == Layout { size: grid@.size, walls: flags });
        }
        if regions.count() != grid.size() {
            proof {
                assert(miscounted(flags, grid@.size));
            }
            return Err(PuzzleError::RegionCount);
        }
        proof {
            assert forall|size: nat| !miscounted(flags, size) by {
                if square(size) == flags.len() {
                    lemma_square_injective(size, grid@.size);
                }
            }
        }
        Ok(Puzzle { grid, regions })
    }

    /// The grid of the puzzle.
    pub fn grid(&self) -> (grid: &Grid)
        ensures
            grid@ == self@.layout,
            self@.wf(),
    {
        proof {
            use_type_invariant(self);
        }
        &self.grid
    }

    /// The regions of the puzzle.
    pub fn regions(&self) -> (regions: &Regions)
        ensures
            regions@ == self@.partition,
            self@.wf(),
    {
        proof {
            use_type_invariant(self);
        }
        &self.regions
    }

    /// The side length of the grid.
    pub fn size(&self) -> (n: usize)
        ensures
            n == self@.layout.size,
    {
        self.grid.size()
    }

    /// The number of stars that every row, column and region must hold.
    pub fn quota(&self) -> (k: usize)
        ensures
            k == self@.quota(),
    {
        star_quota(self.grid.size())
    }

    /// Builds the constraint model of the puzzle.
    pub fn model(&self) -> (model: ConstraintModel)
        ensures
            model@ == self@.model(),
            model@.wf(),
    {
        proof {
            use_type_invariant(self);
        }
        build_model(&self.grid, &self.regions, self.quota())
    }
}

} // verus!
