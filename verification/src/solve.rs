//! From what the satisfiability engine reports to a solution of the puzzle.
//!
//! The engine itself stays outside: it is handed the model of a puzzle and
//! reports one of three outcomes. Nothing is taken on trust from it. An
//! assignment becomes a solution only after it has been checked against
//! every constraint of the model.

use crate::encoding::{column_cells, row_cells};
use crate::error::PuzzleError;
use crate::grid::lemma_cell_index;
use crate::model::stars_among;
use crate::puzzle::{Puzzle, PuzzleView};
use crate::rules::{lemma_model_implies_rules, lemma_rules_imply_model, star_at, touching};
use vstd::prelude::*;

verus! {

/// What the engine reports after its one check of the model.
#[derive(Debug)]
pub enum SolveOutcome {
    /// The model can be satisfied; the value of every boolean, in the order
    /// of the cells.
    Sat(Vec<bool>),
    /// The model cannot be satisfied.
    Unsat,
    /// The engine could not decide.
    Unknown,
}

/// The mathematical picture of a solution: the side length of the grid and,
/// for every cell in row-major order, whether it holds a star.
pub struct Placement {
    pub size: nat,
    pub stars: Seq<bool>,
}

/// A placement of stars that obeys the rules of the puzzle it was found for.
pub struct Solution {
    size: usize,
    stars: Vec<bool>,
    puzzle: Ghost<PuzzleView>,
}

impl View for Solution {
    type V = Placement;

    closed spec fn view(&self) -> Placement {
        Placement { size: self.size as nat, stars: self.stars@ }
    }
}

impl Solution {
    #[verifier::type_invariant]
    spec fn inv(self) -> bool {
        self.valid()
    }

    /// The puzzle that the placement solves.
    pub closed spec fn puzzle(self) -> PuzzleView {
        self.puzzle@
    }

    /// The placement is for a well-formed puzzle, covers its grid and obeys
    /// its rules.
    pub open spec fn valid(self) -> bool {
        &&& self.puzzle().wf()
        &&& self@.size == self.puzzle().layout.size
        &&& self.puzzle().solved_by(self@.stars)
    }

    /// The side length of the grid.
    pub fn size(&self) -> (n: usize)
        ensures
            n == self@.size,
    {
        self.size
    }

    /// Whether each cell holds a star, in row-major order.
    pub fn stars(&self) -> (stars: &Vec<bool>)
        ensures
            stars@ == self@.stars,
            self.valid(),
    {
        proof {
            use_type_invariant(self);
        }
        &self.stars
    }

    /// Whether the cell in row `row` and column `col` holds a star.
    pub fn has_star(&self, row: usize, col: usize) -> (star: bool)
        requires
            row < self@.size,
            col < self@.size,
        ensures
            star == star_at(self@.stars, self@.size, row as int, col as int),
    {
        proof {
            use_type_invariant(self);
            lemma_cell_index(self.size as int, row as int, col as int);
            assert(self.stars.len() == self.size * self.size);
        }
        self.stars[self.size * row + col]
    }
}

/// In a solution every row, every column and every region of the puzzle
/// holds exactly as many stars as the quota asks for.
pub proof fn lemma_solution_meets_quotas(s: Solution)
    requires
        s.valid(),
    ensures
        forall|row: int|
            0 <= row < s@.size ==> stars_among(s@.stars, #[trigger] row_cells(s@.size, row))
                == s.puzzle().quota(),
        forall|col: int|
            0 <= col < s@.size ==> stars_among(s@.stars, #[trigger] column_cells(s@.size, col))
                == s.puzzle().quota(),
        forall|g: int|
            0 <= g < s.puzzle().partition.groups.len() ==> stars_among(
                s@.stars,
                #[trigger] s.puzzle().partition.groups[g],
            ) == s.puzzle().quota(),
{
}

/// In a solution no two stars touch: not side by side, not one above the
/// other, and not corner to corner.
pub proof fn lemma_solution_stars_apart(s: Solution, r1: int, c1: int, r2: int, c2: int)
    requires
        s.valid(),
        0 <= r1 < s@.size,
        0 <= c1 < s@.size,
        0 <= r2 < s@.size,
        0 <= c2 < s@.size,
        touching(r1, c1, r2, c2),
    ensures
        !(star_at(s@.stars, s@.size, r1, c1) && star_at(s@.stars, s@.size, r2, c2)),
{
}

/// A solution, put back into the model of its puzzle, satisfies the model:
/// every exclusion, every row and column quota and every region quota.
pub proof fn lemma_solution_satisfies_model(s: Solution)
    requires
        s.valid(),
    ensures
        s.puzzle().model().satisfied_by(s@.stars),
{
    lemma_rules_imply_model(
        s.puzzle().layout.size,
        s.puzzle().partition.groups,
        s.puzzle().quota(),
        s@.stars,
    );
}

impl Puzzle {
    /// Turns the engine's report on the model of this puzzle into a solution
    /// or into the failure that the report stands for.
    ///
    /// An assignment is accepted exactly when it obeys the rules of the
    /// puzzle, whatever the engine claims for it.
    pub fn conclude(&self, outcome: SolveOutcome) -> (r: Result<Solution, PuzzleError>)
        ensures
            match r {
                Ok(solution) => {
                    &&& outcome matches SolveOutcome::Sat(stars)
                    &&& solution@.stars == stars@
                    &&& solution@.size == self@.layout.size
                    &&& solution.puzzle() == self@
                    &&& solution.valid()
                },
                Err(PuzzleError::Unsatisfiable) => outcome is Unsat,
                Err(PuzzleError::Indeterminate) => outcome is Unknown,
                Err(PuzzleError::InvalidAssignment) => outcome is Sat,
                Err(_) => false,
            },
            r is Ok <==> (outcome matches SolveOutcome::Sat(stars) && self@.solved_by(stars@)),
    {
        match outcome {
            SolveOutcome::Unsat => Err(PuzzleError::Unsatisfiable),
            SolveOutcome::Unknown => Err(PuzzleError::Indeterminate),
            SolveOutcome::Sat(stars) => {
                let model = self.model();
                let _ = self.grid();
                if model.is_satisfied_by(&stars) {
                    proof {
                        lemma_model_implies_rules(
                            self@.layout.size,
                            self@.partition.groups,
                            self@.quota(),
                            stars@,
                        );
                    }
                    Ok(Solution { size: self.size(), stars, puzzle: Ghost(self@) })
                } else {
                    proof {
                        if self@.solved_by(stars@) {
                            lemma_rules_imply_model(
                                self@.layout.size,
                                self@.partition.groups,
                                self@.quota(),
                                stars@,
                            );
                        }
                    }
                    Err(PuzzleError::InvalidAssignment)
                }
            },
        }
    }
}

} // verus!
