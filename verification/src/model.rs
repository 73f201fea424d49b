//! The constraint model: one boolean per cell, and constraints over them in
//! the two forms that a satisfiability engine is asked to take.

use crate::grid::indices;
use vstd::prelude::*;

verus! {

/// What a constraint says, over the indices of the booleans.
pub enum Rule {
    /// The two booleans are not both true.
    NotBoth { first: int, second: int },
    /// Exactly `count` of the listed booleans are true.
    Exactly { cells: Seq<int>, count: int },
}

/// How many of the listed booleans are true. A boolean that is listed twice
/// counts twice.
pub open spec fn stars_among(stars: Seq<bool>, cells: Seq<int>) -> nat
    decreases cells.len(),
{
    if cells.len() == 0 {
        0
    } else {
        stars_among(stars, cells.drop_last()) + if stars[cells.last()] {
            1nat
        } else {
            0nat
        }
    }
}

impl Rule {
    /// Whether the constraint speaks only of booleans `0 .. vars`.
    pub open spec fn within(self, vars: nat) -> bool {
        match self {
            Rule::NotBoth { first, second } => 0 <= first < vars && 0 <= second < vars,
            Rule::Exactly { cells, count } => forall|i: int|
                0 <= i < cells.len() ==> 0 <= #[trigger] cells[i] < vars,
        }
    }

    /// Whether the assignment `stars` meets the constraint.
    pub open spec fn holds(self, stars: Seq<bool>) -> bool {
        match self {
            Rule::NotBoth { first, second } => !(stars[first] && stars[second]),
            Rule::Exactly { cells, count } => stars_among(stars, cells) == count,
        }
    }
}

/// The mathematical picture of a model: the number of booleans and the
/// constraints in the order in which they are to be asserted.
pub struct ModelView {
    pub vars: nat,
    pub rules: Seq<Rule>,
}

impl ModelView {
    /// Whether every constraint speaks only of booleans of the model.
    pub open spec fn wf(self) -> bool {
        forall|k: int| 0 <= k < self.rules.len() ==> (#[trigger] self.rules[k]).within(self.vars)
    }

    /// Whether `stars` gives every boolean a value and meets every
    /// constraint.
    pub open spec fn satisfied_by(self, stars: Seq<bool>) -> bool {
        &&& stars.len() == self.vars
        &&& forall|k: int| 0 <= k < self.rules.len() ==> (#[trigger] self.rules[k]).holds(stars)
    }
}

/// A constraint, as handed to the engine.
#[derive(Debug, PartialEq, Eq)]
pub enum Constraint {
    /// The two booleans are not both true.
    NotBoth { first: usize, second: usize },
    /// Exactly `count` of the listed booleans are true.
    Exactly { cells: Vec<usize>, count: usize },
}

impl View for Constraint {
    type V = Rule;

    open spec fn view(&self) -> Rule {
        match self {
            Constraint::NotBoth { first, second } => Rule::NotBoth {
                first: *first as int,
                second: *second as int,
            },
            Constraint::Exactly { cells, count } => Rule::Exactly {
                cells: indices(cells@),
                count: *count as int,
            },
        }
    }
}

impl Clone for Constraint {
    /// A copy that says the same.
    fn clone(&self) -> (copy: Self)
        ensures
            copy@ == self@,
    {
        match self {
            Constraint::NotBoth { first, second } => Constraint::NotBoth {
                first: *first,
                second: *second,
            },
            Constraint::Exactly { cells, count } => Constraint::Exactly {
                cells: cells.clone(),
                count: *count,
            },
        }
    }
}

/// What a list of constraints says.
pub open spec fn rules_of(constraints: Seq<Constraint>) -> Seq<Rule> {
    Seq::new(constraints.len(), |k: int| constraints[k]@)
}

/// Counts the true booleans among the listed ones.
pub fn count_stars(stars: &Vec<bool>, cells: &Vec<usize>) -> (n: usize)
    requires
        forall|i: int| 0 <= i < cells.len() ==> #[trigger] cells[i] < stars.len(),
    ensures
        n == stars_among(stars@, indices(cells@)),
{
    let mut n: usize = 0;
    let mut i: usize = 0;
    while i < cells.len()
        invariant
            0 <= i <= cells.len(),
            n <= i,
            n == stars_among(stars@, indices(cells@).subrange(0, i as int)),
            forall|i: int| 0 <= i < cells.len() ==> #[trigger] cells[i] < stars.len(),
        decreases cells.len() - i,
    {
        proof {
            let next = indices(cells@).subrange(0, i + 1);
            assert(next.drop_last() =~= indices(cells@).subrange(0, i as int));
            assert(next.last() == cells[i as int]);
        }
        if stars[cells[i]] {
            n = n + 1;
        }
        i = i + 1;
    }
    proof {
        assert(indices(cells@).subrange(0, i as int) =~= indices(cells@));
    }
    n
}

impl Constraint {
    /// Whether the assignment meets the constraint.
    pub fn is_met_by(&self, stars: &Vec<bool>) -> (r: bool)
        requires
            self@.within(stars.len() as nat),
        ensures
            r == self@.holds(stars@),
    {
        match self {
            Constraint::NotBoth { first, second } => !(stars[*first] && stars[*second]),
            Constraint::Exactly { cells, count } => {
                assert forall|i: int| 0 <= i < cells.len() implies #[trigger] cells[i]
                    < stars.len() by {
                    let listed = self@->cells;
                    assert(listed == indices(cells@));
                    assert(0 <= listed[i] < stars.len());
                }
                count_stars(stars, cells) == *count
            },
        }
    }
}

/// A model ready to be handed to a satisfiability engine.
#[derive(Debug)]
pub struct ConstraintModel {
    vars: usize,
    constraints: Vec<Constraint>,
}

impl View for ConstraintModel {
    type V = ModelView;

    closed spec fn view(&self) -> ModelView {
        ModelView { vars: self.vars as nat, rules: rules_of(self.constraints@) }
    }
}

impl ConstraintModel {
    #[verifier::type_invariant]
    spec fn inv(self) -> bool {
        self@.wf()
    }

    /// A model over `vars` booleans with the given constraints, each of which
    /// must speak of those booleans only.
    pub fn new(vars: usize, constraints: Vec<Constraint>) -> (model: ConstraintModel)
        requires
            (ModelView { vars: vars as nat, rules: rules_of(constraints@) }).wf(),
        ensures
            model@ == (ModelView { vars: vars as nat, rules: rules_of(constraints@) }),
    {
        ConstraintModel { vars, constraints }
    }

    /// The number of booleans, one per cell.
    pub fn vars(&self) -> (n: usize)
        ensures
            n == self@.vars,
    {
        self.vars
    }

    /// The constraints, in the order in which they are to be asserted.
    pub fn constraints(&self) -> (cs: &Vec<Constraint>)
        ensures
            rules_of(cs@) == self@.rules,
            self@.wf(),
    {
        proof {
            use_type_invariant(self);
        }
        &self.constraints
    }

    /// Whether `stars` gives every boolean a value and meets every constraint
    /// of the model.
    pub fn is_satisfied_by(&self, stars: &Vec<bool>) -> (r: bool)
        ensures
            r == self@.satisfied_by(stars@),
    {
        proof {
            use_type_invariant(self);
        }
        if stars.len() != self.vars {
            return false;
        }
        let mut k: usize = 0;
        while k < self.constraints.len()
            invariant
                0 <= k <= self.constraints.len(),
                self@.wf(),
                stars.len() == self.vars,
                forall|m: int| 0 <= m < k ==> (#[trigger] self@.rules[m]).holds(stars@),
            decreases self.constraints.len() - k,
        {
            assert(self@.rules[k as int] == self.constraints[k as int]@);
            if !self.constraints[k].is_met_by(stars) {
                return false;
            }
            k = k + 1;
        }
        true
    }
}

} // verus!
