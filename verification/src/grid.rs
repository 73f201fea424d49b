//! The grid: a square of cells with a wall flag pair for each, and what it
//! means for two cells to be connected.

use crate::error::PuzzleError;
use crate::walls::{flags_of, WallFlags, Walls};
use vstd::prelude::*;

verus! {

/// The mathematical picture of a grid: its side length and, for every cell in
/// row-major order, what its wall flags say.
///
/// Cell `c` lies in row `c / size` and column `c % size`.
pub struct Layout {
    pub size: nat,
    pub walls: Seq<WallFlags>,
}

impl Layout {
    /// There is one wall flag pair for each of the `size * size` cells.
    pub open spec fn wf(self) -> bool {
        self.walls.len() == self.size * self.size
    }

    /// Whether `c` is the index of a cell.
    pub open spec fn has_cell(self, c: int) -> bool {
        0 <= c < self.size * self.size
    }

    /// Whether cell `c` has a neighbour above it and no wall towards it.
    pub open spec fn opens_up(self, c: int) -> bool {
        self.size <= c < self.size * self.size && !self.walls[c].blocked_above
    }

    /// Whether cell `c` has a neighbour to its left and no wall towards it.
    pub open spec fn opens_left(self, c: int) -> bool {
        0 <= c < self.size * self.size && c % (self.size as int) != 0
            && !self.walls[c].blocked_left
    }

    /// Whether `b` is the upper or the left neighbour of `a` and no wall
    /// stands between the two.
    pub open spec fn opens_onto(self, a: int, b: int) -> bool {
        (self.opens_up(a) && b == a - self.size) || (self.opens_left(a) && b == a - 1)
    }

    /// Whether `a` and `b` are side-by-side neighbours with no wall between
    /// them.
    pub open spec fn linked(self, a: int, b: int) -> bool {
        self.opens_onto(a, b) || self.opens_onto(b, a)
    }

    /// Whether `p` walks from cell to cell through open sides only.
    pub open spec fn is_path(self, p: Seq<int>) -> bool {
        &&& p.len() >= 1
        &&& self.has_cell(p[0])
        &&& forall|i: int| 0 <= i < p.len() - 1 ==> self.linked(#[trigger] p[i], p[i + 1])
    }

    /// Whether some walk through open sides leads from `a` to `b`: whether a
    /// flood fill that starts at `a` reaches `b`.
    pub open spec fn connected(self, a: int, b: int) -> bool {
        exists|p: Seq<int>| self.is_path(p) && p[0] == a && p[p.len() - 1] == b
    }

    /// Whether `c` is the first cell of its region: no cell before it is
    /// connected to it.
    pub open spec fn leads(self, c: int) -> bool {
        self.has_cell(c) && forall|d: int| 0 <= d < c ==> !#[trigger] self.connected(d, c)
    }

    /// How many of the first `n` cells are the first of their region.
    pub open spec fn leaders_below(self, n: int) -> nat
        decreases n,
    {
        if n <= 0 {
            0
        } else {
            self.leaders_below(n - 1) + if self.leads(n - 1) {
                1nat
            } else {
                0nat
            }
        }
    }

    /// The number of regions that the walls cut the grid into: one for every
    /// cell that is the first of its region.
    pub open spec fn region_count(self) -> nat {
        self.leaders_below((self.size * self.size) as int)
    }
}

/// A list of cell indices, as numbers.
pub open spec fn indices(cells: Seq<usize>) -> Seq<int> {
    Seq::new(cells.len(), |i: int| cells[i] as int)
}

/// Where the cell in row `i` and column `j` stands in row-major order.
pub proof fn lemma_cell_index(size: int, i: int, j: int)
    requires
        0 <= i < size,
        0 <= j < size,
    ensures
        0 <= size * i + j < size * size,
        size * i + size <= size * size,
        (size * i + j) % size == j,
        (size * i + j) / size == i,
{
    assert(size * i + size <= size * size) by (nonlinear_arith)
        requires
            0 <= i < size,
    ;
    assert(size * i >= 0) by (nonlinear_arith)
        requires
            0 <= i < size,
    ;
    assert(size * i == i * size) by (nonlinear_arith);
    vstd::arithmetic::div_mod::lemma_fundamental_div_mod_converse(size * i + j, size, i, j);
}

/// Linked cells are cells of the grid.
pub proof fn lemma_linked_cells(l: Layout, a: int, b: int)
    requires
        l.linked(a, b),
    ensures
        l.has_cell(a),
        l.has_cell(b),
        l.linked(b, a),
{
    let n = l.size as int;
    assert(n * n >= n) by (nonlinear_arith)
        requires
            n >= 0,
    ;
    if n > 0 {
        vstd::arithmetic::div_mod::lemma_small_mod(0, n as nat);
    }
}

/// Every cell on a path is a cell of the grid.
pub proof fn lemma_path_cells(l: Layout, p: Seq<int>, i: int)
    requires
        l.is_path(p),
        0 <= i < p.len(),
    ensures
        l.has_cell(p[i]),
    decreases i,
{
    if i > 0 {
        lemma_path_cells(l, p, i - 1);
        assert(l.linked(p[i - 1], p[i - 1 + 1]));
        lemma_linked_cells(l, p[i - 1], p[i]);
    }
}

/// Every cell is connected to itself.
pub proof fn lemma_connected_reflexive(l: Layout, a: int)
    requires
        l.has_cell(a),
    ensures
        l.connected(a, a),
{
    let p = seq![a];
    assert(l.is_path(p) && p[0] == a && p[p.len() - 1] == a);
}

/// Linked cells are connected.
pub proof fn lemma_linked_connected(l: Layout, a: int, b: int)
    requires
        l.linked(a, b),
    ensures
        l.connected(a, b),
{
    lemma_linked_cells(l, a, b);
    let p = seq![a, b];
    assert(l.is_path(p) && p[0] == a && p[p.len() - 1] == b);
}

/// Connection runs both ways.
pub proof fn lemma_connected_symmetric(l: Layout, a: int, b: int)
    requires
        l.connected(a, b),
    ensures
        l.connected(b, a),
{
    let p = choose|p: Seq<int>| l.is_path(p) && p[0] == a && p[p.len() - 1] == b;
    let q = Seq::new(p.len(), |i: int| p[p.len() - 1 - i]);
    lemma_path_cells(l, p, p.len() - 1);
    assert forall|i: int| 0 <= i < q.len() - 1 implies l.linked(#[trigger] q[i], q[i + 1]) by {
        let k = p.len() - 2 - i;
        assert(l.linked(p[k], p[k + 1]));
        lemma_linked_cells(l, p[k], p[k + 1]);
    }
    assert(l.is_path(q) && q[0] == b && q[q.len() - 1] == a);
}

/// Connection carries over a shared cell.
pub proof fn lemma_connected_transitive(l: Layout, a: int, b: int, c: int)
    requires
        l.connected(a, b),
        l.connected(b, c),
    ensures
        l.connected(a, c),
{
    let p = choose|p: Seq<int>| l.is_path(p) && p[0] == a && p[p.len() - 1] == b;
    let q = choose|q: Seq<int>| l.is_path(q) && q[0] == b && q[q.len() - 1] == c;
    let r = p + q.subrange(1, q.len() as int);
    assert forall|i: int| 0 <= i < r.len() - 1 implies l.linked(#[trigger] r[i], r[i + 1]) by {
        if i < p.len() - 1 {
            assert(l.linked(p[i], p[i + 1]));
        } else {
            let k = i - (p.len() - 1);
            assert(l.linked(q[k], q[k + 1]));
        }
    }
    assert(l.is_path(r) && r[0] == a && r[r.len() - 1] == c);
}

/// The number of cells of a square grid with side length `s`.
pub open spec fn square(s: nat) -> nat {
    s * s
}

/// Whether `count` cells can be laid out as a square grid.
pub open spec fn is_perfect_square(count: nat) -> bool {
    exists|s: nat| square(s) == count
}

/// The square of `s`, in a type wide enough to hold it.
fn wide_square(s: usize) -> (r: u128)
    ensures
        r == square(s as nat),
{
    assert(s * s <= u128::MAX) by (nonlinear_arith)
        requires
            0 <= s <= u64::MAX,
    ;
    (s as u128) * (s as u128)
}

/// The whole number whose square is `count`, if there is one.
pub fn side_length(count: usize) -> (r: Option<usize>)
    ensures
        match r {
            Some(s) => square(s as nat) == count,
            None => !is_perfect_square(count as nat),
        },
{
    let mut s: usize = 0;
    while wide_square(s) < (count as u128)
        invariant
            s <= count,
            forall|t: nat| t < s ==> #[trigger] square(t) < count,
        decreases count - s,
    {
        proof {
            let si = s as int;
            assert(si < count) by (nonlinear_arith)
                requires
                    si * si < count,
                    si >= 0,
            ;
            assert forall|t: nat| t < s + 1 implies #[trigger] square(t) < count by {
                assert(t * t <= si * si) by (nonlinear_arith)
                    requires
                        0 <= t <= si,
                ;
            }
        }
        s = s + 1;
    }
    if wide_square(s) == (count as u128) {
        Some(s)
    } else {
        proof {
            let si = s as int;
            assert forall|t: nat| square(t) != count by {
                if t >= s {
                    assert(t * t >= si * si) by (nonlinear_arith)
                        requires
                            t >= si,
                            si >= 0,
                    ;
                } else {
                    assert(square(t) < count);
                }
            }
        }
        None
    }
}

/// A square grid of cells, each with its wall flags, in row-major order.
#[derive(Debug)]
pub struct Grid {
    size: usize,
    walls: Vec<Walls>,
}

impl View for Grid {
    type V = Layout;

    closed spec fn view(&self) -> Layout {
        Layout { size: self.size as nat, walls: flags_of(self.walls@) }
    }
}

impl Grid {
    #[verifier::type_invariant]
    spec fn inv(self) -> bool {
        self.walls.len() == self.size * self.size
    }

    /// Lays the cells out as a square. Fails exactly when their number is not
    /// a perfect square.
    pub fn new(walls: Vec<Walls>) -> (r: Result<Grid, PuzzleError>)
        ensures
            match r {
                Ok(grid) => grid@.wf() && grid@.walls == flags_of(walls@),
                Err(e) => e == PuzzleError::NotSquare && !is_perfect_square(walls.len() as nat),
            },
    {
        match side_length(walls.len()) {
            Some(size) => Ok(Grid { size, walls }),
            None => Err(PuzzleError::NotSquare),
        }
    }

    /// The side length of the grid.
    pub fn size(&self) -> (n: usize)
        ensures
            n == self@.size,
    {
        self.size
    }

    /// The number of cells, which is the square of the side length.
    pub fn cell_count(&self) -> (n: usize)
        ensures
            n == self@.size * self@.size,
            self@.wf(),
    {
        proof {
            use_type_invariant(self);
        }
        self.walls.len()
    }

    /// The wall flags of cell `c`.
    pub fn walls_at(&self, c: usize) -> (w: Walls)
        requires
            self@.has_cell(c as int),
        ensures
            w@ == self@.walls[c as int],
    {
        proof {
            use_type_invariant(self);
        }
        self.walls[c]
    }
}

} // verus!
