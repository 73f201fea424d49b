//! Regions: the cells of a grid grouped by connection through open sides.

use crate::grid::{
    indices, lemma_cell_index, lemma_connected_reflexive, lemma_connected_symmetric,
    lemma_connected_transitive, lemma_linked_cells, lemma_linked_connected, Grid, Layout,
};
use crate::union_find::{forest_find, forest_new, forest_union, joined, representatives, Forest};
use crate::walls::Walls;
use vstd::prelude::*;

verus! {

/// Every representative is an element.
spec fn in_range(roots: Seq<usize>) -> bool {
    forall|c: int| 0 <= c < roots.len() ==> #[trigger] roots[c] < roots.len()
}

/// Cells with the same representative are connected.
spec fn sound(l: Layout, roots: Seq<usize>) -> bool {
    forall|a: int, b: int|
        0 <= a < roots.len() && 0 <= b < roots.len() && #[trigger] roots[a] == #[trigger] roots[b]
            ==> l.connected(a, b)
}

/// Each of the first `done` cells has the representative of every upper or
/// left neighbour that it opens onto.
spec fn joined_upto(l: Layout, roots: Seq<usize>, done: int) -> bool {
    forall|c: int|
        0 <= c < done ==> (l.opens_up(c) ==> #[trigger] roots[c] == roots[c - l.size]) && (
        l.opens_left(c) ==> roots[c] == roots[c - 1])
}

/// The representatives tell exactly which cells are connected.
spec fn mirrors(l: Layout, roots: Seq<usize>) -> bool {
    &&& roots.len() == l.size * l.size
    &&& in_range(roots)
    &&& forall|a: int, b: int|
        l.has_cell(a) && l.has_cell(b) ==> (#[trigger] roots[a] == #[trigger] roots[b]
            <==> l.connected(a, b))
}

/// Joining two linked cells keeps the forest sound and parts no two cells
/// that shared a representative.
proof fn lemma_join_linked(l: Layout, before: Seq<usize>, after: Seq<usize>, x: int, y: int)
    requires
        before.len() == l.size * l.size,
        in_range(before),
        sound(l, before),
        l.linked(x, y),
        joined(before, after, x, y),
    ensures
        in_range(after),
        sound(l, after),
        after[x] == after[y],
        forall|a: int, b: int|
            0 <= a < before.len() && 0 <= b < before.len() && before[a] == before[b]
                ==> #[trigger] after[a] == #[trigger] after[b],
{
    lemma_linked_cells(l, x, y);
    lemma_linked_connected(l, x, y);
    lemma_linked_connected(l, y, x);
    assert forall|a: int, b: int|
        0 <= a < after.len() && 0 <= b < after.len() && #[trigger] after[a]
            == #[trigger] after[b] implies l.connected(a, b) by {
        let moved_a = before[a] == before[x] || before[a] == before[y];
        let moved_b = before[b] == before[x] || before[b] == before[y];
        if moved_a && moved_b {
            // a reaches x or y, and x or y reaches b
            let ka = if before[a] == before[x] { x } else { y };
            let kb = if before[b] == before[x] { x } else { y };
            assert(l.connected(a, ka));
            assert(l.connected(b, kb));
            lemma_connected_symmetric(l, b, kb);
            if ka != kb {
                lemma_connected_transitive(l, a, ka, kb);
            }
            lemma_connected_transitive(l, a, kb, b);
        } else if !moved_a && !moved_b {
            assert(before[a] == before[b]);
        } else {
            // one of them took the surviving representative, the other kept
            // a representative of neither set
            assert(after[x] == before[x] || after[x] == before[y]);
            assert(false);
        }
    }
}

/// A path runs inside one set once every open side has been joined.
proof fn lemma_path_one_set(l: Layout, roots: Seq<usize>, p: Seq<int>, i: int)
    requires
        roots.len() == l.size * l.size,
        joined_upto(l, roots, roots.len() as int),
        l.is_path(p),
        0 <= i < p.len(),
    ensures
        roots[p[0]] == roots[p[i]],
    decreases i,
{
    if i > 0 {
        lemma_path_one_set(l, roots, p, i - 1);
        let a = p[i - 1];
        let b = p[i];
        assert(l.linked(p[i - 1], p[i - 1 + 1]));
        lemma_linked_cells(l, a, b);
        if l.opens_onto(a, b) {
            assert(roots[a] == roots[b]);
        } else {
            assert(l.opens_onto(b, a));
            assert(roots[b] == roots[a]);
        }
    }
}

/// Once every open side has been joined, a sound forest mirrors connection.
proof fn lemma_all_joined(l: Layout, roots: Seq<usize>)
    requires
        roots.len() == l.size * l.size,
        in_range(roots),
        sound(l, roots),
        joined_upto(l, roots, roots.len() as int),
    ensures
        mirrors(l, roots),
{
    assert forall|a: int, b: int| l.has_cell(a) && l.has_cell(b) implies (#[trigger] roots[a]
        == #[trigger] roots[b] <==> l.connected(a, b)) by {
        if l.connected(a, b) {
            let p = choose|p: Seq<int>| l.is_path(p) && p[0] == a && p[p.len() - 1] == b;
            lemma_path_one_set(l, roots, p, p.len() - 1);
        }
    }
}

/// Joins every cell with the upper and the left neighbour that it opens
/// onto, cell by cell in row-major order.
fn join_open_sides(grid: &Grid) -> (forest: Forest)
    ensures
        mirrors(grid@, representatives(forest)),
{
    let size: usize = grid.size();
    let count: usize = grid.cell_count();
    let mut forest = forest_new(count);
    let ghost l = grid@;
    proof {
        assert forall|a: int, b: int|
            0 <= a < count && 0 <= b < count && #[trigger] representatives(forest)[a]
                == #[trigger] representatives(forest)[b] implies l.connected(a, b) by {
            lemma_connected_reflexive(l, a);
        }
    }
    let mut i: usize = 0;
    while i < size
        invariant
            l == grid@,
            l.wf(),
            size == l.size,
            count == l.size * l.size,
            0 <= i <= size,
            representatives(forest).len() == count,
            in_range(representatives(forest)),
            sound(l, representatives(forest)),
            joined_upto(l, representatives(forest), size * i),
        decreases size - i,
    {
        let mut j: usize = 0;
        while j < size
            invariant
                l == grid@,
                l.wf(),
                size == l.size,
                count == l.size * l.size,
                0 <= i < size,
                0 <= j <= size,
                representatives(forest).len() == count,
                in_range(representatives(forest)),
                sound(l, representatives(forest)),
                joined_upto(l, representatives(forest), size * i + j),
            decreases size - j,
        {
            proof {
                lemma_cell_index(size as int, i as int, j as int);
            }
            let idx: usize = size * i + j;
            let w: Walls = grid.walls_at(idx);
            let ghost start = representatives(forest);
            if i > 0 && !w.top() {
                let ghost before = representatives(forest);
                assert(size * i >= size) by (nonlinear_arith)
                    requires
                        i >= 1,
                        size >= 0,
                ;
                assert(l.opens_up(idx as int));
                forest_union(&mut forest, idx, idx - size);
                proof {
                    lemma_join_linked(
                        l,
                        before,
                        representatives(forest),
                        idx as int,
                        idx - size,
                    );
                }
            }
            let ghost middle = representatives(forest);
            if j > 0 && !w.left() {
                let ghost before = representatives(forest);
                assert(l.opens_left(idx as int));
                forest_union(&mut forest, idx, idx - 1);
                proof {
                    lemma_join_linked(l, before, representatives(forest), idx as int, idx - 1);
                }
            }
            proof {
                let roots = representatives(forest);
                assert forall|a: int, b: int|
                    0 <= a < count && 0 <= b < count && start[a] == start[b] implies roots[a]
                    == roots[b] by {
                    assert(middle[a] == middle[b]);
                }
                assert forall|c: int| 0 <= c < size * i + j + 1 implies (l.opens_up(c)
                    ==> #[trigger] roots[c] == roots[c - l.size]) && (l.opens_left(c) ==> roots[c]
                    == roots[c - 1]) by {
                    if c < size * i + j {
                        if l.opens_up(c) {
                            assert(start[c] == start[c - l.size]);
                        }
                        if l.opens_left(c) {
                            vstd::arithmetic::div_mod::lemma_small_mod(0, l.size);
                            assert(start[c] == start[c - 1]);
                        }
                    } else {
                        if l.opens_up(c) {
                            assert(i > 0) by (nonlinear_arith)
                                requires
                                    size * i + j >= size,
                                    j < size,
                                    i >= 0,
                            ;
                            assert(middle[c] == middle[c - l.size]);
                        }
                    }
                }
            }
            j = j + 1;
        }
        proof {
            assert(size * i + size == size * (i + 1)) by (nonlinear_arith);
        }
        i = i + 1;
    }
    proof {
        assert(size * size == count);
        lemma_all_joined(l, representatives(forest));
    }
    forest
}

/// The mathematical picture of a grid cut into regions: for every cell the
/// number of its region, and for every region the list of its cells.
pub struct Partition {
    pub region_of: Seq<int>,
    pub groups: Seq<Seq<int>>,
}

impl Partition {
    /// Every cell has a region, and that region lists the cell; a region
    /// lists only cells that have it as their region.
    pub open spec fn covers(self, l: Layout) -> bool {
        &&& self.region_of.len() == l.size * l.size
        &&& forall|c: int|
            l.has_cell(c) ==> 0 <= #[trigger] self.region_of[c] < self.groups.len()
                && self.groups[self.region_of[c]].contains(c)
        &&& forall|g: int, i: int|
            0 <= g < self.groups.len() && 0 <= i < self.groups[g].len() ==> l.has_cell(
                #[trigger] self.groups[g][i],
            ) && self.region_of[self.groups[g][i]] == g
    }

    /// No region is empty, every region lists its cells in ascending order,
    /// and the regions come in the order of their first cells.
    pub open spec fn ordered(self) -> bool {
        &&& forall|g: int| 0 <= g < self.groups.len() ==> (#[trigger] self.groups[g]).len() > 0
        &&& forall|g: int, i: int, j: int|
            0 <= g < self.groups.len() && 0 <= i < j < self.groups[g].len()
                ==> #[trigger] self.groups[g][i] < #[trigger] self.groups[g][j]
        &&& forall|g: int, h: int|
            0 <= g < h < self.groups.len() ==> (#[trigger] self.groups[g])[0]
                < (#[trigger] self.groups[h])[0]
    }

    /// Two cells have the same region exactly when they are connected.
    pub open spec fn follows_walls(self, l: Layout) -> bool {
        forall|a: int, b: int|
            l.has_cell(a) && l.has_cell(b) ==> (#[trigger] self.region_of[a]
                == #[trigger] self.region_of[b] <==> l.connected(a, b))
    }

    /// The regions are those that the walls of `l` cut the grid into.
    pub open spec fn divides(self, l: Layout) -> bool {
        self.covers(l) && self.ordered() && self.follows_walls(l)
    }
}

/// The cells of a grid, grouped into regions.
#[derive(Debug)]
pub struct Regions {
    region_of: Vec<usize>,
    groups: Vec<Vec<usize>>,
}

impl View for Regions {
    type V = Partition;

    closed spec fn view(&self) -> Partition {
        Partition {
            region_of: indices(self.region_of@),
            groups: Seq::new(self.groups@.len(), |g: int| indices(self.groups@[g]@)),
        }
    }
}

/// Groups the cells of `grid` into regions: two cells share a region exactly
/// when a walk through open sides leads from one to the other.
pub fn build_regions(grid: &Grid) -> (regions: Regions)
    ensures
        regions@.divides(grid@),
{
    let forest = join_open_sides(grid);
    let count: usize = grid.cell_count();
    let ghost l = grid@;
    let ghost roots = representatives(forest);
    // slot[r] is the region whose cells have representative r; `count` stands
    // for "no such region yet"
    let mut slot: Vec<usize> = vec![count; count];
    let mut region_of: Vec<usize> = Vec::new();
    let mut groups: Vec<Vec<usize>> = Vec::new();
    let ghost mut pos: Seq<int> = Seq::empty();
    let mut c: usize = 0;
    while c < count
        invariant
            roots == representatives(forest),
            roots.len() == count,
            in_range(roots),
            slot.len() == count,
            region_of.len() == c,
            pos.len() == c,
            groups.len() <= c <= count,
            forall|r: int| 0 <= r < count ==> #[trigger] slot[r] == count || slot[r] < groups.len(),
            forall|r: int|
                0 <= r < count && #[trigger] slot[r] < groups.len() ==> roots[groups[slot[r] as int][0] as int]
                    == r,
            forall|d: int|
                0 <= d < c ==> #[trigger] region_of[d] == slot[roots[d] as int] && region_of[d]
                    < groups.len(),
            forall|d: int|
                0 <= d < c ==> 0 <= #[trigger] pos[d] < groups[region_of[d] as int].len()
                    && groups[region_of[d] as int][pos[d]] == d,
            forall|g: int| 0 <= g < groups.len() ==> (#[trigger] groups[g]).len() > 0,
            forall|g: int, i: int|
                0 <= g < groups.len() && 0 <= i < groups[g].len() ==> #[trigger] groups[g][i] < c
                    && region_of[groups[g][i] as int] == g,
            forall|g: int, i: int, j: int|
                0 <= g < groups.len() && 0 <= i < j < groups[g].len() ==> #[trigger] groups[g][i]
                    < #[trigger] groups[g][j],
            forall|g: int, h: int|
                0 <= g < h < groups.len() ==> (#[trigger] groups[g])[0] < (#[trigger] groups[h])[0],
        decreases count - c,
    {
        let r: usize = forest_find(&forest, c);
        let g: usize = slot[r];
        if g == count {
            let mut cells: Vec<usize> = Vec::new();
            cells.push(c);
            slot.set(r, groups.len());
            region_of.push(groups.len());
            groups.push(cells);
            proof {
                pos = pos.push(0);
            }
        } else {
            let ghost at = groups[g as int].len() as int;
            groups[g].push(c);
            region_of.push(g);
            proof {
                pos = pos.push(at);
            }
        }
        c = c + 1;
    }
    let regions = Regions { region_of, groups };
    proof {
        let p = regions@;
        assert(p.covers(l)) by {
            assert forall|c: int| l.has_cell(c) implies 0 <= #[trigger] p.region_of[c]
                < p.groups.len() && p.groups[p.region_of[c]].contains(c) by {
                assert(p.groups[p.region_of[c]][pos[c]] == c);
            }
        }
        assert(p.ordered());
        assert(p.follows_walls(l)) by {
            assert forall|a: int, b: int| l.has_cell(a) && l.has_cell(b) implies (
            #[trigger] p.region_of[a] == #[trigger] p.region_of[b] <==> l.connected(a, b)) by {
                assert(regions.region_of[a] == slot[roots[a] as int]);
                assert(regions.region_of[b] == slot[roots[b] as int]);
            }
        }
    }
    regions
}

impl Regions {
    /// The number of regions.
    pub fn count(&self) -> (n: usize)
        ensures
            n == self@.groups.len(),
    {
        self.groups.len()
    }

    /// The cells of region `g`.
    pub fn cells(&self, g: usize) -> (cells: &Vec<usize>)
        requires
            g < self@.groups.len(),
        ensures
            indices(cells@) == self@.groups[g as int],
    {
        &self.groups[g]
    }

    /// The region of cell `c`.
    pub fn region_of(&self, c: usize) -> (g: usize)
        requires
            c < self@.region_of.len(),
        ensures
            g == self@.region_of[c as int],
    {
        self.region_of[c]
    }
}

/// The first cell that a region lists is the first cell of the region, and
/// the first cell of a region is the first that its region lists.
proof fn lemma_first_listed_leads(p: Partition, l: Layout)
    requires
        p.divides(l),
    ensures
        forall|g: int| 0 <= g < p.groups.len() ==> l.leads((#[trigger] p.groups[g])[0]),
        forall|c: int| l.leads(c) ==> p.groups[#[trigger] p.region_of[c]][0] == c,
{
    assert forall|g: int| 0 <= g < p.groups.len() implies l.leads((#[trigger] p.groups[g])[0]) by {
        let f = p.groups[g][0];
        assert(l.has_cell(p.groups[g][0]) && p.region_of[p.groups[g][0]] == g);
        assert forall|d: int| 0 <= d < f implies !#[trigger] l.connected(d, f) by {
            if l.connected(d, f) {
                assert(p.region_of[d] == p.region_of[f]);
                let i = choose|i: int| 0 <= i < p.groups[g].len() && p.groups[g][i] == d;
                if i > 0 {
                    assert(p.groups[g][0] < p.groups[g][i]);
                }
            }
        }
    }
    assert forall|c: int| l.leads(c) implies p.groups[#[trigger] p.region_of[c]][0] == c by {
        let g = p.region_of[c];
        let f = p.groups[g][0];
        assert(l.has_cell(p.groups[g][0]) && p.region_of[p.groups[g][0]] == g);
        let i = choose|i: int| 0 <= i < p.groups[g].len() && p.groups[g][i] == c;
        if i > 0 {
            assert(p.groups[g][0] < p.groups[g][i]);
            assert(p.region_of[f] == p.region_of[c]);
            assert(l.connected(f, c));
        }
    }
}

/// Among the first `n` cells there are as many first cells of regions as
/// there are regions that start before cell `n`.
proof fn lemma_leaders_below(p: Partition, l: Layout, n: int) -> (m: int)
    requires
        p.divides(l),
        0 <= n <= l.size * l.size,
    ensures
        0 <= m <= p.groups.len(),
        forall|g: int| 0 <= g < m ==> (#[trigger] p.groups[g])[0] < n,
        forall|g: int| m <= g < p.groups.len() ==> (#[trigger] p.groups[g])[0] >= n,
        l.leaders_below(n) == m,
    decreases n,
{
    if n == 0 {
        assert forall|g: int| 0 <= g < p.groups.len() implies (#[trigger] p.groups[g])[0] >= 0 by {
            assert(l.has_cell(p.groups[g][0]));
        }
        0
    } else {
        let before = lemma_leaders_below(p, l, n - 1);
        lemma_first_listed_leads(p, l);
        if l.leads(n - 1) {
            let g = p.region_of[n - 1];
            assert(p.groups[g][0] == n - 1);
            if g > before {
                assert(p.groups[before][0] < p.groups[g][0]);
            }
            assert(g == before);
            assert forall|h: int| before + 1 <= h < p.groups.len() implies (
            #[trigger] p.groups[h])[0] >= n by {
                assert(p.groups[before][0] < p.groups[h][0]);
            }
            before + 1
        } else {
            assert forall|h: int| before <= h < p.groups.len() implies (#[trigger] p.groups[h])[0]
                >= n by {
                assert(l.leads(p.groups[h][0]));
            }
            before
        }
    }
}

/// A grid has as many regions as it has cells that are the first of their
/// region.
pub proof fn lemma_region_count(p: Partition, l: Layout)
    requires
        p.divides(l),
    ensures
        p.groups.len() == l.region_count(),
{
    let m = lemma_leaders_below(p, l, (l.size * l.size) as int);
    if m < p.groups.len() {
        assert(l.has_cell(p.groups[m][0]));
    }
}

/// Every cell lies in exactly one region, and at one place in its list.
pub proof fn lemma_one_region_per_cell(p: Partition, l: Layout, c: int)
    requires
        p.divides(l),
        l.has_cell(c),
    ensures
        0 <= p.region_of[c] < p.groups.len(),
        p.groups[p.region_of[c]].contains(c),
        forall|g: int| 0 <= g < p.groups.len() && p.groups[g].contains(c) ==> g == p.region_of[c],
        forall|g: int, i: int, j: int|
            0 <= g < p.groups.len() && 0 <= i < p.groups[g].len() && 0 <= j < p.groups[g].len()
                && p.groups[g][i] == c && p.groups[g][j] == c ==> i == j,
{
    assert forall|g: int| 0 <= g < p.groups.len() && p.groups[g].contains(c) implies g
        == p.region_of[c] by {
        let i = choose|i: int| 0 <= i < p.groups[g].len() && p.groups[g][i] == c;
        assert(p.region_of[p.groups[g][i]] == g);
    }
    assert forall|g: int, i: int, j: int|
        0 <= g < p.groups.len() && 0 <= i < p.groups[g].len() && 0 <= j < p.groups[g].len()
            && p.groups[g][i] == c && p.groups[g][j] == c implies i == j by {
        if i < j {
            assert(p.groups[g][i] < p.groups[g][j]);
        }
        if j < i {
            assert(p.groups[g][j] < p.groups[g][i]);
        }
    }
}

/// Two lists in strictly ascending order that hold the same cells are the
/// same list.
proof fn lemma_ascending_lists_equal(a: Seq<int>, b: Seq<int>)
    requires
        forall|i: int, j: int| 0 <= i < j < a.len() ==> a[i] < a[j],
        forall|i: int, j: int| 0 <= i < j < b.len() ==> b[i] < b[j],
        forall|x: int| a.contains(x) <==> b.contains(x),
    ensures
        a == b,
    decreases a.len(),
{
    if a.len() == 0 {
        if b.len() > 0 {
            assert(b.contains(b[0]));
        }
        assert(a =~= b);
    } else {
        let top = a.last();
        assert(a.contains(top));
        let at = choose|i: int| 0 <= i < b.len() && b[i] == top;
        assert(b.contains(b.last()));
        let back = choose|i: int| 0 <= i < a.len() && a[i] == b.last();
        assert(b.last() == top) by {
            if back < a.len() - 1 {
                assert(a[back] < a[a.len() - 1]);
            }
            if at < b.len() - 1 {
                assert(b[at] < b[b.len() - 1]);
            }
        }
        let a0 = a.drop_last();
        let b0 = b.drop_last();
        assert forall|x: int| a0.contains(x) <==> b0.contains(x) by {
            if a0.contains(x) {
                let i = choose|i: int| 0 <= i < a0.len() && a0[i] == x;
                assert(a[i] < a[a.len() - 1]);
                assert(a.contains(a[i]));
                let k = choose|k: int| 0 <= k < b.len() && b[k] == x;
                assert(b0[k] == x);
            }
            if b0.contains(x) {
                let i = choose|i: int| 0 <= i < b0.len() && b0[i] == x;
                assert(b[i] < b[b.len() - 1]);
                assert(b.contains(b[i]));
                let k = choose|k: int| 0 <= k < a.len() && a[k] == x;
                assert(a0[k] == x);
            }
        }
        lemma_ascending_lists_equal(a0, b0);
        assert(a =~= a0.push(top));
        assert(b =~= b0.push(top));
    }
}

/// A region stands at the place that the number of earlier first cells
/// gives it.
proof fn lemma_place_of_region(p: Partition, l: Layout, g: int)
    requires
        p.divides(l),
        0 <= g < p.groups.len(),
    ensures
        l.leaders_below(p.groups[g][0]) == g,
{
    assert(l.has_cell(p.groups[g][0]));
    let m = lemma_leaders_below(p, l, p.groups[g][0]);
    if m < g {
        assert(p.groups[m][0] < p.groups[g][0]);
    }
}

/// The walls leave no choice: any two ways to divide a grid into regions are
/// the same, down to the order of the regions and of the cells in each.
pub proof fn lemma_regions_unique(p: Partition, q: Partition, l: Layout)
    requires
        p.divides(l),
        q.divides(l),
    ensures
        p == q,
{
    lemma_region_count(p, l);
    lemma_region_count(q, l);
    lemma_first_listed_leads(p, l);
    lemma_first_listed_leads(q, l);
    assert forall|g: int| 0 <= g < p.groups.len() implies (#[trigger] p.groups[g])[0]
        == q.groups[g][0] by {
        let f = p.groups[g][0];
        let h = q.region_of[f];
        assert(l.has_cell(p.groups[g][0]));
        assert(l.leads(f));
        assert(q.groups[h][0] == f);
        lemma_place_of_region(p, l, g);
        lemma_place_of_region(q, l, h);
    }
    assert forall|c: int| 0 <= c < p.region_of.len() implies p.region_of[c] == q.region_of[c] by {
        assert(l.has_cell(c));
        let g = p.region_of[c];
        let f = p.groups[g][0];
        assert(l.has_cell(p.groups[g][0]) && p.region_of[p.groups[g][0]] == g);
        assert(l.connected(f, c));
        assert(l.has_cell(q.groups[g][0]) && q.region_of[q.groups[g][0]] == g);
        assert(q.region_of[f] == q.region_of[c]);
    }
    assert(p.region_of =~= q.region_of);
    assert forall|g: int| 0 <= g < p.groups.len() implies #[trigger] p.groups[g] == q.groups[g] by {
        let a = p.groups[g];
        let b = q.groups[g];
        assert forall|x: int| a.contains(x) <==> b.contains(x) by {
            if a.contains(x) {
                let i = choose|i: int| 0 <= i < a.len() && a[i] == x;
                assert(l.has_cell(p.groups[g][i]) && p.region_of[p.groups[g][i]] == g);
                assert(q.groups[q.region_of[x]].contains(x));
            }
            if b.contains(x) {
                let i = choose|i: int| 0 <= i < b.len() && b[i] == x;
                assert(l.has_cell(q.groups[g][i]) && q.region_of[q.groups[g][i]] == g);
                assert(p.groups[p.region_of[x]].contains(x));
            }
        }
        assert forall|i: int, j: int| 0 <= i < j < a.len() implies a[i] < a[j] by {
            assert(p.groups[g][i] < p.groups[g][j]);
        }
        assert forall|i: int, j: int| 0 <= i < j < b.len() implies b[i] < b[j] by {
            assert(q.groups[g][i] < q.groups[g][j]);
        }
        lemma_ascending_lists_equal(a, b);
    }
    assert(p.groups =~= q.groups);
}

} // verus!
