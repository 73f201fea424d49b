//! The rules of the puzzle, stated on the grid itself, and the proof that the
//! constraint model says neither more nor less than the rules.

use crate::encoding::{
    apart, cell, column_cells, column_quotas, exclusions, exclusions_at, exclusions_in_row,
    model_of, region_quotas, row_cells, row_quotas,
};
use crate::model::{stars_among, Rule};
use vstd::prelude::*;

verus! {

/// Whether two different cells, given by row and column, touch: side by side
/// or corner to corner.
pub open spec fn touching(r1: int, c1: int, r2: int, c2: int) -> bool {
    (r1 != r2 || c1 != c2) && -1 <= r1 - r2 <= 1 && -1 <= c1 - c2 <= 1
}

/// Whether the cell in row `row` and column `col` holds a star.
pub open spec fn star_at(stars: Seq<bool>, size: nat, row: int, col: int) -> bool {
    stars[cell(size, row, col)]
}

/// No two stars touch, not even corner to corner.
pub open spec fn no_touching_stars(size: nat, stars: Seq<bool>) -> bool {
    forall|r1: int, c1: int, r2: int, c2: int|
        0 <= r1 < size && 0 <= c1 < size && 0 <= r2 < size && 0 <= c2 < size && touching(
            r1,
            c1,
            r2,
            c2,
        ) ==> !(#[trigger] star_at(stars, size, r1, c1) && #[trigger] star_at(
            stars,
            size,
            r2,
            c2,
        ))
}

/// Every row, every column and every region holds exactly `quota` stars.
pub open spec fn quotas_met(size: nat, groups: Seq<Seq<int>>, quota: nat, stars: Seq<bool>) -> bool {
    &&& forall|row: int|
        0 <= row < size ==> stars_among(stars, #[trigger] row_cells(size, row)) == quota
    &&& forall|col: int|
        0 <= col < size ==> stars_among(stars, #[trigger] column_cells(size, col)) == quota
    &&& forall|g: int| 0 <= g < groups.len() ==> stars_among(stars, #[trigger] groups[g]) == quota
}

/// The rules of the puzzle: a star or none for every cell, the quota in every
/// row, column and region, and no two stars that touch.
pub open spec fn obeys_rules(size: nat, groups: Seq<Seq<int>>, quota: nat, stars: Seq<bool>) -> bool {
    &&& stars.len() == size * size
    &&& quotas_met(size, groups, quota, stars)
    &&& no_touching_stars(size, stars)
}

/// A list that is glued from two holds what either of them holds.
proof fn lemma_contains_add(s: Seq<Rule>, t: Seq<Rule>, x: Rule)
    ensures
        (s + t).contains(x) <==> s.contains(x) || t.contains(x),
{
    if s.contains(x) {
        let i = choose|i: int| 0 <= i < s.len() && s[i] == x;
        assert((s + t)[i] == x);
    }
    if t.contains(x) {
        let i = choose|i: int| 0 <= i < t.len() && t[i] == x;
        assert((s + t)[s.len() + i] == x);
    }
    if (s + t).contains(x) {
        let i = choose|i: int| 0 <= i < (s + t).len() && (s + t)[i] == x;
        if i < s.len() {
            assert(s[i] == x);
        } else {
            assert(t[i - s.len()] == x);
        }
    }
}

/// What the exclusions of one cell are: the cell paired with each of its
/// neighbours above, to the left, above-left and above-right, as far as the
/// grid has them.
proof fn lemma_exclusions_at(size: nat, row: int, col: int, x: Rule)
    ensures
        exclusions_at(size, row, col).contains(x) <==> {
            ||| (row > 0 && x == Rule::NotBoth {
                first: cell(size, row, col),
                second: cell(size, row - 1, col),
            })
            ||| (col > 0 && x == Rule::NotBoth {
                first: cell(size, row, col),
                second: cell(size, row, col - 1),
            })
            ||| (row > 0 && col > 0 && x == Rule::NotBoth {
                first: cell(size, row, col),
                second: cell(size, row - 1, col - 1),
            })
            ||| (row > 0 && col < size - 1 && x == Rule::NotBoth {
                first: cell(size, row, col),
                second: cell(size, row - 1, col + 1),
            })
        },
{
    let here = cell(size, row, col);
    let above = if row > 0 {
        apart(here, cell(size, row - 1, col))
    } else {
        Seq::empty()
    };
    let left = if col > 0 {
        apart(here, cell(size, row, col - 1))
    } else {
        Seq::empty()
    };
    let above_left = if row > 0 && col > 0 {
        apart(here, cell(size, row - 1, col - 1))
    } else {
        Seq::empty()
    };
    let above_right = if row > 0 && col < size - 1 {
        apart(here, cell(size, row - 1, col + 1))
    } else {
        Seq::empty()
    };
    lemma_contains_add(above + left + above_left, above_right, x);
    lemma_contains_add(above + left, above_left, x);
    lemma_contains_add(above, left, x);
    assert(forall|a: int, b: int| apart(a, b).contains(x) <==> x == Rule::NotBoth { first: a, second: b }) by {
        assert forall|a: int, b: int| apart(a, b).contains(x) <==> x == (Rule::NotBoth {
            first: a,
            second: b,
        }) by {
            assert(apart(a, b)[0] == Rule::NotBoth { first: a, second: b });
        }
    }
    assert(!Seq::<Rule>::empty().contains(x));
}

/// The exclusions of a row hold the exclusions of each of its cells, and
/// nothing else.
proof fn lemma_exclusions_in_row(size: nat, row: int, cols: int, x: Rule)
    requires
        0 <= cols,
    ensures
        exclusions_in_row(size, row, cols).contains(x) <==> exists|col: int|
            0 <= col < cols && #[trigger] exclusions_at(size, row, col).contains(x),
    decreases cols,
{
    if cols > 0 {
        lemma_exclusions_in_row(size, row, cols - 1, x);
        lemma_contains_add(
            exclusions_in_row(size, row, cols - 1),
            exclusions_at(size, row, cols - 1),
            x,
        );
    }
}

/// The exclusions of the first rows hold the exclusions of each cell of
/// those rows, and nothing else.
proof fn lemma_exclusions(size: nat, rows: int, x: Rule)
    requires
        0 <= rows,
    ensures
        exclusions(size, rows).contains(x) <==> exists|row: int, col: int|
            0 <= row < rows && 0 <= col < size && #[trigger] exclusions_at(size, row, col).contains(
                x,
            ),
    decreases rows,
{
    if rows > 0 {
        lemma_exclusions(size, rows - 1, x);
        lemma_exclusions_in_row(size, rows - 1, size as int, x);
        lemma_contains_add(
            exclusions(size, rows - 1),
            exclusions_in_row(size, rows - 1, size as int),
            x,
        );
    }
}

/// An assignment that satisfies the model of a puzzle obeys the rules of the
/// puzzle: every row, column and region holds exactly the quota of stars, and
/// no two stars touch.
pub proof fn lemma_model_implies_rules(
    size: nat,
    groups: Seq<Seq<int>>,
    quota: nat,
    stars: Seq<bool>,
)
    requires
        model_of(size, groups, quota).satisfied_by(stars),
    ensures
        obeys_rules(size, groups, quota, stars),
{
    let m = model_of(size, groups, quota);
    let e = exclusions(size, size as int);
    let r = row_quotas(size, quota);
    let c = column_quotas(size, quota);
    let g = region_quotas(groups, quota);
    assert forall|row: int| 0 <= row < size implies stars_among(
        stars,
        #[trigger] row_cells(size, row),
    ) == quota by {
        assert(m.rules[e.len() + row] == r[row]);
        assert(m.rules[e.len() + row].holds(stars));
    }
    assert forall|col: int| 0 <= col < size implies stars_among(
        stars,
        #[trigger] column_cells(size, col),
    ) == quota by {
        assert(m.rules[e.len() + r.len() + col] == c[col]);
        assert(m.rules[e.len() + r.len() + col].holds(stars));
    }
    assert forall|k: int| 0 <= k < groups.len() implies stars_among(stars, #[trigger] groups[k])
        == quota by {
        assert(m.rules[e.len() + r.len() + c.len() + k] == g[k]);
        assert(m.rules[e.len() + r.len() + c.len() + k].holds(stars));
    }
    assert forall|r1: int, c1: int, r2: int, c2: int|
        0 <= r1 < size && 0 <= c1 < size && 0 <= r2 < size && 0 <= c2 < size && touching(
            r1,
            c1,
            r2,
            c2,
        ) implies !(#[trigger] star_at(stars, size, r1, c1) && #[trigger] star_at(
        stars,
        size,
        r2,
        c2,
    )) by {
        let later = r1 > r2 || (r1 == r2 && c1 > c2);
        let (row, col, other_row, other_col) = if later {
            (r1, c1, r2, c2)
        } else {
            (r2, c2, r1, c1)
        };
        let x = Rule::NotBoth {
            first: cell(size, row, col),
            second: cell(size, other_row, other_col),
        };
        lemma_exclusions_at(size, row, col, x);
        assert(exclusions_at(size, row, col).contains(x));
        lemma_exclusions(size, size as int, x);
        let i = choose|i: int| 0 <= i < e.len() && e[i] == x;
        assert(m.rules[i] == x);
        assert(m.rules[i].holds(stars));
    }
}

/// An assignment that obeys the rules of a puzzle satisfies every constraint
/// of its model: the exclusions, the row and column quotas and the region
/// quotas.
pub proof fn lemma_rules_imply_model(
    size: nat,
    groups: Seq<Seq<int>>,
    quota: nat,
    stars: Seq<bool>,
)
    requires
        obeys_rules(size, groups, quota, stars),
    ensures
        model_of(size, groups, quota).satisfied_by(stars),
{
    let m = model_of(size, groups, quota);
    let e = exclusions(size, size as int);
    let r = row_quotas(size, quota);
    let c = column_quotas(size, quota);
    let g = region_quotas(groups, quota);
    assert forall|k: int| 0 <= k < m.rules.len() implies (#[trigger] m.rules[k]).holds(stars) by {
        if k < e.len() {
            let x = e[k];
            assert(e.contains(x));
            lemma_exclusions(size, size as int, x);
            let (row, col) = choose|row: int, col: int|
                0 <= row < size && 0 <= col < size && #[trigger] exclusions_at(
                    size,
                    row,
                    col,
                ).contains(x);
            lemma_exclusions_at(size, row, col, x);
            assert(star_at(stars, size, row, col) == stars[cell(size, row, col)]);
            if row > 0 {
                assert(star_at(stars, size, row - 1, col) == stars[cell(size, row - 1, col)]);
                assert(touching(row, col, row - 1, col));
                if col > 0 {
                    assert(star_at(stars, size, row - 1, col - 1) == stars[cell(
                        size,
                        row - 1,
                        col - 1,
                    )]);
                    assert(touching(row, col, row - 1, col - 1));
                }
                if col < size - 1 {
                    assert(star_at(stars, size, row - 1, col + 1) == stars[cell(
                        size,
                        row - 1,
                        col + 1,
                    )]);
                    assert(touching(row, col, row - 1, col + 1));
                }
            }
            if col > 0 {
                assert(star_at(stars, size, row, col - 1) == stars[cell(size, row, col - 1)]);
                assert(touching(row, col, row, col - 1));
            }
        } else if k < e.len() + r.len() {
            assert(m.rules[k] == r[k - e.len()]);
            assert(stars_among(stars, row_cells(size, k - e.len())) == quota);
        } else if k < e.len() + r.len() + c.len() {
            assert(m.rules[k] == c[k - e.len() - r.len()]);
            assert(stars_among(stars, column_cells(size, k - e.len() - r.len())) == quota);
        } else {
            let i = k - e.len() - r.len() - c.len();
            assert(m.rules[k] == g[i]);
            assert(stars_among(stars, groups[i]) == quota);
        }
    }
}

/// Whether the constraint keeps stars off both of the cells `a` and `b`.
pub open spec fn keeps_apart(rule: Rule, a: int, b: int) -> bool {
    rule == (Rule::NotBoth { first: a, second: b }) || rule == (Rule::NotBoth {
        first: b,
        second: a,
    })
}

/// How many constraints of the list keep stars off both of the cells `a`
/// and `b`.
pub open spec fn exclusions_between(rules: Seq<Rule>, a: int, b: int) -> nat
    decreases rules.len(),
{
    if rules.len() == 0 {
        0
    } else {
        exclusions_between(rules.drop_last(), a, b) + if keeps_apart(rules.last(), a, b) {
            1nat
        } else {
            0nat
        }
    }
}

/// Counting over a glued list is counting over its two parts.
proof fn lemma_exclusions_between_add(s: Seq<Rule>, t: Seq<Rule>, a: int, b: int)
    ensures
        exclusions_between(s + t, a, b) == exclusions_between(s, a, b) + exclusions_between(
            t,
            a,
            b,
        ),
    decreases t.len(),
{
    if t.len() == 0 {
        assert(s + t =~= s);
    } else {
        assert((s + t).drop_last() =~= s + t.drop_last());
        assert((s + t).last() == t.last());
        lemma_exclusions_between_add(s, t.drop_last(), a, b);
    }
}

/// Counting over a list of one or of no constraint.
proof fn lemma_exclusions_between_one(x: int, y: int, a: int, b: int)
    ensures
        exclusions_between(apart(x, y), a, b) == if (x == a && y == b) || (x == b && y == a) {
            1nat
        } else {
            0nat
        },
        exclusions_between(Seq::empty(), a, b) == 0,
{
    assert(apart(x, y).drop_last() =~= Seq::empty());
    assert(apart(x, y).last() == Rule::NotBoth { first: x, second: y });
    reveal_with_fuel(exclusions_between, 2);
}

/// Cells are numbered row by row: different places have different numbers,
/// and the number of a cell is known from the numbers around it.
proof fn lemma_cell_numbers(size: nat, row: int, col: int)
    requires
        0 <= row < size,
        0 <= col < size,
    ensures
        0 <= cell(size, row, col) < size * size,
        cell(size, row, col) / (size as int) == row,
        cell(size, row, col) % (size as int) == col,
        cell(size, row - 1, col) == cell(size, row, col) - size,
        cell(size, row, col - 1) == cell(size, row, col) - 1,
        cell(size, row - 1, col - 1) == cell(size, row, col) - size - 1,
        cell(size, row - 1, col + 1) == cell(size, row, col) - size + 1,
{
    crate::grid::lemma_cell_index(size as int, row, col);
    assert(size * (row - 1) == size * row - size) by (nonlinear_arith);
}

/// The exclusions of one cell hold one constraint for a pair of cells when
/// the cell is the later of the two and touches the other, and none
/// otherwise.
proof fn lemma_exclusions_between_at(
    size: nat,
    row: int,
    col: int,
    rl: int,
    cl: int,
    re: int,
    ce: int,
)
    requires
        0 <= row < size,
        0 <= col < size,
        0 <= rl < size,
        0 <= cl < size,
        0 <= re < size,
        0 <= ce < size,
        rl > re || (rl == re && cl > ce),
    ensures
        exclusions_between(
            exclusions_at(size, row, col),
            cell(size, rl, cl),
            cell(size, re, ce),
        ) == if row == rl && col == cl && touching(rl, cl, re, ce) {
            1nat
        } else {
            0nat
        },
{
    let here = cell(size, row, col);
    let a = cell(size, rl, cl);
    let b = cell(size, re, ce);
    lemma_cell_numbers(size, row, col);
    lemma_cell_numbers(size, rl, cl);
    lemma_cell_numbers(size, re, ce);
    assert(b < a) by (nonlinear_arith)
        requires
            a == size * rl + cl,
            b == size * re + ce,
            0 <= cl < size,
            0 <= ce < size,
            0 <= re,
            rl > re || (rl == re && cl > ce),
    ;
    let above = if row > 0 {
        apart(here, cell(size, row - 1, col))
    } else {
        Seq::empty()
    };
    let left = if col > 0 {
        apart(here, cell(size, row, col - 1))
    } else {
        Seq::empty()
    };
    let above_left = if row > 0 && col > 0 {
        apart(here, cell(size, row - 1, col - 1))
    } else {
        Seq::empty()
    };
    let above_right = if row > 0 && col < size - 1 {
        apart(here, cell(size, row - 1, col + 1))
    } else {
        Seq::empty()
    };
    lemma_exclusions_between_add(above + left + above_left, above_right, a, b);
    lemma_exclusions_between_add(above + left, above_left, a, b);
    lemma_exclusions_between_add(above, left, a, b);
    lemma_exclusions_between_one(here, cell(size, row - 1, col), a, b);
    lemma_exclusions_between_one(here, cell(size, row, col - 1), a, b);
    lemma_exclusions_between_one(here, cell(size, row - 1, col - 1), a, b);
    lemma_exclusions_between_one(here, cell(size, row - 1, col + 1), a, b);
    if here == a {
        // the place of the later cell tells the place of the other
        assert(row == rl && col == cl);
        if row > 0 {
            lemma_cell_numbers(size, row - 1, col);
            if col > 0 {
                lemma_cell_numbers(size, row - 1, col - 1);
            }
            if col < size - 1 {
                lemma_cell_numbers(size, row - 1, col + 1);
            }
        }
        if col > 0 {
            lemma_cell_numbers(size, row, col - 1);
        }
    }
}

/// The exclusions of the first cells of a row hold one constraint for a pair
/// of cells when the later of the two is among those cells and touches the
/// other, and none otherwise.
proof fn lemma_exclusions_between_in_row(
    size: nat,
    row: int,
    cols: int,
    rl: int,
    cl: int,
    re: int,
    ce: int,
)
    requires
        0 <= row < size,
        0 <= cols <= size,
        0 <= rl < size,
        0 <= cl < size,
        0 <= re < size,
        0 <= ce < size,
        rl > re || (rl == re && cl > ce),
    ensures
        exclusions_between(
            exclusions_in_row(size, row, cols),
            cell(size, rl, cl),
            cell(size, re, ce),
        ) == if row == rl && cl < cols && touching(rl, cl, re, ce) {
            1nat
        } else {
            0nat
        },
    decreases cols,
{
    if cols > 0 {
        lemma_exclusions_between_in_row(size, row, cols - 1, rl, cl, re, ce);
        lemma_exclusions_between_at(size, row, cols - 1, rl, cl, re, ce);
        lemma_exclusions_between_add(
            exclusions_in_row(size, row, cols - 1),
            exclusions_at(size, row, cols - 1),
            cell(size, rl, cl),
            cell(size, re, ce),
        );
    }
}

/// The exclusions of the first rows hold one constraint for a pair of cells
/// when the later of the two lies in those rows and touches the other, and
/// none otherwise.
proof fn lemma_exclusions_between_rows(
    size: nat,
    rows: int,
    rl: int,
    cl: int,
    re: int,
    ce: int,
)
    requires
        0 <= rows <= size,
        0 <= rl < size,
        0 <= cl < size,
        0 <= re < size,
        0 <= ce < size,
        rl > re || (rl == re && cl > ce),
    ensures
        exclusions_between(exclusions(size, rows), cell(size, rl, cl), cell(size, re, ce)) == if rl
            < rows && touching(rl, cl, re, ce) {
            1nat
        } else {
            0nat
        },
    decreases rows,
{
    if rows > 0 {
        lemma_exclusions_between_rows(size, rows - 1, rl, cl, re, ce);
        lemma_exclusions_between_in_row(size, rows - 1, size as int, rl, cl, re, ce);
        lemma_exclusions_between_add(
            exclusions(size, rows - 1),
            exclusions_in_row(size, rows - 1, size as int),
            cell(size, rl, cl),
            cell(size, re, ce),
        );
    }
}

/// The order of the two cells does not matter to the count.
proof fn lemma_exclusions_between_swap(rules: Seq<Rule>, a: int, b: int)
    ensures
        exclusions_between(rules, a, b) == exclusions_between(rules, b, a),
    decreases rules.len(),
{
    if rules.len() > 0 {
        lemma_exclusions_between_swap(rules.drop_last(), a, b);
    }
}

/// The model keeps every pair of touching cells apart by exactly one
/// exclusion, and holds no exclusion for two cells that do not touch.
pub proof fn lemma_one_exclusion_per_touching_pair(
    size: nat,
    r1: int,
    c1: int,
    r2: int,
    c2: int,
)
    requires
        0 <= r1 < size,
        0 <= c1 < size,
        0 <= r2 < size,
        0 <= c2 < size,
        r1 != r2 || c1 != c2,
    ensures
        exclusions_between(
            exclusions(size, size as int),
            cell(size, r1, c1),
            cell(size, r2, c2),
        ) == if touching(r1, c1, r2, c2) {
            1nat
        } else {
            0nat
        },
{
    if r1 > r2 || (r1 == r2 && c1 > c2) {
        lemma_exclusions_between_rows(size, size as int, r1, c1, r2, c2);
    } else {
        lemma_exclusions_between_rows(size, size as int, r2, c2, r1, c1);
        lemma_exclusions_between_swap(
            exclusions(size, size as int),
            cell(size, r1, c1),
            cell(size, r2, c2),
        );
    }
}

} // verus!
