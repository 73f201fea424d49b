//! The drawing of a solution: a table with box-drawing borders whose cells
//! are three characters wide and show a star or nothing.

use crate::encoding::cell;
use crate::grid::lemma_cell_index;
use crate::rules::star_at;
use crate::solve::Solution;
use vstd::prelude::*;
use vstd::string::StringExecFns;

verus! {

/// `times` copies of `piece`, one after the other.
pub open spec fn repeated(piece: Seq<char>, times: int) -> Seq<char>
    decreases times,
{
    if times <= 0 {
        Seq::empty()
    } else {
        repeated(piece, times - 1) + piece
    }
}

/// The border above the first row.
pub open spec fn top_border(size: nat) -> Seq<char> {
    seq!['┌', '─', '─', '─'] + repeated(seq!['┬', '─', '─', '─'], size - 1) + seq!['┐', '\n']
}

/// The line between two rows.
pub open spec fn divider(size: nat) -> Seq<char> {
    seq!['├', '─', '─', '─'] + repeated(seq!['┼', '─', '─', '─'], size - 1) + seq!['┤', '\n']
}

/// The border below the last row.
pub open spec fn bottom_border(size: nat) -> Seq<char> {
    seq!['└', '─', '─', '─'] + repeated(seq!['┴', '─', '─', '─'], size - 1) + seq!['┘', '\n']
}

/// One cell with the bar to its left.
pub open spec fn cell_drawn(star: bool) -> Seq<char> {
    if star {
        seq!['│', ' ', '★', ' ']
    } else {
        seq!['│', ' ', ' ', ' ']
    }
}

/// The first `cols` cells of a row.
pub open spec fn cells_drawn(stars: Seq<bool>, size: nat, row: int, cols: int) -> Seq<char>
    decreases cols,
{
    if cols <= 0 {
        Seq::empty()
    } else {
        cells_drawn(stars, size, row, cols - 1) + cell_drawn(star_at(stars, size, row, cols - 1))
    }
}

/// A whole row: its cells, the closing bar and, unless the row is the last,
/// the divider below it.
pub open spec fn row_drawn(stars: Seq<bool>, size: nat, row: int) -> Seq<char> {
    cells_drawn(stars, size, row, size as int) + seq!['│', '\n'] + if row != size - 1 {
        divider(size)
    } else {
        Seq::empty()
    }
}

/// The first `rows` rows.
pub open spec fn rows_drawn(stars: Seq<bool>, size: nat, rows: int) -> Seq<char>
    decreases rows,
{
    if rows <= 0 {
        Seq::empty()
    } else {
        rows_drawn(stars, size, rows - 1) + row_drawn(stars, size, rows - 1)
    }
}

/// The whole table.
pub open spec fn drawing(size: nat, stars: Seq<bool>) -> Seq<char> {
    top_border(size) + rows_drawn(stars, size, size as int) + bottom_border(size)
}

/// Appends a border or a divider: `left`, then `joint` once for every column
/// after the first, then `right`.
fn push_line(out: &mut String, left: &str, joint: &str, right: &str, size: usize)
    ensures
        final(out)@ == old(out)@ + left@ + repeated(joint@, size - 1) + right@,
{
    out.append(left);
    let ghost start = out@;
    let mut j: usize = 1;
    assert(out@ =~= start + repeated(joint@, 0));
    while j < size
        invariant
            1 <= j,
            j <= size || (size == 0 && j == 1),
            out@ == start + repeated(joint@, j - 1),
        decreases size - j,
    {
        out.append(joint);
        assert(out@ =~= start + repeated(joint@, j as int));
        j = j + 1;
    }
    assert(repeated(joint@, j - 1) == repeated(joint@, size - 1)) by {
        if size == 0 {
            assert(repeated(joint@, 0) =~= repeated(joint@, -1));
        }
    }
    out.append(right);
}

impl Solution {
    /// Draws the solution as a table: a top border, one line per row with a
    /// divider between rows, and a bottom border.
    pub fn render(&self) -> (out: String)
        ensures
            out@ == drawing(self@.size, self@.stars),
    {
        let size: usize = self.size();
        let stars = self.stars();
        let ghost n = size as nat;
        proof {
            reveal_strlit("┌───");
            reveal_strlit("┬───");
            reveal_strlit("┐\n");
            reveal_strlit("├───");
            reveal_strlit("┼───");
            reveal_strlit("┤\n");
            reveal_strlit("└───");
            reveal_strlit("┴───");
            reveal_strlit("┘\n");
            reveal_strlit("│ ★ ");
            reveal_strlit("│   ");
            reveal_strlit("│\n");
            assert("┌───"@ =~= seq!['┌', '─', '─', '─']);
            assert("┬───"@ =~= seq!['┬', '─', '─', '─']);
            assert("┐\n"@ =~= seq!['┐', '\n']);
            assert("├───"@ =~= seq!['├', '─', '─', '─']);
            assert("┼───"@ =~= seq!['┼', '─', '─', '─']);
            assert("┤\n"@ =~= seq!['┤', '\n']);
            assert("└───"@ =~= seq!['└', '─', '─', '─']);
            assert("┴───"@ =~= seq!['┴', '─', '─', '─']);
            assert("┘\n"@ =~= seq!['┘', '\n']);
            assert("│ ★ "@ =~= cell_drawn(true));
            assert("│   "@ =~= cell_drawn(false));
            assert("│\n"@ =~= seq!['│', '\n']);
        }
        let mut out = String::new();
        push_line(&mut out, "┌───", "┬───", "┐\n", size);
        assert(out@ =~= top_border(n) + rows_drawn(stars@, n, 0));
        let mut i: usize = 0;
        while i < size
            invariant
                n == size,
                stars@ == self@.stars,
                stars.len() == size * size,
                0 <= i <= size,
                out@ == top_border(n) + rows_drawn(stars@, n, i as int),
                "│ ★ "@ == cell_drawn(true),
                "│   "@ == cell_drawn(false),
                "│\n"@ == seq!['│', '\n'],
                "├───"@ == seq!['├', '─', '─', '─'],
                "┼───"@ == seq!['┼', '─', '─', '─'],
                "┤\n"@ == seq!['┤', '\n'],
            decreases size - i,
        {
            let ghost start = out@;
            let mut j: usize = 0;
            assert(out@ =~= start + cells_drawn(stars@, n, i as int, 0));
            while j < size
                invariant
                    n == size,
                    stars@ == self@.stars,
                    stars.len() == size * size,
                    0 <= i < size,
                    0 <= j <= size,
                    out@ == start + cells_drawn(stars@, n, i as int, j as int),
                    "│ ★ "@ == cell_drawn(true),
                    "│   "@ == cell_drawn(false),
                decreases size - j,
            {
                proof {
                    lemma_cell_index(size as int, i as int, j as int);
                }
                if stars[size * i + j] {
                    out.append("│ ★ ");
                } else {
                    out.append("│   ");
                }
                assert(out@ =~= start + cells_drawn(stars@, n, i as int, j + 1));
                j = j + 1;
            }
            out.append("│\n");
            if i != size - 1 {
                push_line(&mut out, "├───", "┼───", "┤\n", size);
            }
            assert(out@ =~= start + row_drawn(stars@, n, i as int));
            assert(out@ =~= top_border(n) + rows_drawn(stars@, n, i + 1));
            i = i + 1;
        }
        push_line(&mut out, "└───", "┴───", "┘\n", size);
        assert(out@ =~= drawing(n, stars@));
        out
    }
}

} // verus!
