use star_battle::puzzle::Puzzle;
use star_battle::solve::{Solution, SolveOutcome};
use star_battle::walls::Walls;

fn walls_from_letters(map: &[&str]) -> Vec<Walls> {
    let rows: Vec<Vec<char>> = map.iter().map(|row| row.chars().collect()).collect();
    let mut walls = Vec::new();
    for i in 0..rows.len() {
        for j in 0..rows[i].len() {
            let mut w = Walls::new();
            if i > 0 && rows[i - 1][j] != rows[i][j] {
                w.set_top();
            }
            if j > 0 && rows[i][j - 1] != rows[i][j] {
                w.set_left();
            }
            walls.push(w);
        }
    }
    walls
}

fn solution_of(map: &[&str], picture: &[&str]) -> Solution {
    let puzzle = Puzzle::new(walls_from_letters(map)).unwrap();
    let stars: Vec<bool> =
        picture.iter().flat_map(|row| row.chars().map(|c| c == '*')).collect();
    match puzzle.conclude(SolveOutcome::Sat(stars)) {
        Ok(solution) => solution,
        Err(e) => panic!("the placement was refused: {:?}", e),
    }
}

#[test]
fn drawing_of_a_single_cell() {
    let solution = solution_of(&["a"], &["*"]);
    assert_eq!(solution.render(), "┌───┐\n│ ★ │\n└───┘\n");
}

#[test]
fn drawing_of_the_empty_grid() {
    let solution = solution_of(&[], &[]);
    assert_eq!(solution.render(), "┌───┐\n└───┘\n");
}

#[test]
fn drawing_of_a_five_by_five_solution() {
    let solution = solution_of(
        &["aabbb", "acccb", "adceb", "ddcee", "ddeee"],
        &["*....", "..*..", "....*", ".*...", "...*."],
    );
    let expected = "\
┌───┬───┬───┬───┬───┐
│ ★ │   │   │   │   │
├───┼───┼───┼───┼───┤
│   │   │ ★ │   │   │
├───┼───┼───┼───┼───┤
│   │   │   │   │ ★ │
├───┼───┼───┼───┼───┤
│   │ ★ │   │   │   │
├───┼───┼───┼───┼───┤
│   │   │   │ ★ │   │
└───┴───┴───┴───┴───┘
";
    assert_eq!(solution.render(), expected);
}

#[test]
fn drawing_has_a_line_for_every_border_row_and_divider() {
    let solution = solution_of(
        &["aabbb", "acccb", "adceb", "ddcee", "ddeee"],
        &["*....", "..*..", "....*", ".*...", "...*."],
    );
    let out = solution.render();
    let lines: Vec<&str> = out.lines().collect();
    assert_eq!(lines.len(), 2 * 5 + 1);
    assert!(out.ends_with('\n'));
    for line in &lines {
        assert_eq!(line.chars().count(), 4 * 5 + 1);
    }
    assert_eq!(out.chars().filter(|&c| c == '★').count(), 5);
}
