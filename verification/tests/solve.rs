use star_battle::error::PuzzleError;
use star_battle::puzzle::Puzzle;
use star_battle::solve::SolveOutcome;
use star_battle::walls::Walls;

fn walls_by_letter(map: &[&str]) -> Vec<Walls> {
    let rows: Vec<Vec<char>> = map.iter().map(|row| row.chars().collect()).collect();
    let mut walls = Vec::new();
    for i in 0..rows.len() {
        for j in 0..rows[i].len() {
            let mut w = Walls::new();
            if i > 0 && rows[i - 1][j] != rows[i][j] {
                w.set_top();
            }
            if j > 0 && rows[i][j - 1] != rows[i][j] {
                w.set_left();
            }
            walls.push(w);
        }
    }
    walls
}

fn stars_of_picture(picture: &[&str]) -> Vec<bool> {
    picture.iter().flat_map(|row| row.chars().map(|c| c == '*')).collect()
}

const FIVE: [&str; 5] = ["aabbb", "acccb", "adceb", "ddcee", "ddeee"];

#[test]
fn puzzle_of_a_well_formed_grid() {
    let puzzle = Puzzle::new(walls_by_letter(&FIVE)).unwrap();
    assert_eq!(puzzle.size(), 5);
    assert_eq!(puzzle.quota(), 1);
    assert_eq!(puzzle.regions().count(), 5);
    assert_eq!(puzzle.grid().cell_count(), 25);
}

#[test]
fn puzzle_refuses_cells_that_form_no_square() {
    let walls: Vec<Walls> = (0..24).map(|_| Walls::new()).collect();
    assert_eq!(Puzzle::new(walls).unwrap_err(), PuzzleError::NotSquare);
}

#[test]
fn puzzle_refuses_too_few_regions() {
    assert_eq!(
        Puzzle::new(walls_by_letter(&["aab", "abb", "abb"])).unwrap_err(),
        PuzzleError::RegionCount
    );
}

#[test]
fn puzzle_refuses_too_many_regions() {
    assert_eq!(
        Puzzle::new(walls_by_letter(&["ab", "cd"])).unwrap_err(),
        PuzzleError::RegionCount
    );
}

#[test]
fn malformed_input_is_told_from_a_failed_search() {
    assert!(PuzzleError::Pattern.is_malformed_input());
    assert!(PuzzleError::NotSquare.is_malformed_input());
    assert!(PuzzleError::RegionCount.is_malformed_input());
    assert!(!PuzzleError::Unsatisfiable.is_malformed_input());
    assert!(!PuzzleError::Indeterminate.is_malformed_input());
    assert!(!PuzzleError::InvalidAssignment.is_malformed_input());
}

#[test]
fn unsat_is_reported_as_unsatisfiable() {
    let puzzle = Puzzle::new(walls_by_letter(&FIVE)).unwrap();
    match puzzle.conclude(SolveOutcome::Unsat) {
        Err(e) => assert_eq!(e, PuzzleError::Unsatisfiable),
        Ok(_) => panic!("no solution can come of an unsatisfiable model"),
    }
}

#[test]
fn unknown_is_reported_as_indeterminate() {
    let puzzle = Puzzle::new(walls_by_letter(&FIVE)).unwrap();
    match puzzle.conclude(SolveOutcome::Unknown) {
        Err(e) => assert_eq!(e, PuzzleError::Indeterminate),
        Ok(_) => panic!("no solution can come of an undecided check"),
    }
}

#[test]
fn valid_assignment_becomes_the_solution() {
    let puzzle = Puzzle::new(walls_by_letter(&FIVE)).unwrap();
    let stars = stars_of_picture(&["*....", "..*..", "....*", ".*...", "...*."]);
    match puzzle.conclude(SolveOutcome::Sat(stars.clone())) {
        Ok(solution) => {
            assert_eq!(solution.size(), 5);
            assert_eq!(solution.stars(), &stars);
        }
        Err(e) => panic!("a valid placement was refused: {:?}", e),
    }
}

#[test]
fn valid_assignment_satisfies_the_model_again() {
    let puzzle = Puzzle::new(walls_by_letter(&FIVE)).unwrap();
    let stars = stars_of_picture(&["*....", "..*..", "....*", ".*...", "...*."]);
    assert!(puzzle.model().is_satisfied_by(&stars));
    match puzzle.conclude(SolveOutcome::Sat(stars)) {
        Ok(solution) => assert!(puzzle.model().is_satisfied_by(solution.stars())),
        Err(e) => panic!("a valid placement was refused: {:?}", e),
    }
}

#[test]
fn assignment_with_touching_stars_is_refused() {
    let puzzle = Puzzle::new(walls_by_letter(&["abcde", "abcde", "abcde", "abcde", "abcde"]))
        .unwrap();
    // one star per row, column and region, but the stars run down the diagonal
    let stars = stars_of_picture(&["*....", ".*...", "..*..", "...*.", "....*"]);
    match puzzle.conclude(SolveOutcome::Sat(stars)) {
        Err(e) => assert_eq!(e, PuzzleError::InvalidAssignment),
        Ok(_) => panic!("stars that touch corner to corner were accepted"),
    }
}

#[test]
fn assignment_that_misses_a_region_quota_is_refused() {
    let puzzle = Puzzle::new(walls_by_letter(&FIVE)).unwrap();
    // rows and columns hold one star each and no two touch, but region e
    // holds two stars and region b none
    let stars = stars_of_picture(&["*....", "...*.", ".*...", "....*", "..*.."]);
    assert!(!puzzle.model().is_satisfied_by(&stars));
    match puzzle.conclude(SolveOutcome::Sat(stars)) {
        Err(e) => assert_eq!(e, PuzzleError::InvalidAssignment),
        Ok(_) => panic!("a placement that breaks a region quota was accepted"),
    }
}

#[test]
fn assignment_that_misses_a_row_quota_is_refused() {
    let puzzle = Puzzle::new(walls_by_letter(&FIVE)).unwrap();
    match puzzle.conclude(SolveOutcome::Sat(vec![false; 25])) {
        Err(e) => assert_eq!(e, PuzzleError::InvalidAssignment),
        Ok(_) => panic!("an empty grid was accepted"),
    }
}

#[test]
fn assignment_of_the_wrong_length_is_refused() {
    let puzzle = Puzzle::new(walls_by_letter(&FIVE)).unwrap();
    match puzzle.conclude(SolveOutcome::Sat(vec![false; 24])) {
        Err(e) => assert_eq!(e, PuzzleError::InvalidAssignment),
        Ok(_) => panic!("an assignment that leaves a cell out was accepted"),
    }
}

#[test]
fn single_cell_puzzle_is_solved_by_one_star() {
    let puzzle = Puzzle::new(walls_by_letter(&["a"])).unwrap();
    assert_eq!(puzzle.quota(), 1);
    assert!(puzzle.conclude(SolveOutcome::Sat(vec![true])).is_ok());
    assert!(puzzle.conclude(SolveOutcome::Sat(vec![false])).is_err());
}

#[test]
fn stars_of_a_solution_are_found_by_row_and_column() {
    let puzzle = Puzzle::new(walls_by_letter(&FIVE)).unwrap();
    let picture = ["*....", "..*..", "....*", ".*...", "...*."];
    let solution = match puzzle.conclude(SolveOutcome::Sat(stars_of_picture(&picture))) {
        Ok(solution) => solution,
        Err(e) => panic!("a valid placement was refused: {:?}", e),
    };
    for (row, line) in picture.iter().enumerate() {
        for (col, mark) in line.chars().enumerate() {
            assert_eq!(solution.has_star(row, col), mark == '*');
        }
    }
}
