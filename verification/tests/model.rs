use star_battle::encoding::build_model;
use star_battle::grid::Grid;
use star_battle::model::{count_stars, Constraint, ConstraintModel};
use star_battle::regions::build_regions;
use star_battle::walls::Walls;

fn walls_of_letters(map: &[&str]) -> Vec<Walls> {
    let rows: Vec<Vec<char>> = map.iter().map(|row| row.chars().collect()).collect();
    let mut walls = Vec::new();
    for i in 0..rows.len() {
        for j in 0..rows[i].len() {
            let mut w = Walls::new();
            if i > 0 && rows[i - 1][j] != rows[i][j] {
                w.set_top();
            }
            if j > 0 && rows[i][j - 1] != rows[i][j] {
                w.set_left();
            }
            walls.push(w);
        }
    }
    walls
}

fn model_of_letters(map: &[&str], quota: usize) -> ConstraintModel {
    let grid = Grid::new(walls_of_letters(map)).unwrap();
    let regions = build_regions(&grid);
    build_model(&grid, &regions, quota)
}

fn not_both(first: usize, second: usize) -> Constraint {
    Constraint::NotBoth { first, second }
}

fn exactly(cells: &[usize], count: usize) -> Constraint {
    Constraint::Exactly { cells: cells.to_vec(), count }
}

#[test]
fn model_of_a_two_by_two_grid() {
    let model = model_of_letters(&["aa", "bb"], 1);
    assert_eq!(model.vars(), 4);
    assert_eq!(
        model.constraints(),
        &vec![
            not_both(1, 0),
            not_both(2, 0),
            not_both(2, 1),
            not_both(3, 1),
            not_both(3, 2),
            not_both(3, 0),
            exactly(&[0, 1], 1),
            exactly(&[2, 3], 1),
            exactly(&[0, 2], 1),
            exactly(&[1, 3], 1),
            exactly(&[0, 1], 1),
            exactly(&[2, 3], 1),
        ]
    );
}

#[test]
fn exclusions_of_a_three_by_three_grid_look_back_only() {
    let model = model_of_letters(&["abc", "abc", "abc"], 1);
    let exclusions: Vec<Constraint> = model
        .constraints()
        .iter()
        .filter(|c| matches!(c, Constraint::NotBoth { .. }))
        .cloned()
        .collect();
    assert_eq!(
        exclusions,
        vec![
            not_both(1, 0),
            not_both(2, 1),
            not_both(3, 0),
            not_both(3, 1),
            not_both(4, 1),
            not_both(4, 3),
            not_both(4, 0),
            not_both(4, 2),
            not_both(5, 2),
            not_both(5, 4),
            not_both(5, 1),
            not_both(6, 3),
            not_both(6, 4),
            not_both(7, 4),
            not_both(7, 6),
            not_both(7, 3),
            not_both(7, 5),
            not_both(8, 5),
            not_both(8, 7),
            not_both(8, 4),
        ]
    );
}

#[test]
fn every_touching_pair_is_excluded_exactly_once() {
    let size = 6usize;
    let map = ["aaaaaa", "bbbbbb", "cccccc", "dddddd", "eeeeee", "ffffff"];
    let model = model_of_letters(&map, 1);
    let mut seen = vec![vec![0usize; size * size]; size * size];
    for c in model.constraints() {
        if let Constraint::NotBoth { first, second } = c {
            assert!(second < first);
            seen[*first][*second] += 1;
        }
    }
    for a in 0..size * size {
        for b in 0..a {
            let (ra, ca) = (a / size, a % size);
            let (rb, cb) = (b / size, b % size);
            let touching = ra.abs_diff(rb) <= 1 && ca.abs_diff(cb) <= 1;
            assert_eq!(seen[a][b], if touching { 1 } else { 0 });
        }
    }
}

#[test]
fn quotas_come_after_the_exclusions_rows_then_columns_then_regions() {
    let model = model_of_letters(&["aab", "abb", "ccc"], 1);
    let quotas: Vec<Constraint> = model
        .constraints()
        .iter()
        .filter(|c| matches!(c, Constraint::Exactly { .. }))
        .cloned()
        .collect();
    assert_eq!(
        quotas,
        vec![
            exactly(&[0, 1, 2], 1),
            exactly(&[3, 4, 5], 1),
            exactly(&[6, 7, 8], 1),
            exactly(&[0, 3, 6], 1),
            exactly(&[1, 4, 7], 1),
            exactly(&[2, 5, 8], 1),
            exactly(&[0, 1, 3], 1),
            exactly(&[2, 4, 5], 1),
            exactly(&[6, 7, 8], 1),
        ]
    );
    let first_quota = model
        .constraints()
        .iter()
        .position(|c| matches!(c, Constraint::Exactly { .. }))
        .unwrap();
    assert!(model.constraints()[first_quota..]
        .iter()
        .all(|c| matches!(c, Constraint::Exactly { .. })));
}

#[test]
fn quota_is_carried_into_every_cardinality_constraint() {
    let model = model_of_letters(&["ab", "cd"], 3);
    for c in model.constraints() {
        if let Constraint::Exactly { count, .. } = c {
            assert_eq!(*count, 3);
        }
    }
}

#[test]
fn number_of_constraints_of_a_grid() {
    // 4 * n * n - 6 * n + 2 touching pairs, n rows, n columns, n regions
    let model = model_of_letters(&["aaaa", "bbbb", "cccc", "dddd"], 1);
    assert_eq!(model.vars(), 16);
    assert_eq!(model.constraints().len(), 42 + 4 + 4 + 4);
}

#[test]
fn model_of_the_empty_grid_has_no_constraints() {
    let model = model_of_letters(&[], 1);
    assert_eq!(model.vars(), 0);
    assert!(model.constraints().is_empty());
    assert!(model.is_satisfied_by(&Vec::new()));
}

#[test]
fn model_of_a_single_cell() {
    let model = model_of_letters(&["a"], 1);
    assert_eq!(
        model.constraints(),
        &vec![exactly(&[0], 1), exactly(&[0], 1), exactly(&[0], 1)]
    );
    assert!(model.is_satisfied_by(&vec![true]));
    assert!(!model.is_satisfied_by(&vec![false]));
}

#[test]
fn count_stars_counts_the_true_cells_listed() {
    let stars = vec![true, false, true, true, false];
    assert_eq!(count_stars(&stars, &vec![0, 1, 2, 3, 4]), 3);
    assert_eq!(count_stars(&stars, &vec![1, 4]), 0);
    assert_eq!(count_stars(&stars, &vec![]), 0);
    assert_eq!(count_stars(&stars, &vec![3]), 1);
    assert_eq!(count_stars(&stars, &vec![0, 0, 1]), 2);
}

#[test]
fn constraints_are_met_or_broken() {
    let stars = vec![true, false, true, false];
    assert!(not_both(0, 1).is_met_by(&stars));
    assert!(not_both(1, 3).is_met_by(&stars));
    assert!(!not_both(0, 2).is_met_by(&stars));
    assert!(!not_both(2, 0).is_met_by(&stars));
    assert!(exactly(&[0, 1], 1).is_met_by(&stars));
    assert!(exactly(&[0, 2], 2).is_met_by(&stars));
    assert!(!exactly(&[0, 2], 1).is_met_by(&stars));
    assert!(exactly(&[1, 3], 0).is_met_by(&stars));
    assert!(!exactly(&[1, 3], 1).is_met_by(&stars));
}

#[test]
fn assignment_of_the_wrong_length_satisfies_no_model() {
    let model = ConstraintModel::new(3, vec![not_both(0, 1)]);
    assert!(model.is_satisfied_by(&vec![true, false, true]));
    assert!(!model.is_satisfied_by(&vec![true, false]));
    assert!(!model.is_satisfied_by(&vec![true, false, true, false]));
}

#[test]
fn model_is_satisfied_only_when_every_constraint_is_met() {
    let model = ConstraintModel::new(
        4,
        vec![not_both(1, 0), exactly(&[0, 1], 1), exactly(&[2, 3], 1)],
    );
    assert!(model.is_satisfied_by(&vec![true, false, false, true]));
    assert!(!model.is_satisfied_by(&vec![true, true, false, true]));
    assert!(!model.is_satisfied_by(&vec![true, false, true, true]));
    assert!(!model.is_satisfied_by(&vec![false, false, false, true]));
}
