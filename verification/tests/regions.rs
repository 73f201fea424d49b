use star_battle::grid::Grid;
use star_battle::regions::{build_regions, Regions};
use star_battle::walls::Walls;

/// Walls for a grid whose regions are drawn as letters, one string per row:
/// a wall stands wherever two neighbouring cells carry different letters.
fn walls_of_map(map: &[&str]) -> Vec<Walls> {
    let rows: Vec<Vec<char>> = map.iter().map(|row| row.chars().collect()).collect();
    let mut walls = Vec::new();
    for i in 0..rows.len() {
        for j in 0..rows[i].len() {
            let mut w = Walls::new();
            if i > 0 && rows[i - 1][j] != rows[i][j] {
                w.set_top();
            }
            if j > 0 && rows[i][j - 1] != rows[i][j] {
                w.set_left();
            }
            walls.push(w);
        }
    }
    walls
}

fn groups_of_regions(regions: &Regions) -> Vec<Vec<usize>> {
    (0..regions.count()).map(|g| regions.cells(g).clone()).collect()
}

#[test]
fn open_grid_is_one_region() {
    let grid = Grid::new(walls_of_map(&["aaa", "aaa", "aaa"])).unwrap();
    let regions = build_regions(&grid);
    assert_eq!(regions.count(), 1);
    assert_eq!(groups_of_regions(&regions), vec![vec![0, 1, 2, 3, 4, 5, 6, 7, 8]]);
}

#[test]
fn fully_walled_cells_are_regions_of_their_own() {
    let grid = Grid::new(walls_of_map(&["ab", "cd"])).unwrap();
    let regions = build_regions(&grid);
    assert_eq!(groups_of_regions(&regions), vec![vec![0], vec![1], vec![2], vec![3]]);
}

#[test]
fn rows_as_regions() {
    let grid = Grid::new(walls_of_map(&["aaa", "bbb", "ccc"])).unwrap();
    let regions = build_regions(&grid);
    assert_eq!(
        groups_of_regions(&regions),
        vec![vec![0, 1, 2], vec![3, 4, 5], vec![6, 7, 8]]
    );
}

#[test]
fn columns_as_regions() {
    let grid = Grid::new(walls_of_map(&["abc", "abc", "abc"])).unwrap();
    let regions = build_regions(&grid);
    assert_eq!(
        groups_of_regions(&regions),
        vec![vec![0, 3, 6], vec![1, 4, 7], vec![2, 5, 8]]
    );
}

#[test]
fn irregular_regions_come_in_the_order_of_their_first_cells() {
    let grid = Grid::new(walls_of_map(&["aabb", "acbb", "accd", "aadd"])).unwrap();
    let regions = build_regions(&grid);
    assert_eq!(
        groups_of_regions(&regions),
        vec![
            vec![0, 1, 4, 8, 12, 13],
            vec![2, 3, 6, 7],
            vec![5, 9, 10],
            vec![11, 14, 15],
        ]
    );
}

#[test]
fn region_that_winds_back_is_joined_late() {
    // the two arms of region a meet only in the last row
    let grid = Grid::new(walls_of_map(&["aba", "aba", "aaa"])).unwrap();
    let regions = build_regions(&grid);
    assert_eq!(
        groups_of_regions(&regions),
        vec![vec![0, 2, 3, 5, 6, 7, 8], vec![1, 4]]
    );
}

#[test]
fn cells_without_a_wall_between_them_share_a_region_whatever_the_letters() {
    // a wall above only: the cell still joins its left neighbour
    let mut walls: Vec<Walls> = (0..4).map(|_| Walls::new()).collect();
    walls[2].set_top();
    walls[3].set_top();
    walls[1].set_left();
    let grid = Grid::new(walls).unwrap();
    let regions = build_regions(&grid);
    assert_eq!(groups_of_regions(&regions), vec![vec![0], vec![1], vec![2, 3]]);
}

#[test]
fn every_cell_lies_in_exactly_one_region() {
    let grid = Grid::new(walls_of_map(&["aabbb", "acccb", "adceb", "ddcee", "ddeee"])).unwrap();
    let regions = build_regions(&grid);
    assert_eq!(regions.count(), 5);
    let mut seen = vec![0usize; 25];
    for g in 0..regions.count() {
        assert!(!regions.cells(g).is_empty());
        for &c in regions.cells(g) {
            seen[c] += 1;
            assert_eq!(regions.region_of(c), g);
        }
    }
    assert!(seen.iter().all(|&n| n == 1));
}

#[test]
fn wall_flags_of_the_first_row_and_column_do_not_matter() {
    // a top wall in the first row and a left wall in the first column face
    // the edge of the grid and cut nothing
    let mut walls: Vec<Walls> = (0..4).map(|_| Walls::new()).collect();
    walls[0].set_top();
    walls[0].set_left();
    walls[1].set_top();
    walls[2].set_left();
    let grid = Grid::new(walls).unwrap();
    let regions = build_regions(&grid);
    assert_eq!(groups_of_regions(&regions), vec![vec![0, 1, 2, 3]]);
}

#[test]
fn empty_grid_has_no_regions() {
    let grid = Grid::new(Vec::new()).unwrap();
    let regions = build_regions(&grid);
    assert_eq!(regions.count(), 0);
}
