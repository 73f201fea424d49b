use star_battle::markup::{extract_walls, walls_of_cells, walls_of_classes, CELL_PATTERN};
use star_battle::error::PuzzleError;

fn cell_markup(classes: &str) -> String {
    format!(
        "<div tabindex=\"1\" class=\"cell selectable{}cell-off\" style=\"x\"><span></span></div>",
        classes
    )
}

#[test]
fn class_list_without_marks_has_no_walls() {
    let w = walls_of_classes(b" ");
    assert!(!w.top() && !w.left());
    let w = walls_of_classes(b"");
    assert!(!w.top() && !w.left());
    let w = walls_of_classes(b" br bb ");
    assert!(!w.top() && !w.left());
}

#[test]
fn class_list_with_the_top_mark() {
    let w = walls_of_classes(b" bt ");
    assert!(w.top() && !w.left());
}

#[test]
fn class_list_with_the_left_mark() {
    let w = walls_of_classes(b" bl ");
    assert!(!w.top() && w.left());
}

#[test]
fn class_list_with_both_marks_in_either_order() {
    let w = walls_of_classes(b" bt bl br ");
    assert!(w.top() && w.left());
    let w = walls_of_classes(b" bb bl bt ");
    assert!(w.top() && w.left());
}

#[test]
fn marks_are_found_anywhere_in_the_class_list() {
    // the search is for the two bytes, not for a whole class
    let w = walls_of_classes(b"subtle");
    assert!(w.top() && !w.left());
    let w = walls_of_classes(b"bl");
    assert!(!w.top() && w.left());
    let w = walls_of_classes(b"b t b l");
    assert!(!w.top() && !w.left());
    let w = walls_of_classes(b"tb lb");
    assert!(!w.top() && !w.left());
}

#[test]
fn cells_without_a_class_list_are_refused() {
    let found = vec![Some(b" bt ".to_vec()), None, Some(b" bl ".to_vec())];
    assert_eq!(walls_of_cells(&found).unwrap_err(), PuzzleError::Pattern);
}

#[test]
fn cells_with_class_lists_give_their_walls_in_order() {
    let found = vec![Some(b" bt ".to_vec()), Some(b" ".to_vec()), Some(b" bl bt ".to_vec())];
    let walls = walls_of_cells(&found).unwrap();
    assert_eq!(walls.len(), 3);
    assert!(walls[0].top() && !walls[0].left());
    assert!(!walls[1].top() && !walls[1].left());
    assert!(walls[2].top() && walls[2].left());
    assert!(walls_of_cells(&Vec::new()).unwrap().is_empty());
}

#[test]
fn walls_are_read_off_the_cells_of_a_page() {
    let page = format!(
        "<html><body><div class=\"board\">{}{}\n{}{}</div></body></html>",
        cell_markup(" "),
        cell_markup(" bl "),
        cell_markup(" bt "),
        cell_markup(" bt bl ")
    );
    let walls = extract_walls(page.as_bytes()).unwrap();
    assert_eq!(walls.len(), 4);
    assert!(!walls[0].top() && !walls[0].left());
    assert!(!walls[1].top() && walls[1].left());
    assert!(walls[2].top() && !walls[2].left());
    assert!(walls[3].top() && walls[3].left());
}

#[test]
fn marks_outside_the_class_list_are_not_read() {
    // "bt" and "bl" stand in the page and inside the cell, but not between
    // the two classes that frame the class list
    let page = "bt bl <div tabindex=\"1\" class=\"cell selectable cell-off\" id=\"bt\">bl</div> bt";
    let walls = extract_walls(page.as_bytes()).unwrap();
    assert_eq!(walls.len(), 1);
    assert!(!walls[0].top() && !walls[0].left());
}

#[test]
fn page_without_cells_has_no_walls() {
    assert!(extract_walls(b"").unwrap().is_empty());
    assert!(extract_walls(b"<html><div class=\"cell\"></div></html>").unwrap().is_empty());
}

#[test]
fn page_need_not_be_text() {
    let mut page = vec![0xffu8, 0xfe, 0x00];
    page.extend_from_slice(cell_markup(" bl ").as_bytes());
    page.extend_from_slice(&[0x80, 0xff]);
    let walls = extract_walls(&page).unwrap();
    assert_eq!(walls.len(), 1);
    assert!(walls[0].left() && !walls[0].top());
}

#[test]
fn cell_pattern_frames_the_class_list() {
    assert!(CELL_PATTERN.starts_with("<div tabindex=\"1\" class=\"cell selectable(.*?)cell-off\""));
    assert!(CELL_PATTERN.ends_with("</div>"));
}
