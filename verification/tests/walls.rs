use star_battle::walls::Walls;

#[test]
fn new_walls_are_open() {
    let w = Walls::new();
    assert!(!w.top());
    assert!(!w.left());
}

#[test]
fn set_top_draws_only_the_top_wall() {
    let mut w = Walls::new();
    w.set_top();
    assert!(w.top());
    assert!(!w.left());
}

#[test]
fn set_left_draws_only_the_left_wall() {
    let mut w = Walls::new();
    w.set_left();
    assert!(w.left());
    assert!(!w.top());
}

#[test]
fn both_walls_can_be_drawn_in_either_order() {
    let mut a = Walls::new();
    a.set_top();
    a.set_left();
    let mut b = Walls::new();
    b.set_left();
    b.set_top();
    assert!(a.top() && a.left());
    assert!(b.top() && b.left());
}

#[test]
fn drawing_a_wall_twice_changes_nothing() {
    let mut w = Walls::new();
    w.set_left();
    w.set_left();
    assert!(w.left());
    assert!(!w.top());
    w.set_top();
    w.set_top();
    assert!(w.left());
    assert!(w.top());
}
