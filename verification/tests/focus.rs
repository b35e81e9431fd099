use osui::utils::{closest_component, Direction};
use osui::widget::{text, Component};

fn widget_at(x: usize, y: usize) -> Component {
    let mut w = text();
    w.x = x;
    w.y = y;
    w
}

#[test]
fn down_prefers_the_aligned_nearest_sibling() {
    // Siblings at (0,0), (0,1), (0,2) and (1,0): moving Down from (0,0)
    // must select (0,1) — nearest on the same column — and never the
    // off-axis (1,0), though it is just as close in raw distance.
    let siblings = vec![widget_at(0, 0), widget_at(0, 1), widget_at(0, 2), widget_at(1, 0)];
    assert_eq!(closest_component(&siblings, 0, Direction::Down), 1);
}

#[test]
fn off_axis_siblings_are_unreachable() {
    let siblings = vec![widget_at(0, 0), widget_at(1, 1)];
    assert_eq!(closest_component(&siblings, 0, Direction::Down), 0);
    assert_eq!(closest_component(&siblings, 0, Direction::Right), 0);
}

#[test]
fn no_candidate_returns_the_current_index() {
    // Navigating Left from the only widget in its row changes nothing.
    let siblings = vec![widget_at(3, 2)];
    assert_eq!(closest_component(&siblings, 0, Direction::Left), 0);
}

#[test]
fn left_and_right_need_the_same_row() {
    let siblings = vec![widget_at(5, 1), widget_at(2, 1), widget_at(9, 1), widget_at(4, 0)];
    assert_eq!(closest_component(&siblings, 0, Direction::Left), 1);
    assert_eq!(closest_component(&siblings, 0, Direction::Right), 2);
    assert_eq!(closest_component(&siblings, 0, Direction::Up), 0);
}

#[test]
fn ties_break_by_child_order() {
    // Two candidates at the same distance above: the earlier child wins.
    let siblings = vec![widget_at(0, 2), widget_at(0, 1), widget_at(0, 3)];
    let r = closest_component(&siblings, 0, Direction::Down);
    assert_eq!(r, 2);
    let siblings2 = vec![widget_at(7, 4), widget_at(7, 3), widget_at(7, 5)];
    // Up and Down candidates both at distance 1; each direction has one.
    assert_eq!(closest_component(&siblings2, 0, Direction::Up), 1);
    assert_eq!(closest_component(&siblings2, 0, Direction::Down), 2);
}
