use tes3map::dimensions::Dimensions;
use tes3map::selection::{contains_key, rect_keys, RuntimeData};

fn bounds() -> Dimensions {
    Dimensions { min_x: -5, min_y: -5, max_x: 5, max_y: 5 }
}

fn state(selected: Vec<(i32, i32)>, pivot: Option<(i32, i32)>) -> RuntimeData {
    let mut r = RuntimeData::default();
    r.selected_ids = selected;
    r.pivot_id = pivot;
    r
}

#[test]
fn click_outside_changes_nothing() {
    let mut r = state(vec![(1, 1)], Some((1, 1)));
    r.select_cell(&bounds(), (9, 0), false, false);
    assert_eq!(r.selected_ids, vec![(1, 1)]);
    assert_eq!(r.pivot_id, Some((1, 1)));
}

#[test]
fn ctrl_click_twice_restores_the_selection() {
    let mut r = state(vec![(1, 1), (2, 2)], Some((1, 1)));
    r.select_cell(&bounds(), (0, 0), true, false);
    assert_eq!(r.selected_ids, vec![(1, 1), (2, 2), (0, 0)]);
    assert_eq!(r.pivot_id, None);
    r.select_cell(&bounds(), (0, 0), true, false);
    assert_eq!(r.selected_ids, vec![(1, 1), (2, 2)]);
    assert_eq!(r.pivot_id, None);
}

#[test]
fn ctrl_click_removes_every_copy() {
    let mut r = state(vec![(0, 0), (1, 0), (0, 0)], None);
    r.select_cell(&bounds(), (0, 0), true, true);
    assert_eq!(r.selected_ids, vec![(1, 0)]);
}

#[test]
fn plain_click_selects_then_clears() {
    let mut r = state(vec![(3, 3)], None);
    r.select_cell(&bounds(), (0, 1), false, false);
    assert_eq!(r.selected_ids, vec![(0, 1)]);
    assert_eq!(r.pivot_id, Some((0, 1)));
    r.select_cell(&bounds(), (0, 1), false, false);
    assert!(r.selected_ids.is_empty());
    assert_eq!(r.pivot_id, None);
}

#[test]
fn shift_click_selects_a_rectangle_from_the_single_selection() {
    let mut r = state(vec![(1, 2)], None);
    r.select_cell(&bounds(), (-1, 3), false, true);
    assert_eq!(r.selected_ids, vec![(-1, 2), (-1, 3), (0, 2), (0, 3), (1, 2), (1, 3)]);
    assert_eq!(r.pivot_id, Some((1, 2)));
    // a second shift-click keeps the pivot
    r.select_cell(&bounds(), (2, 2), false, true);
    assert_eq!(r.selected_ids, vec![(1, 2), (2, 2)]);
    assert_eq!(r.pivot_id, Some((1, 2)));
}

#[test]
fn shift_click_without_pivot_starts_at_the_last_selected() {
    let mut r = state(vec![(0, 0), (4, 4)], None);
    r.select_cell(&bounds(), (4, 3), false, true);
    assert_eq!(r.selected_ids, vec![(4, 3), (4, 4)]);
    assert_eq!(r.pivot_id, Some((4, 4)));
}

#[test]
fn shift_click_on_empty_selection_selects_one() {
    let mut r = state(vec![], Some((2, 2)));
    r.select_cell(&bounds(), (1, 1), false, true);
    assert_eq!(r.selected_ids, vec![(1, 1)]);
    assert_eq!(r.pivot_id, Some((1, 1)));
}

#[test]
fn rectangle_holds_its_corners() {
    let keys = rect_keys((3, -1), (1, 2));
    assert_eq!(keys.len(), 3 * 4);
    assert!(contains_key(&keys, (3, -1)));
    assert!(contains_key(&keys, (1, 2)));
    assert!(!contains_key(&keys, (0, 0)));
    assert_eq!(keys[0], (1, -1));
    assert_eq!(keys[11], (3, 2));
    assert_eq!(rect_keys((7, 7), (7, 7)), vec![(7, 7)]);
}

#[test]
fn clicks_far_from_the_selection_build_no_rectangle() {
    let whole = Dimensions { min_x: i32::MIN, min_y: i32::MIN, max_x: i32::MAX, max_y: i32::MAX };
    let mut r = state(vec![(i32::MIN, i32::MIN)], None);
    r.select_cell(&whole, (i32::MAX, i32::MAX), true, true);
    assert_eq!(r.selected_ids, vec![(i32::MIN, i32::MIN), (i32::MAX, i32::MAX)]);
    assert_eq!(r.pivot_id, None);
    r.select_cell(&whole, (i32::MAX, i32::MAX), false, false);
    assert_eq!(r.selected_ids, Vec::<(i32, i32)>::new());
    let mut far = state(vec![(i32::MIN, i32::MIN)], None);
    far.select_cell(&bounds(), (i32::MAX, i32::MAX), false, true);
    assert_eq!(far.selected_ids, vec![(i32::MIN, i32::MIN)]);
}
