use wy_ui::dispatch::{deepest_focusable, propagation_order};

#[test]
fn press_focuses_deepest_focusable() {
    let focusable = [false, true, false, true, false];
    assert_eq!(deepest_focusable(&[0, 1, 2], &focusable), Some(1));
    assert_eq!(deepest_focusable(&[0, 1, 3, 4], &focusable), Some(3));
    assert_eq!(deepest_focusable(&[0, 2, 4], &focusable), None);
    assert_eq!(deepest_focusable(&[], &focusable), None);
}

#[test]
fn event_goes_down_then_up() {
    assert_eq!(propagation_order(&[0, 3, 7]), vec![0, 3, 7, 3, 0]);
    assert_eq!(propagation_order(&[5]), vec![5]);
    assert!(propagation_order(&[]).is_empty());
}
