use wy_ui::foreach::{plan_for_each, EachSlot};

#[test]
fn first_round_builds_every_item() {
    let p = plan_for_each(&[], &[4, 5, 6]);
    assert_eq!(p.active, vec![EachSlot::Fresh, EachSlot::Fresh, EachSlot::Fresh]);
    assert!(p.stale.is_empty());
}

#[test]
fn same_keys_keep_their_holders() {
    let p = plan_for_each(&[7, 8, 9], &[7, 8, 9]);
    assert_eq!(p.active, vec![EachSlot::Reused(0), EachSlot::Reused(1), EachSlot::Reused(2)]);
    assert!(p.stale.is_empty());
}

#[test]
fn reordered_keys_follow_their_holders() {
    let p = plan_for_each(&[1, 2, 3], &[3, 1, 2]);
    assert_eq!(p.active, vec![EachSlot::Reused(2), EachSlot::Reused(0), EachSlot::Reused(1)]);
    assert!(p.stale.is_empty());
}

#[test]
fn removed_keys_are_destroyed_and_new_ones_built() {
    let p = plan_for_each(&[1, 2, 3, 4], &[2, 5, 4]);
    assert_eq!(p.active, vec![EachSlot::Reused(1), EachSlot::Fresh, EachSlot::Reused(3)]);
    assert_eq!(p.stale, vec![0, 2]);
}

#[test]
fn repeated_keys_take_holders_from_the_back() {
    let p = plan_for_each(&[1, 2, 1], &[1, 1, 1, 3]);
    assert_eq!(
        p.active,
        vec![EachSlot::Reused(2), EachSlot::Reused(0), EachSlot::Fresh, EachSlot::Fresh]
    );
    assert_eq!(p.stale, vec![1]);
}

#[test]
fn empty_round_destroys_everything() {
    let p = plan_for_each(&[3, 3, 4], &[]);
    assert!(p.active.is_empty());
    assert_eq!(p.stale, vec![0, 1, 2]);
}

#[test]
fn render_for_each_reuses_holders_by_key() {
    let first = plan_for_each(&[], &[1, 2, 3]);
    let built = first.active.iter().filter(|s| **s == EachSlot::Fresh).count();
    assert_eq!(first.active.len(), 3);
    assert_eq!(built, 3);
    // Key 2 goes, key 99 comes: only 99 is built, 2 is destroyed.
    let second = plan_for_each(&[1, 2, 3], &[1, 99, 3]);
    assert_eq!(second.active.len(), 3);
    let built = built + second.active.iter().filter(|s| **s == EachSlot::Fresh).count();
    assert_eq!(built, 4);
    assert_eq!(second.active[0], EachSlot::Reused(0));
    assert_eq!(second.active[1], EachSlot::Fresh);
    assert_eq!(second.active[2], EachSlot::Reused(2));
    assert_eq!(second.stale, vec![1]);
}
