use wy_ui::selection::{
    compare_document_order, expand_word_selection, SelPair, SelPoint, Selectable, SelectableText,
    SelectionManager,
};

fn mock(id: usize, text: &str) -> SelectableText {
    SelectableText {
        id,
        text: text.to_string(),
    }
}

fn pt(node_id: usize, offset: usize) -> SelPoint {
    SelPoint { node_id, offset }
}

#[test]
fn register_and_count() {
    let mut sm = SelectionManager::new();
    sm.register(mock(1, "hello"));
    sm.register(mock(2, "world"));
    assert_eq!(sm.selectable_count(), 2);
}

#[test]
fn register_replaces_same_id() {
    let mut sm = SelectionManager::new();
    sm.register(mock(1, "hello"));
    sm.register(mock(1, "bye"));
    assert_eq!(sm.selectable_count(), 1);
    sm.select(pt(1, 0), pt(1, 3));
    assert_eq!(sm.selected_text(), "bye");
}

#[test]
fn unregister() {
    let mut sm = SelectionManager::new();
    sm.register(mock(1, "hello"));
    sm.register(mock(2, "world"));
    sm.unregister(1);
    assert_eq!(sm.selectable_count(), 1);
    assert!(!sm.is_selectable(1));
    assert!(sm.is_selectable(2));
}

#[test]
fn select_all() {
    let mut sm = SelectionManager::new();
    sm.register(mock(1, "hello"));
    sm.register(mock(2, "world"));
    let pair = sm.select_all().unwrap();
    assert_eq!(pair.anchor.node_id, 1);
    assert_eq!(pair.anchor.offset, 0);
    assert_eq!(pair.focus.node_id, 2);
    assert_eq!(pair.focus.offset, 5);
}

#[test]
fn select_all_orders_by_id() {
    let mut sm = SelectionManager::new();
    sm.register(mock(7, "last"));
    sm.register(mock(3, "first"));
    sm.register(mock(5, "mid"));
    let pair = sm.select_all().unwrap();
    assert_eq!(pair.anchor, pt(3, 0));
    assert_eq!(pair.focus, pt(7, 4));
    assert_eq!(sm.selected_text(), "firstmidlast");
}

#[test]
fn select_all_empty() {
    let mut sm: SelectionManager<SelectableText> = SelectionManager::new();
    assert!(sm.select_all().is_none());
}

#[test]
fn clear_selection() {
    let mut sm = SelectionManager::new();
    sm.register(mock(1, "hello"));
    sm.select_all();
    assert!(sm.current_pair().is_some());
    sm.clear();
    assert!(sm.current_pair().is_none());
}

#[test]
fn selected_text_single_node() {
    let mut sm = SelectionManager::new();
    sm.register(mock(1, "hello world"));
    sm.select(pt(1, 0), pt(1, 5));
    assert_eq!(sm.selected_text(), "hello");
}

#[test]
fn selected_text_cross_node() {
    let mut sm = SelectionManager::new();
    sm.register(mock(1, "hello"));
    sm.register(mock(2, " "));
    sm.register(mock(3, "world"));
    sm.select(pt(1, 2), pt(3, 3));
    assert_eq!(sm.selected_text(), "llo wor");
}

#[test]
fn selected_text_backward() {
    let mut sm = SelectionManager::new();
    sm.register(mock(1, "hello"));
    sm.register(mock(2, "world"));
    sm.select(pt(2, 3), pt(1, 2));
    assert_eq!(sm.selected_text(), "llowor");
}

#[test]
fn selected_text_empty_when_no_selection() {
    let mut sm = SelectionManager::new();
    sm.register(mock(1, "hello"));
    assert_eq!(sm.selected_text(), "");
}

#[test]
fn selected_text_skips_unregistered_gap_and_clamps() {
    let mut sm = SelectionManager::new();
    sm.register(mock(4, "dd"));
    sm.register(mock(1, "abc"));
    sm.select(pt(1, 1), pt(4, 9));
    assert_eq!(sm.selected_text(), "bcdd");
}

#[test]
fn pointer_down_starts_selection() {
    let mut sm = SelectionManager::new();
    sm.register(mock(1, "hello"));
    sm.on_pointer_down(1, 2);
    let pair = sm.current_pair().unwrap();
    assert_eq!(pair.anchor, pair.focus);
    assert_eq!(pair.anchor.offset, 2);
}

#[test]
fn pointer_move_updates_focus() {
    let mut sm = SelectionManager::new();
    sm.register(mock(1, "hello"));
    sm.on_pointer_down(1, 0);
    sm.on_pointer_move(1, 5);
    let pair = sm.current_pair().unwrap();
    assert_eq!(pair.focus.offset, 5);
    assert_eq!(pair.anchor.offset, 0);
    sm.on_pointer_up();
    assert_eq!(sm.current_pair().unwrap().focus.offset, 5);
}

#[test]
fn pointer_down_clears_programmatic() {
    let mut sm = SelectionManager::new();
    sm.register(mock(1, "hello"));
    sm.select_all();
    assert!(sm.current_pair().is_some());
    sm.on_pointer_down(1, 2);
    let pair = sm.current_pair().unwrap();
    assert_eq!(pair.anchor, pair.focus);
}

#[test]
fn shift_click_extends_from_anchor() {
    let mut sm = SelectionManager::new();
    sm.register(mock(1, "hello"));
    sm.register(mock(2, "world"));
    sm.on_pointer_down(1, 0);
    sm.on_shift_click(2, 3);
    let pair = sm.current_pair().unwrap();
    assert_eq!(pair.anchor.node_id, 1);
    assert_eq!(pair.anchor.offset, 0);
    assert_eq!(pair.focus.node_id, 2);
    assert_eq!(pair.focus.offset, 3);
}

#[test]
fn shift_click_without_selection_does_nothing() {
    let mut sm = SelectionManager::new();
    sm.register(mock(1, "hello"));
    sm.on_shift_click(1, 3);
    assert!(sm.current_pair().is_none());
}

#[test]
fn double_click_selects_word() {
    let mut sm = SelectionManager::new();
    sm.register(mock(1, "hello world"));
    sm.on_double_click(1, 2);
    let text = sm.selected_text();
    assert_eq!(text, "hello");
}

#[test]
fn triple_click_selects_paragraph() {
    let mut sm = SelectionManager::new();
    sm.register(mock(1, "line one\nline two"));
    sm.on_triple_click(1, 5);
    let text = sm.selected_text();
    assert_eq!(text, "line one");
}

#[test]
fn covered_nodes_follow_registration_order() {
    let mut sm = SelectionManager::new();
    sm.register(mock(3, "ccc"));
    sm.register(mock(1, "aaa"));
    sm.register(mock(2, "bbb"));
    assert!(sm.covered_nodes().is_empty());
    sm.select_all();
    assert_eq!(sm.covered_nodes(), vec![0, 1, 2]);
    sm.select(pt(2, 0), pt(3, 1));
    assert_eq!(sm.covered_nodes(), vec![0, 2]);
}

#[test]
fn sel_pair_collapsed() {
    let pair = SelPair::new(pt(1, 5), pt(1, 5));
    assert!(pair.is_collapsed());
}

#[test]
fn sel_pair_not_collapsed() {
    let pair = SelPair::new(pt(1, 0), pt(1, 5));
    assert!(!pair.is_collapsed());
}

#[test]
fn sel_pair_ordered_same_node() {
    let pair = SelPair::new(pt(1, 5), pt(1, 0));
    let (s, e) = pair.ordered();
    assert_eq!(s.offset, 0);
    assert_eq!(e.offset, 5);
}

#[test]
fn sel_pair_ordered_cross_node() {
    let pair = SelPair::new(pt(2, 0), pt(1, 5));
    let (s, e) = pair.ordered();
    assert_eq!(s.node_id, 1);
    assert_eq!(e.node_id, 2);
}

#[test]
fn compare_document_order_test() {
    assert_eq!(compare_document_order(1, 2), std::cmp::Ordering::Less);
    assert_eq!(compare_document_order(2, 1), std::cmp::Ordering::Greater);
    assert_eq!(compare_document_order(1, 1), std::cmp::Ordering::Equal);
}

#[test]
fn expand_word_selection_right() {
    let n1 = mock(1, "hello world");
    let selectables = vec![n1];
    let pair = expand_word_selection(&selectables, 1, 2, 1, 8, true).unwrap();
    assert_eq!(pair.anchor.offset, 0);
    assert_eq!(pair.focus.offset, 11);
}

#[test]
fn expand_word_selection_left() {
    let n1 = mock(1, "hello world");
    let selectables = vec![n1];
    let pair = expand_word_selection(&selectables, 1, 8, 1, 2, false).unwrap();
    assert_eq!(pair.anchor.offset, 0);
    assert_eq!(pair.focus.offset, 11);
}

#[test]
fn expand_word_selection_missing_node() {
    let selectables = vec![mock(1, "hello")];
    assert!(expand_word_selection(&selectables, 1, 2, 9, 0, true).is_none());
    assert!(expand_word_selection(&selectables, 1, 7, 1, 0, true).is_none());
}

#[test]
fn selectable_text_ranges() {
    let n = mock(3, "ab cd\nef");
    assert_eq!(n.id(), 3);
    assert_eq!(n.text_length(), 8);
    assert_eq!(n.text_in_range(1, 4), "b c");
    assert_eq!(n.text_in_range(4, 1), "");
    assert_eq!(n.text_in_range(6, 99), "ef");
    assert_eq!(n.word_range_at(4), Some((3, 8)));
    assert_eq!(n.word_range_at(0), Some((0, 2)));
    assert_eq!(n.paragraph_range_at(7), Some((6, 8)));
    assert_eq!(n.word_range_at(8), None);
}
