use wy_ui::focus::{focusable_nodes, locate, tab_navigate, FocusManager, FocusNode};

fn leaf(identity: u64, focusable: bool) -> FocusNode {
    FocusNode {
        identity,
        focusable,
        hidden: false,
        children: Vec::new(),
    }
}

/// A label and two buttons, as a forest of three roots.
fn app() -> Vec<FocusNode> {
    vec![leaf(100, false), leaf(101, true), leaf(102, true)]
}

#[test]
fn focusable_collects_buttons() {
    let nodes = app();
    let list = focusable_nodes(&nodes);
    assert_eq!(list.len(), 2);
}

#[test]
fn tab_forward_wraps() {
    let nodes = app();
    let first = tab_navigate(&nodes, &Vec::new(), true, true);
    assert_eq!(first.len(), 1);
    assert_eq!(first[0], nodes[1].identity);
    let second = tab_navigate(&nodes, &first, true, true);
    assert_eq!(second[0], nodes[2].identity);
    let wrapped = tab_navigate(&nodes, &second, true, true);
    assert_eq!(wrapped[0], nodes[1].identity);
}

#[test]
fn tab_backward_from_first_goes_last() {
    let nodes = app();
    let first = tab_navigate(&nodes, &Vec::new(), true, true);
    let prev = tab_navigate(&nodes, &first, false, true);
    assert_eq!(prev[0], nodes[2].identity);
}

#[test]
fn tab_without_wrap_stops_at_ends() {
    let nodes = app();
    let last = vec![102];
    assert!(tab_navigate(&nodes, &last, true, false).is_empty());
    let first = vec![101];
    assert!(tab_navigate(&nodes, &first, false, false).is_empty());
    assert_eq!(tab_navigate(&nodes, &Vec::new(), false, false), vec![101]);
    assert_eq!(tab_navigate(&nodes, &Vec::new(), false, true), vec![102]);
    assert!(tab_navigate(&vec![leaf(1, false)], &Vec::new(), true, true).is_empty());
}

#[test]
fn tab_order_is_document_order_with_chains() {
    let tree = vec![FocusNode {
        identity: 1,
        focusable: false,
        hidden: false,
        children: vec![
            FocusNode {
                identity: 2,
                focusable: true,
                hidden: false,
                children: vec![leaf(3, true)],
            },
            FocusNode {
                identity: 4,
                focusable: true,
                hidden: true,
                children: vec![],
            },
            leaf(5, true),
        ],
    }];
    let list = focusable_nodes(&tree);
    assert_eq!(list, vec![vec![2, 1], vec![3, 2, 1], vec![5, 1]]);
    assert_eq!(tab_navigate(&tree, &vec![3, 2, 1], true, true), vec![5, 1]);
    assert_eq!(tab_navigate(&tree, &vec![5, 1], true, true), vec![2, 1]);
}

#[test]
fn locate_finds_current_node_in_tree() {
    let nodes = app();
    let second = tab_navigate(&nodes, &Vec::new(), true, true);
    let second = tab_navigate(&nodes, &second, true, true);
    let located = locate(&second, &nodes);
    assert!(located.is_some());
    let chain = located.unwrap();
    assert_eq!(chain.len(), 1);
    assert_eq!(nodes[chain[0]].identity, nodes[2].identity);
}

#[test]
fn locate_empty_path_is_none() {
    let nodes = app();
    assert!(locate(&Vec::new(), &nodes).is_none());
}

#[test]
fn locate_deep_and_missing() {
    let tree = vec![
        leaf(9, false),
        FocusNode {
            identity: 1,
            focusable: false,
            hidden: false,
            children: vec![leaf(2, true), leaf(3, true)],
        },
    ];
    assert_eq!(locate(&vec![3, 1], &tree), Some(vec![1, 1]));
    assert_eq!(locate(&vec![2, 1], &tree), Some(vec![1, 0]));
    assert_eq!(locate(&vec![3, 9], &tree), None);
}

#[test]
fn focus_on_click_deepest_focusable() {
    let nodes = app();
    let chain = vec![leaf(nodes[1].identity, true)];
    let mut fm = FocusManager::default();
    fm.focus_on_click(&chain);
    assert_eq!(fm.path()[0], nodes[1].identity);
}

#[test]
fn focus_on_click_skips_unfocusable_and_clears() {
    let mut fm = FocusManager::default();
    fm.focus_on_click(&[leaf(7, false), leaf(8, true), leaf(9, false)]);
    assert_eq!(fm.path(), &vec![8, 9]);
    assert!(fm.has_focus());
    fm.focus_on_click(&[leaf(7, false)]);
    assert!(!fm.has_focus());
    fm.set_focus(vec![1, 2]);
    assert_eq!(fm.path(), &vec![1, 2]);
    fm.clear_focus();
    assert!(fm.path().is_empty());
}
