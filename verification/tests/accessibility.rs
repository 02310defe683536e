use wy_ui::accessibility::{AccessNode, AccessRole, AccessibilityBridge};

#[test]
fn bridge_add_and_get_node() {
    let mut bridge = AccessibilityBridge::new();
    bridge.update_node(AccessNode::new(1, AccessRole::Button).with_name("OK"));
    let node = bridge.get_node(1).unwrap();
    assert_eq!(node.role, AccessRole::Button);
    assert_eq!(node.name.as_deref(), Some("OK"));
}

#[test]
fn bridge_update_replaces_existing() {
    let mut bridge = AccessibilityBridge::new();
    bridge.update_node(AccessNode::new(1, AccessRole::Label));
    bridge.update_node(AccessNode::new(1, AccessRole::Button).with_name("OK"));
    assert_eq!(bridge.node_count(), 1);
    assert_eq!(bridge.get_node(1).unwrap().role, AccessRole::Button);
}

#[test]
fn bridge_remove_node() {
    let mut bridge = AccessibilityBridge::new();
    bridge.update_node(AccessNode::new(1, AccessRole::Group).with_children(vec![2]));
    bridge.update_node(AccessNode::new(2, AccessRole::Label));
    bridge.remove_node(2);
    assert_eq!(bridge.node_count(), 1);
    assert!(bridge.get_node(2).is_none());
    assert!(bridge.get_node(1).unwrap().children.is_empty());
}

#[test]
fn bridge_set_root() {
    let mut bridge = AccessibilityBridge::new();
    bridge.set_root(1);
    assert!(bridge.root_node().is_none());
    bridge.update_node(AccessNode::new(1, AccessRole::Group));
    assert!(bridge.root_node().is_some());
}

#[test]
fn bridge_dump_tree() {
    let mut bridge = AccessibilityBridge::new();
    bridge.set_root(1);
    bridge.update_node(
        AccessNode::new(1, AccessRole::Group)
            .with_name("root")
            .with_children(vec![2, 3]),
    );
    bridge.update_node(AccessNode::new(2, AccessRole::Button).with_name("OK"));
    bridge.update_node(AccessNode::new(3, AccessRole::Label).with_name("Hello"));
    let tree = bridge.dump_tree();
    assert!(tree.contains("Group(1)"));
    assert!(tree.contains("Button(2)"));
    assert!(tree.contains("Label(3)"));
}

#[test]
fn node_builder_chain() {
    let node = AccessNode::new(1, AccessRole::Checkbox)
        .with_name("Accept terms")
        .with_description("You must accept to continue")
        .with_focusable(true)
        .with_selected(true)
        .with_children(vec![2, 3]);
    assert_eq!(node.role, AccessRole::Checkbox);
    assert!(node.focusable);
    assert_eq!(node.selected, Some(true));
    assert_eq!(node.children, vec![2, 3]);
}

#[test]
fn dump_tree_exact_lines() {
    let mut bridge = AccessibilityBridge::new();
    bridge.set_root(10);
    bridge.update_node(AccessNode::new(10, AccessRole::Group).with_name("root").with_children(vec![2, 7]));
    bridge.update_node(AccessNode::new(2, AccessRole::Button).with_name("OK"));
    bridge.update_node(AccessNode::new(7, AccessRole::ListItem));
    assert_eq!(bridge.dump_tree(), "Group(10) \"root\"\n  Button(2) \"OK\"\n  ListItem(7) \"\"\n");
}

#[test]
fn dump_tree_without_root_is_empty() {
    let mut bridge = AccessibilityBridge::new();
    bridge.update_node(AccessNode::new(1, AccessRole::Group));
    assert_eq!(bridge.dump_tree(), "");
}

#[test]
fn dump_tree_stops_on_cycle() {
    let mut bridge = AccessibilityBridge::new();
    bridge.set_root(1);
    bridge.update_node(AccessNode::new(1, AccessRole::Group).with_children(vec![2]));
    bridge.update_node(AccessNode::new(2, AccessRole::Group).with_children(vec![1]));
    assert_eq!(bridge.dump_tree(), "Group(1) \"\"\n  Group(2) \"\"\n");
}

#[test]
fn update_then_get_law_example() {
    let mut bridge = AccessibilityBridge::new();
    bridge.update_node(AccessNode::new(4, AccessRole::Label));
    bridge.update_node(AccessNode::new(5, AccessRole::Link));
    bridge.update_node(AccessNode::new(4, AccessRole::Heading).with_name("h"));
    assert_eq!(bridge.node_count(), 2);
    assert_eq!(bridge.get_node(4).unwrap().role, AccessRole::Heading);
    assert_eq!(bridge.get_node(5).unwrap().role, AccessRole::Link);
}

#[test]
fn remove_drops_child_links_everywhere() {
    let mut bridge = AccessibilityBridge::new();
    bridge.update_node(AccessNode::new(1, AccessRole::Group).with_children(vec![3, 2, 3]));
    bridge.update_node(AccessNode::new(2, AccessRole::Group).with_children(vec![3]));
    bridge.update_node(AccessNode::new(3, AccessRole::Label));
    bridge.remove_node(3);
    assert_eq!(bridge.get_node(1).unwrap().children, vec![2]);
    assert!(bridge.get_node(2).unwrap().children.is_empty());
    assert_eq!(bridge.node_count(), 2);
}

#[test]
fn get_node_mut_edits_in_place() {
    let mut bridge = AccessibilityBridge::new();
    bridge.update_node(AccessNode::new(1, AccessRole::Checkbox));
    if let Some(n) = bridge.get_node_mut(1) {
        n.selected = Some(false);
    }
    assert_eq!(bridge.get_node(1).unwrap().selected, Some(false));
    assert!(bridge.get_node_mut(9).is_none());
}

#[test]
fn default_bridge_is_empty() {
    let bridge = AccessibilityBridge::default();
    assert_eq!(bridge.node_count(), 0);
    assert!(bridge.root_node().is_none());
}

#[test]
fn node_count_counts_distinct_ids() {
    let mut bridge = AccessibilityBridge::new();
    bridge.update_node(AccessNode::new(1, AccessRole::Button));
    bridge.update_node(AccessNode::new(2, AccessRole::Label));
    bridge.update_node(AccessNode::new(1, AccessRole::Group));
    bridge.update_node(AccessNode::new(3, AccessRole::Label));
    bridge.remove_node(2);
    assert_eq!(bridge.node_count(), 2);
    let found = (0..5).filter(|&k| bridge.get_node(k).is_some()).count();
    assert_eq!(found, bridge.node_count());
}
