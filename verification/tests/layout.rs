use wy_ui::layout::{
    flex_allows_size_from_children, flex_order, stack_measures, stack_position_error, stack_size_error,
    stack_slot, AbsoluteLayout, AlignItem, DirectionJustify, LayoutError, StackSlot,
};

#[test]
fn layout_error_implements_error_traits() {
    let e = LayoutError::ignored(3);
    assert_eq!(
        e.to_string(),
        "3 is ignored, its position/size is not available in layout"
    );
}

#[test]
fn layout_error_messages() {
    assert_eq!(LayoutError::ignored(120).message(), "120 is ignored, its position/size is not available in layout");
    assert_eq!(LayoutError::no_own_size().message(), "子节点应该有它自己的尺寸");
    assert_eq!(LayoutError::no_default().message(), "没有默认值");
    assert_eq!(LayoutError::no_child_size().message(), "没有子节点的尺寸");
    assert_eq!(LayoutError::new("x").message(), "x");
}

#[test]
fn absolute_has_no_size_and_no_default() {
    let l = AbsoluteLayout::new();
    assert_eq!(l.child_size_error(0), LayoutError::no_child_size());
    assert_eq!(l.size_from_children_error(), LayoutError::no_default());
    assert!(!l.allow_size_from_children());
}

#[test]
fn flex_order_skips_ignored_children() {
    assert_eq!(flex_order(&[false, true, false, false], false), vec![0, 2, 3]);
}

#[test]
fn flex_order_reversed() {
    assert_eq!(flex_order(&[false, true, false, false], true), vec![3, 2, 0]);
    assert_eq!(flex_order(&[], true), Vec::<usize>::new());
    assert_eq!(flex_order(&[true, true], false), Vec::<usize>::new());
}

#[test]
fn flex_size_from_children_only_when_growing_by_children() {
    assert!(flex_allows_size_from_children(DirectionJustify::Grow, false));
    assert!(!flex_allows_size_from_children(DirectionJustify::Grow, true));
    assert!(!flex_allows_size_from_children(DirectionJustify::Center, false));
    assert!(!flex_allows_size_from_children(DirectionJustify::Between, true));
}

#[test]
fn stack_slots_follow_align_item() {
    assert_eq!(stack_slot(true, true, AlignItem::Stretch), StackSlot::Ignored);
    assert_eq!(stack_slot(false, true, AlignItem::Stretch), StackSlot::Custom);
    assert_eq!(stack_slot(false, false, AlignItem::Stretch), StackSlot::Stretch);
    assert_eq!(stack_slot(false, false, AlignItem::Start), StackSlot::Start);
    assert_eq!(stack_slot(false, false, AlignItem::Center), StackSlot::Center);
    assert_eq!(stack_slot(false, false, AlignItem::End), StackSlot::End);
    assert!(stack_measures(StackSlot::Center));
    assert!(!stack_measures(StackSlot::Custom));
    assert!(!stack_measures(StackSlot::Ignored));
}

#[test]
fn stack_query_errors() {
    assert_eq!(
        stack_size_error(StackSlot::Ignored, 3).unwrap().message(),
        "3 is ignored, its position/size is not available in layout"
    );
    assert_eq!(stack_size_error(StackSlot::Center, 1).unwrap().message(), "子节点应该有它自己的尺寸");
    assert!(stack_size_error(StackSlot::Stretch, 1).is_none());
    assert!(stack_size_error(StackSlot::Custom, 1).is_none());
    assert_eq!(
        stack_position_error(StackSlot::Ignored, 12).unwrap().message(),
        "12 is ignored, its position/size is not available in layout"
    );
    assert!(stack_position_error(StackSlot::End, 0).is_none());
}
