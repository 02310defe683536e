//! Layout errors, the absolute (placeholder) layout, and the decisions of
//! the flex and stack layouts that involve no lengths.
//!
//! A layout is one-dimensional: it answers where a child sits along the
//! layout direction and how large it is. Those answers are lengths, which the
//! renderer computes; this module holds the errors that a layout reports,
//! the absolute layout, which places every child at the start and knows no
//! size, which children a flex layout walks and in what order, and how a
//! stack layout places each child and which queries about it fail.
use vstd::prelude::*;

use crate::text_fmt::{decimal, push_decimal};

verus! {

/// Error of a layout query.
#[derive(Debug, Clone, PartialEq, Eq)]
pub struct LayoutError {
    message: String,
}

impl View for LayoutError {
    type V = Seq<char>;

    closed spec fn view(&self) -> Seq<char> {
        self.message@
    }
}

/// Message of [`LayoutError::ignored`].
pub open spec fn ignored_message(index: usize) -> Seq<char> {
    decimal(index as nat) + " is ignored, its position/size is not available in layout"@
}

impl LayoutError {
    /// An error with the given message.
    pub fn new(message: &str) -> (r: Self)
        ensures
            r@ == message@,
    {
        LayoutError { message: String::from_str(message) }
    }

    /// The child at `index` is ignored by the layout, so it has no position
    /// or size.
    pub fn ignored(index: usize) -> (r: Self)
        ensures
            r@ == ignored_message(index),
    {
        let mut m = String::new();
        push_decimal(&mut m, index);
        m.append(" is ignored, its position/size is not available in layout");
        assert(m@ =~= ignored_message(index));
        LayoutError { message: m }
    }

    /// The child has no size of its own (a stack child that neither
    /// stretches nor has its own alignment).
    pub fn no_own_size() -> (r: Self)
        ensures
            r@ == "子节点应该有它自己的尺寸"@,
    {
        Self::new("子节点应该有它自己的尺寸")
    }

    /// The layout has no default size.
    pub fn no_default() -> (r: Self)
        ensures
            r@ == "没有默认值"@,
    {
        Self::new("没有默认值")
    }

    /// The layout knows no child size.
    pub fn no_child_size() -> (r: Self)
        ensures
            r@ == "没有子节点的尺寸"@,
    {
        Self::new("没有子节点的尺寸")
    }

    /// The message.
    pub fn message(&self) -> (r: &str)
        ensures
            r@ == self@,
    {
        self.message.as_str()
    }

    /// The message as a new string (what displaying the error shows).
    pub fn to_string(&self) -> (r: String)
        ensures
            r@ == self@,
    {
        self.message.clone()
    }
}

/// Absolute placeholder layout: every child sits at the start, no child size
/// and no default size is known, and the size never comes from the children.
#[derive(Copy, Clone, Debug, Default)]
pub struct AbsoluteLayout;

impl AbsoluteLayout {
    /// The absolute layout.
    pub fn new() -> (r: Self) {
        AbsoluteLayout
    }

    /// A child's size: never known.
    pub fn child_size_error(&self, index: usize) -> (r: LayoutError)
        ensures
            r@ == "没有子节点的尺寸"@,
    {
        LayoutError::no_child_size()
    }

    /// The size from the children: there is no default.
    pub fn size_from_children_error(&self) -> (r: LayoutError)
        ensures
            r@ == "没有默认值"@,
    {
        LayoutError::no_default()
    }

    /// Whether the size may come from the children: never.
    pub fn allow_size_from_children(&self) -> (r: bool)
        ensures
            !r,
    {
        false
    }
}

/// How a flex layout places its children along the main axis.
#[derive(Copy, Clone, Debug, PartialEq, Eq, Structural)]
pub enum DirectionJustify {
    /// At the start.
    Start,
    /// At the end.
    End,
    /// Centred.
    Center,
    /// First and last at the edges, the rest spread between.
    Between,
    /// Equal room around each child (half of it at the edges).
    Around,
    /// Equal room between the children and at the edges.
    Evenly,
    /// The children give the size (no justification).
    Grow,
}

/// Where a flex layout with `Between` puts a single child.
#[derive(Copy, Clone, Debug, PartialEq, Eq, Structural)]
pub enum DirectionFixBetweenWhenOne {
    Start,
    Center,
    End,
}

/// How a stack layout places its children across the axis.
#[derive(Copy, Clone, Debug, PartialEq, Eq, Structural)]
pub enum AlignItem {
    Center,
    Start,
    End,
    /// Stretched to the full cross size.
    Stretch,
}

/// The indices of the children that are not ignored, in increasing order.
pub open spec fn kept_indices(ignored: Seq<bool>) -> Seq<usize>
    decreases ignored.len(),
{
    if ignored.len() == 0 {
        Seq::empty()
    } else {
        let rest = kept_indices(ignored.drop_last());
        if ignored.last() {
            rest
        } else {
            rest.push((ignored.len() - 1) as usize)
        }
    }
}

/// The order in which a flex layout walks its children: those not ignored,
/// first to last, or last to first when `reverse`.
pub fn flex_order(ignored: &[bool], reverse: bool) -> (r: Vec<usize>)
    ensures
        r@ == (if reverse { kept_indices(ignored@).reverse() } else { kept_indices(ignored@) }),
{
    let mut kept: Vec<usize> = Vec::new();
    let mut i: usize = 0;
    while i < ignored.len()
        invariant
            i <= ignored@.len(),
            kept@ == kept_indices(ignored@.take(i as int)),
        decreases ignored@.len() - i,
    {
        assert(ignored@.take(i + 1).drop_last() =~= ignored@.take(i as int));
        if !ignored[i] {
            kept.push(i);
        }
        i = i + 1;
    }
    assert(ignored@.take(ignored@.len() as int) =~= ignored@);
    if !reverse {
        return kept;
    }
    let mut r: Vec<usize> = Vec::new();
    let mut j: usize = kept.len();
    while j > 0
        invariant
            j <= kept@.len(),
            r@ == kept@.subrange(j as int, kept@.len() as int).reverse(),
        decreases j,
    {
        j = j - 1;
        r.push(kept[j]);
        assert(r@ =~= kept@.subrange(j as int, kept@.len() as int).reverse());
    }
    assert(kept@.subrange(0, kept@.len() as int) =~= kept@);
    r
}

/// Whether a flex layout takes its size from its children: only when it
/// does not justify and no child grows.
pub fn flex_allows_size_from_children(justify: DirectionJustify, has_grow_children: bool) -> (r: bool)
    ensures
        r == (justify == DirectionJustify::Grow && !has_grow_children),
{
    justify == DirectionJustify::Grow && !has_grow_children
}

/// How a stack layout places one child across the axis.
#[derive(Copy, Clone, Debug, PartialEq, Eq, Structural)]
pub enum StackSlot {
    /// Not laid out: neither position nor size.
    Ignored,
    /// Placed by its own alignment, which gives position and size.
    Custom,
    /// The full cross size, at the start.
    Stretch,
    /// At the start, no size of its own.
    Start,
    /// Centred, no size of its own.
    Center,
    /// At the end, no size of its own.
    End,
}

/// The placement of a child: ignored children are not placed, a child with
/// its own alignment follows it, the others follow the layout's `align_item`.
pub fn stack_slot(ignored: bool, has_own_align: bool, align_item: AlignItem) -> (r: StackSlot)
    ensures
        r == (if ignored {
            StackSlot::Ignored
        } else if has_own_align {
            StackSlot::Custom
        } else {
            match align_item {
                AlignItem::Stretch => StackSlot::Stretch,
                AlignItem::Start => StackSlot::Start,
                AlignItem::Center => StackSlot::Center,
                AlignItem::End => StackSlot::End,
            }
        }),
{
    if ignored {
        StackSlot::Ignored
    } else if has_own_align {
        StackSlot::Custom
    } else {
        match align_item {
            AlignItem::Stretch => StackSlot::Stretch,
            AlignItem::Start => StackSlot::Start,
            AlignItem::Center => StackSlot::Center,
            AlignItem::End => StackSlot::End,
        }
    }
}

/// Whether a child counts toward the cross size of a stack that measures
/// its children: placed, and without its own alignment.
pub fn stack_measures(slot: StackSlot) -> (r: bool)
    ensures
        r == !(slot is Ignored || slot is Custom),
{
    !matches!(slot, StackSlot::Ignored | StackSlot::Custom)
}

/// The error of asking a stack for the size of the child at `index`:
/// an ignored child has none, a child placed by `align_item` other than
/// stretched has no size of its own; `None` when the size is known.
pub fn stack_size_error(slot: StackSlot, index: usize) -> (r: Option<LayoutError>)
    ensures
        slot is Ignored ==> r is Some && r->0@ == ignored_message(index),
        (slot is Start || slot is Center || slot is End) ==> r is Some && r->0@ == "子节点应该有它自己的尺寸"@,
        (slot is Custom || slot is Stretch) ==> r is None,
{
    match slot {
        StackSlot::Ignored => Some(LayoutError::ignored(index)),
        StackSlot::Start | StackSlot::Center | StackSlot::End => Some(LayoutError::no_own_size()),
        _ => None,
    }
}

/// The error of asking a stack for the position of the child at `index`:
/// only an ignored child has none.
pub fn stack_position_error(slot: StackSlot, index: usize) -> (r: Option<LayoutError>)
    ensures
        slot is Ignored ==> r is Some && r->0@ == ignored_message(index),
        !(slot is Ignored) ==> r is None,
{
    match slot {
        StackSlot::Ignored => Some(LayoutError::ignored(index)),
        _ => None,
    }
}

} // verus!
