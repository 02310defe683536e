//! Multi-line rich text editor: what each key and input-method event does to
//! the editing core, and the password mask.
//!
//! The vertical and line-edge moves need the lines of the text: `text_lines`
//! gives the targets of Home and End and the line an arrow up or down moves
//! into; the column in that line comes from the horizontal position, which
//! the layout measures.
use vstd::prelude::*;

use crate::event::{ImeEvent, Key, KeyEvent};
use crate::text_fmt::{push_repeat, repeat};

verus! {

/// An editing-core operation asked for by a key.
#[derive(Copy, Clone, Debug, PartialEq, Eq, Structural)]
pub enum RichEdit {
    /// Insert the character, replacing the selection.
    Insert(char),
    /// Insert a line break.
    InsertNewline,
    Backspace,
    Delete,
    MoveLeft,
    SelectLeft,
    MoveRight,
    SelectRight,
    /// To the same x on the previous line (to the text start on the first).
    LineUp { extend: bool },
    /// To the same x on the next line (to the text end on the last).
    LineDown { extend: bool },
    /// To the start of the current line.
    LineStart { extend: bool },
    /// To the end of the current line.
    LineEnd { extend: bool },
    Undo,
    Redo,
    SelectAll,
}

/// The operation of a key, `None` when it is left to the parents. The arrows
/// up and down, Home and End move by lines whatever the modifiers (Shift
/// extends the selection); with Ctrl or Meta, `z` undoes (with Alt: redoes),
/// `y` redoes, `a` selects all; otherwise characters and Enter are
/// typed, Backspace and Delete delete, the horizontal arrows move or extend.
pub open spec fn rich_key_spec(e: KeyEvent) -> Option<RichEdit> {
    match e.key {
        Key::ArrowUp => Some(RichEdit::LineUp { extend: e.shift }),
        Key::ArrowDown => Some(RichEdit::LineDown { extend: e.shift }),
        Key::Home => Some(RichEdit::LineStart { extend: e.shift }),
        Key::End => Some(RichEdit::LineEnd { extend: e.shift }),
        _ => if e.ctrl || e.meta {
            match e.key {
                Key::Char(c) => if c == 'z' && !e.alt {
                    Some(RichEdit::Undo)
                } else if c == 'y' || (c == 'z' && e.alt) {
                    Some(RichEdit::Redo)
                } else if c == 'a' {
                    Some(RichEdit::SelectAll)
                } else {
                    None
                },
                _ => None,
            }
        } else {
            match e.key {
                Key::Char(c) => Some(RichEdit::Insert(c)),
                Key::Enter => Some(RichEdit::InsertNewline),
                Key::Backspace => Some(RichEdit::Backspace),
                Key::Delete => Some(RichEdit::Delete),
                Key::ArrowLeft => Some(if e.shift { RichEdit::SelectLeft } else { RichEdit::MoveLeft }),
                Key::ArrowRight => Some(if e.shift { RichEdit::SelectRight } else { RichEdit::MoveRight }),
                _ => None,
            }
        },
    }
}

/// The operation that `event` asks for; `None` means it is not consumed.
pub fn rich_key_action(event: &KeyEvent) -> (r: Option<RichEdit>)
    ensures
        r == rich_key_spec(*event),
{
    let shift = event.shift;
    match event.key {
        Key::ArrowUp => Some(RichEdit::LineUp { extend: shift }),
        Key::ArrowDown => Some(RichEdit::LineDown { extend: shift }),
        Key::Home => Some(RichEdit::LineStart { extend: shift }),
        Key::End => Some(RichEdit::LineEnd { extend: shift }),
        _ => editable_handle_key(event),
    }
}

/// Keys that need no layout.
fn editable_handle_key(event: &KeyEvent) -> (r: Option<RichEdit>)
    requires
        !(event.key is ArrowUp || event.key is ArrowDown || event.key is Home || event.key is End),
    ensures
        r == rich_key_spec(*event),
{
    if event.ctrl || event.meta {
        return handle_ctrl_shortcut(event);
    }
    let shift = event.shift;
    match event.key {
        Key::Char(ch) => Some(RichEdit::Insert(ch)),
        Key::Enter => Some(RichEdit::InsertNewline),
        Key::Backspace => Some(RichEdit::Backspace),
        Key::Delete => Some(RichEdit::Delete),
        Key::ArrowLeft => Some(
            if shift {
                RichEdit::SelectLeft
            } else {
                RichEdit::MoveLeft
            },
        ),
        Key::ArrowRight => Some(
            if shift {
                RichEdit::SelectRight
            } else {
                RichEdit::MoveRight
            },
        ),
        _ => None,
    }
}

/// Ctrl / Meta shortcuts: undo, redo, select all.
fn handle_ctrl_shortcut(event: &KeyEvent) -> (r: Option<RichEdit>)
    requires
        event.ctrl || event.meta,
        !(event.key is ArrowUp || event.key is ArrowDown || event.key is Home || event.key is End),
    ensures
        r == rich_key_spec(*event),
{
    match event.key {
        Key::Char(c) => {
            if c == 'z' && !event.alt {
                Some(RichEdit::Undo)
            } else if c == 'y' || (c == 'z' && event.alt) {
                Some(RichEdit::Redo)
            } else if c == 'a' {
                Some(RichEdit::SelectAll)
            } else {
                None
            }
        },
        _ => None,
    }
}

/// An editing-core operation asked for by an input-method event.
#[derive(Clone, Debug)]
pub enum RichImeEdit {
    /// Nothing to do (the event is still consumed).
    Nothing,
    /// End the composition, keeping its text.
    EndComposition,
    /// Show `text` as the composition with the cursor at character `cursor`;
    /// an empty text cancels the composition.
    Composing { text: String, cursor: usize },
}

/// The view of an input-method operation.
pub enum RichImeView {
    Nothing,
    EndComposition,
    Composing { text: Seq<char>, cursor: usize },
}

impl View for RichImeEdit {
    type V = RichImeView;

    open spec fn view(&self) -> RichImeView {
        match self {
            RichImeEdit::Nothing => RichImeView::Nothing,
            RichImeEdit::EndComposition => RichImeView::EndComposition,
            RichImeEdit::Composing { text, cursor } => RichImeView::Composing { text: text@, cursor: *cursor },
        }
    }
}

/// The operation of an input-method event: switching on does nothing,
/// switching off and committing end the composition, a composition text is
/// shown with the cursor at the start of the composition cursor range (0
/// without one), and an empty one cancels the composition.
pub open spec fn rich_ime_spec(e: ImeEvent) -> RichImeView {
    match e {
        ImeEvent::Enabled => RichImeView::Nothing,
        ImeEvent::Disabled => RichImeView::EndComposition,
        ImeEvent::Preedit { text, cursor } => if text@.len() == 0 {
            RichImeView::Composing { text: seq![], cursor: 0 }
        } else {
            RichImeView::Composing {
                text: text@,
                cursor: match cursor {
                    Some((s, _)) => s,
                    None => 0,
                },
            }
        },
        ImeEvent::Commit(_) => RichImeView::EndComposition,
    }
}

/// The operation that an input-method event asks for; every such event is
/// consumed.
pub fn editable_handle_ime(event: &ImeEvent) -> (r: RichImeEdit)
    ensures
        r@ == rich_ime_spec(*event),
{
    match event {
        ImeEvent::Enabled => RichImeEdit::Nothing,
        ImeEvent::Disabled => RichImeEdit::EndComposition,
        ImeEvent::Preedit { text, cursor } => {
            if text.as_str().is_empty() {
                let t = String::new();
                assert(t@ =~= Seq::<char>::empty());
                RichImeEdit::Composing { text: t, cursor: 0 }
            } else {
                let c = match cursor {
                    Some((s, _)) => *s,
                    None => 0,
                };
                RichImeEdit::Composing { text: text.clone(), cursor: c }
            }
        },
        ImeEvent::Commit(_text) => RichImeEdit::EndComposition,
    }
}

/// Password display of a text: one `•` per character.
pub fn mask(text: &str) -> (r: String)
    ensures
        r@ == repeat("•"@, text@.len()),
        r@.len() == text@.len(),
{
    let mut out = String::new();
    let n = text.unicode_len();
    push_repeat(&mut out, "•", n);
    proof {
        reveal_strlit("•");
        crate::text_fmt::lemma_repeat_single_len("•"@, n as nat);
    }
    out
}

/// Law: without Ctrl or Meta, Delete deletes forward (the grapheme or
/// selection after the cursor) and Backspace deletes backward, whatever Shift
/// and Alt are; the two keys never ask for the same operation.
pub proof fn law_delete_forward_backspace_backward(d: KeyEvent, b: KeyEvent)
    requires
        d.key is Delete,
        b.key is Backspace,
    ensures
        !d.ctrl && !d.meta ==> rich_key_spec(d) == Some(RichEdit::Delete),
        !b.ctrl && !b.meta ==> rich_key_spec(b) == Some(RichEdit::Backspace),
        rich_key_spec(d) is Some ==> rich_key_spec(d) != rich_key_spec(b),
{
}

} // verus!
