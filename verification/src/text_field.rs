//! Single-line text field: what each key and input-method event does to the
//! editor, and the password mask.
//!
//! The editing itself (cursor, selection, composition) is done by the text
//! editor of the renderer; this module decides which editor operation an event
//! asks for, or that the event is left to the enclosing widgets.
use vstd::prelude::*;

use crate::event::{ImeEvent, Key, KeyEvent};
use crate::text_fmt::{push_repeat, repeat};

verus! {

/// An editor operation asked for by a key.
#[derive(Copy, Clone, Debug, PartialEq, Eq, Structural)]
pub enum FieldEdit {
    /// Insert the character, replacing the selection.
    Insert(char),
    /// Delete the grapheme (or selection) before the cursor.
    Backdelete,
    /// Delete the grapheme (or selection) after the cursor.
    Delete,
    MoveLeft,
    SelectLeft,
    MoveRight,
    SelectRight,
    MoveToLineStart,
    SelectToLineStart,
    MoveToLineEnd,
    SelectToLineEnd,
}

/// The editor operation of a key, `None` when the field leaves the key to its
/// parents: every key with Ctrl or Meta (no shortcut is bound yet), a
/// character typed with Shift, Enter, Tab, Escape, Page Up / Down and the
/// vertical arrows.
pub open spec fn field_key_spec(e: KeyEvent) -> Option<FieldEdit> {
    if e.ctrl || e.meta {
        None
    } else {
        match e.key {
            Key::Char(c) => if !e.shift {
                Some(FieldEdit::Insert(c))
            } else {
                None
            },
            Key::Backspace => Some(FieldEdit::Backdelete),
            Key::Delete => Some(FieldEdit::Delete),
            Key::ArrowLeft => Some(if e.shift { FieldEdit::SelectLeft } else { FieldEdit::MoveLeft }),
            Key::ArrowRight => Some(if e.shift { FieldEdit::SelectRight } else { FieldEdit::MoveRight }),
            Key::Home => Some(if e.shift { FieldEdit::SelectToLineStart } else { FieldEdit::MoveToLineStart }),
            Key::End => Some(if e.shift { FieldEdit::SelectToLineEnd } else { FieldEdit::MoveToLineEnd }),
            _ => None,
        }
    }
}

/// The editor operation that `event` asks for; `None` means the event is not
/// consumed.
pub fn editable_handle_key(event: &KeyEvent) -> (r: Option<FieldEdit>)
    ensures
        r == field_key_spec(*event),
{
    if event.ctrl || event.meta {
        return handle_ctrl_shortcut(event);
    }
    let shift = event.shift;
    match event.key {
        Key::Char(ch) => {
            if !shift {
                Some(FieldEdit::Insert(ch))
            } else {
                None
            }
        },
        Key::Backspace => Some(FieldEdit::Backdelete),
        Key::Delete => Some(FieldEdit::Delete),
        Key::ArrowLeft => Some(
            if shift {
                FieldEdit::SelectLeft
            } else {
                FieldEdit::MoveLeft
            },
        ),
        Key::ArrowRight => Some(
            if shift {
                FieldEdit::SelectRight
            } else {
                FieldEdit::MoveRight
            },
        ),
        Key::Home => Some(
            if shift {
                FieldEdit::SelectToLineStart
            } else {
                FieldEdit::MoveToLineStart
            },
        ),
        Key::End => Some(
            if shift {
                FieldEdit::SelectToLineEnd
            } else {
                FieldEdit::MoveToLineEnd
            },
        ),
        _ => None,
    }
}

/// Ctrl / Meta shortcuts: none is bound yet, so none is consumed.
fn handle_ctrl_shortcut(_event: &KeyEvent) -> (r: Option<FieldEdit>)
    ensures
        r is None,
{
    None
}

/// An editor operation asked for by an input-method event.
#[derive(Clone, Debug)]
pub enum FieldImeEdit {
    /// Nothing to do (the event is still consumed).
    Nothing,
    /// End the composition, keeping its text.
    FinishCompose,
    /// Drop the composition text.
    ClearCompose,
    /// Show `text` as the composition, with the composition cursor `cursor`.
    SetCompose { text: String, cursor: Option<(usize, usize)> },
}

/// The view of an input-method operation.
pub enum FieldImeView {
    Nothing,
    FinishCompose,
    ClearCompose,
    SetCompose { text: Seq<char>, cursor: Option<(usize, usize)> },
}

impl View for FieldImeEdit {
    type V = FieldImeView;

    open spec fn view(&self) -> FieldImeView {
        match self {
            FieldImeEdit::Nothing => FieldImeView::Nothing,
            FieldImeEdit::FinishCompose => FieldImeView::FinishCompose,
            FieldImeEdit::ClearCompose => FieldImeView::ClearCompose,
            FieldImeEdit::SetCompose { text, cursor } => FieldImeView::SetCompose { text: text@, cursor: *cursor },
        }
    }
}

/// The operation of an input-method event: switching on does nothing,
/// switching off and committing end the composition, an empty composition
/// text drops it, any other shows it, keeping the composition cursor only when
/// it ends inside the text (by its UTF-8 length).
pub open spec fn field_ime_spec(e: ImeEvent) -> FieldImeView {
    match e {
        ImeEvent::Enabled => FieldImeView::Nothing,
        ImeEvent::Disabled => FieldImeView::FinishCompose,
        ImeEvent::Preedit { text, cursor } => if text@.len() == 0 {
            FieldImeView::ClearCompose
        } else {
            FieldImeView::SetCompose {
                text: text@,
                cursor: match cursor {
                    Some((s, e)) => if e <= (vstd::utf8::encode_utf8(text@).len() as usize) {
                        Some((s, e))
                    } else {
                        None
                    },
                    None => None,
                },
            }
        },
        ImeEvent::Commit(_) => FieldImeView::FinishCompose,
    }
}

/// The editor operation that an input-method event asks for; every such event
/// is consumed.
pub fn editable_handle_ime(event: &ImeEvent) -> (r: FieldImeEdit)
    ensures
        r@ == field_ime_spec(*event),
{
    match event {
        ImeEvent::Enabled => FieldImeEdit::Nothing,
        ImeEvent::Disabled => FieldImeEdit::FinishCompose,
        ImeEvent::Preedit { text, cursor } => {
            if text.as_str().is_empty() {
                FieldImeEdit::ClearCompose
            } else {
                let len = text.as_str().len();
                let cur = match cursor {
                    Some((s, e)) => {
                        if *e <= len {
                            Some((*s, *e))
                        } else {
                            None
                        }
                    },
                    None => None,
                };
                FieldImeEdit::SetCompose { text: text.clone(), cursor: cur }
            }
        },
        ImeEvent::Commit(_text) => FieldImeEdit::FinishCompose,
    }
}

/// Password display of a text: one `*` per character.
pub fn mask(text: &str) -> (r: String)
    ensures
        r@ == repeat("*"@, text@.len()),
        r@.len() == text@.len(),
{
    let mut out = String::new();
    let n = text.unicode_len();
    push_repeat(&mut out, "*", n);
    proof {
        reveal_strlit("*");
        crate::text_fmt::lemma_repeat_single_len("*"@, n as nat);
    }
    out
}

/// Law: without Ctrl or Meta, Delete deletes forward (the grapheme or
/// selection after the cursor) and Backspace deletes backward, whatever Shift
/// and Alt are; the two keys never ask for the same operation.
pub proof fn law_delete_forward_backspace_backward(d: KeyEvent, b: KeyEvent)
    requires
        d.key is Delete,
        b.key is Backspace,
    ensures
        !d.ctrl && !d.meta ==> field_key_spec(d) == Some(FieldEdit::Delete),
        !b.ctrl && !b.meta ==> field_key_spec(b) == Some(FieldEdit::Backdelete),
        field_key_spec(d) is Some ==> field_key_spec(d) != field_key_spec(b),
{
}

} // verus!
