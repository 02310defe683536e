//! Input events shared by the widgets: pointer phases, mouse buttons, keys and
//! input-method (IME) composition.
use vstd::prelude::*;

verus! {

/// Phase of a pointer event.
#[derive(Copy, Clone, Debug, PartialEq, Eq, Structural)]
pub enum PointerType {
    Down,
    Move,
    Up,
    Click,
    Wheel,
}

/// Mouse button.
#[derive(Copy, Clone, Debug, PartialEq, Eq, Structural)]
pub enum MouseButton {
    Left,
    Right,
    Middle,
}

/// A key.
#[derive(Copy, Clone, Debug, PartialEq, Eq, Structural)]
pub enum Key {
    Char(char),
    Enter,
    Backspace,
    Delete,
    ArrowUp,
    ArrowDown,
    ArrowLeft,
    ArrowRight,
    Home,
    End,
    PageUp,
    PageDown,
    Tab,
    Escape,
}

/// A key press with its modifiers.
#[derive(Copy, Clone, Debug, PartialEq, Eq, Structural)]
pub struct KeyEvent {
    pub key: Key,
    pub ctrl: bool,
    pub shift: bool,
    pub alt: bool,
    pub meta: bool,
}

/// Input-method composition event.
#[derive(Clone, Debug)]
pub enum ImeEvent {
    /// The input method was switched on.
    Enabled,
    /// The input method was switched off.
    Disabled,
    /// Composition text so far, with the composition cursor as a byte range
    /// inside it.
    Preedit { text: String, cursor: Option<(usize, usize)> },
    /// Composition committed.
    Commit(String),
}

/// The modifier bit mask of a key press: shift 0x1, ctrl 0x2, alt 0x4,
/// meta 0x8.
pub fn modifier_bits(shift: bool, ctrl: bool, alt: bool, meta: bool) -> (m: u32)
    ensures
        m == (if shift { 1u32 } else { 0 }) + (if ctrl { 2u32 } else { 0 }) + (if alt { 4u32 } else { 0 })
            + (if meta { 8u32 } else { 0 }),
{
    let mut m: u32 = 0;
    if shift {
        m = m + 1;
    }
    if ctrl {
        m = m + 2;
    }
    if alt {
        m = m + 4;
    }
    if meta {
        m = m + 8;
    }
    m
}

/// A key press with the modifiers of the bit mask `m` (see [`modifier_bits`]).
pub fn key_event_from_bits(key: Key, m: u32) -> (e: KeyEvent)
    ensures
        e.key == key,
        e.shift == (m & 0x1 != 0),
        e.ctrl == (m & 0x2 != 0),
        e.alt == (m & 0x4 != 0),
        e.meta == (m & 0x8 != 0),
{
    KeyEvent { key, ctrl: m & 0x2 != 0, shift: m & 0x1 != 0, alt: m & 0x4 != 0, meta: m & 0x8 != 0 }
}

/// The key of a typed text: its character when the text is one byte long,
/// the NUL character otherwise.
pub fn key_from_text(s: &str) -> (k: Key)
    ensures
        k == (if s.len() == 1 && s@.len() > 0 { Key::Char(s@[0]) } else { Key::Char('\0') }),
{
    if s.len() == 1 && !s.is_empty() {
        Key::Char(s.get_char(0))
    } else {
        Key::Char('\0')
    }
}

/// Law: reading the modifiers back from their bit mask gives them again.
pub proof fn law_modifier_bits_round_trip(shift: bool, ctrl: bool, alt: bool, meta: bool)
    ensures
        ({
            let m = ((if shift { 1u32 } else { 0 }) + (if ctrl { 2u32 } else { 0 }) + (if alt { 4u32 } else { 0 })
                + (if meta { 8u32 } else { 0 })) as u32;
            (m & 0x1 != 0) == shift && (m & 0x2 != 0) == ctrl && (m & 0x4 != 0) == alt && (m & 0x8 != 0) == meta
        }),
{
    let a: u32 = if shift { 1u32 } else { 0 };
    let b: u32 = if ctrl { 2u32 } else { 0 };
    let c: u32 = if alt { 4u32 } else { 0 };
    let d: u32 = if meta { 8u32 } else { 0 };
    assert((a == 0 || a == 1) && (b == 0 || b == 2) && (c == 0 || c == 4) && (d == 0 || d == 8) ==> {
        let m = (a + b + c + d) as u32;
        (m & 0x1 != 0) == (a == 1) && (m & 0x2 != 0) == (b == 2) && (m & 0x4 != 0) == (c == 4) && (m & 0x8 != 0)
            == (d == 8)
    }) by (bit_vector);
}

} // verus!
