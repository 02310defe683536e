//! Single-line text input: the text, the cursor, the placeholder and the
//! focus, and what each key does to them.
//!
//! The cursor is a UTF-8 byte offset, and the arrows move it by one byte.
//! Deleting or typing at an offset inside a character would cut the
//! character, so `handle_key` asks that such keys come only at character
//! boundaries. The cursor may also lie past the end of the text when the text
//! is replaced.
use vstd::prelude::*;
use vstd::utf8::{decode_utf8, encode_utf8, is_char_boundary};

use crate::event::Key;
use crate::text_util::{at_char_boundary, byte_len, text_len};

verus! {

/// `String::push`: appends one character at the end.
#[verifier::external_body]
fn push_char(s: &mut String, c: char)
    ensures
        final(s)@ == old(s)@.push(c),
{
    s.push(c);
}

/// `s` without its character at `i`.
pub open spec fn remove_at(s: Seq<char>, i: int) -> Seq<char> {
    s.subrange(0, i) + s.subrange(i + 1, s.len() as int)
}

/// `s` with `c` put before its character at `i`.
pub open spec fn insert_at(s: Seq<char>, i: int, c: char) -> Seq<char> {
    s.subrange(0, i).push(c) + s.subrange(i, s.len() as int)
}

/// The number of characters of `s` before byte offset `b`.
pub open spec fn char_index(s: Seq<char>, b: int) -> int {
    decode_utf8(encode_utf8(s).subrange(0, b)).len() as int
}

/// The text and cursor after a key: Backspace moves the cursor back one
/// byte and deletes the character starting there, Delete deletes the
/// character at the cursor, the arrows move the cursor by one byte within the
/// text, and a pressed character is typed at the cursor, which then moves on
/// one byte; other keys change nothing.
pub open spec fn input_key_spec(text: Seq<char>, cursor: nat, key: Key, pressed: bool) -> (Seq<char>, nat) {
    match key {
        Key::Backspace => if cursor > 0 {
            (remove_at(text, char_index(text, cursor - 1)), (cursor - 1) as nat)
        } else {
            (text, cursor)
        },
        Key::Delete => if cursor < byte_len(text) {
            (remove_at(text, char_index(text, cursor as int)), cursor)
        } else {
            (text, cursor)
        },
        Key::ArrowLeft => if cursor > 0 {
            (text, (cursor - 1) as nat)
        } else {
            (text, cursor)
        },
        Key::ArrowRight => if cursor < byte_len(text) {
            (text, cursor + 1)
        } else {
            (text, cursor)
        },
        Key::Char(c) => if pressed {
            (insert_at(text, char_index(text, cursor as int), c), cursor + 1)
        } else {
            (text, cursor)
        },
        _ => (text, cursor),
    }
}

/// The key edits the text only at character boundaries: Backspace deletes at
/// the byte before the cursor, Delete and typing at the cursor.
pub open spec fn key_fits(text: Seq<char>, cursor: nat, key: Key, pressed: bool) -> bool {
    match key {
        Key::Backspace => cursor > 0 ==> cursor - 1 < byte_len(text) && at_char_boundary(text, cursor - 1),
        Key::Delete => cursor < byte_len(text) ==> at_char_boundary(text, cursor as int),
        Key::Char(_) => pressed ==> at_char_boundary(text, cursor as int),
        _ => true,
    }
}

/// `encode_utf8` of a concatenation.
proof fn lemma_encode_concat(a: Seq<char>, b: Seq<char>)
    ensures
        encode_utf8(a + b) == encode_utf8(a) + encode_utf8(b),
    decreases a.len(),
{
    if a.len() > 0 {
        assert((a + b).drop_first() =~= a.drop_first() + b);
        lemma_encode_concat(a.drop_first(), b);
        assert(encode_utf8(a + b) =~= encode_utf8(a) + encode_utf8(b));
    }
}

/// Splitting a text at a character boundary splits its characters.
proof fn lemma_split(text: Seq<char>, idx: int, a: Seq<char>, b: Seq<char>)
    requires
        is_char_boundary(encode_utf8(text), idx),
        encode_utf8(a) == encode_utf8(text).subrange(0, idx),
        encode_utf8(b) == encode_utf8(text).subrange(idx, text_len(text)),
    ensures
        text == a + b,
        a.len() == char_index(text, idx),
        0 <= idx <= text_len(text),
        idx < text_len(text) ==> b.len() > 0,
{
    let bytes = encode_utf8(text);
    vstd::utf8::encode_utf8_valid_utf8(text);
    vstd::utf8::decode_utf8_split(bytes, idx);
    vstd::utf8::encode_utf8_decode_utf8(text);
    vstd::utf8::encode_utf8_decode_utf8(a);
    vstd::utf8::encode_utf8_decode_utf8(b);
    if idx < 0 || idx > bytes.len() {
        assert(!is_char_boundary(bytes, idx));
    }
    if idx < text_len(text) && b.len() == 0 {
        assert(encode_utf8(b) =~= Seq::<u8>::empty());
    }
}

/// A new string holding `s` without its character at byte offset `idx`.
fn removed_at(s: &String, idx: usize) -> (r: String)
    requires
        idx < byte_len(s@),
        at_char_boundary(s@, idx as int),
    ensures
        r@ == remove_at(s@, char_index(s@, idx as int)),
{
    let (a, b) = s.as_str().split_at(idx);
    proof {
        if text_len(s@) <= usize::MAX {
            assert(idx < text_len(s@));
        }
        lemma_split(s@, idx as int, a@, b@);
    }
    let n = b.unicode_len();
    let mut r = String::from_str(a);
    r.append(b.substring_char(1, n));
    proof {
        assert(r@ =~= remove_at(s@, char_index(s@, idx as int)));
    }
    r
}

/// A new string holding `s` with `c` put before its character at byte
/// offset `idx`.
fn inserted_at(s: &String, idx: usize, c: char) -> (r: String)
    requires
        at_char_boundary(s@, idx as int),
    ensures
        r@ == insert_at(s@, char_index(s@, idx as int), c),
{
    let (a, b) = s.as_str().split_at(idx);
    proof {
        lemma_split(s@, idx as int, a@, b@);
    }
    let mut r = String::from_str(a);
    push_char(&mut r, c);
    r.append(b);
    proof {
        assert(r@ =~= insert_at(s@, char_index(s@, idx as int), c));
    }
    r
}

/// State of a text input. The cursor is a byte offset.
pub struct TextInputState {
    text: String,
    cursor_pos: usize,
    placeholder: String,
    focused: bool,
}

impl TextInputState {
    /// The text.
    pub closed spec fn text_view(self) -> Seq<char> {
        self.text@
    }

    /// The cursor position.
    pub closed spec fn cursor_view(self) -> nat {
        self.cursor_pos as nat
    }

    /// The placeholder.
    pub closed spec fn placeholder_view(self) -> Seq<char> {
        self.placeholder@
    }

    /// Whether the input has the focus.
    pub closed spec fn focused_view(self) -> bool {
        self.focused
    }

    /// An empty, unfocused input with the cursor at the start.
    pub fn new() -> (r: Self)
        ensures
            r.text_view() == Seq::<char>::empty(),
            r.cursor_view() == 0,
            r.placeholder_view() == Seq::<char>::empty(),
            !r.focused_view(),
    {
        TextInputState { text: String::new(), cursor_pos: 0, placeholder: String::new(), focused: false }
    }

    /// The input with `text` as its text; the cursor stays where it was.
    pub fn text(self, text: &str) -> (r: Self)
        ensures
            r.text_view() == text@,
            r.cursor_view() == self.cursor_view(),
            r.placeholder_view() == self.placeholder_view(),
            r.focused_view() == self.focused_view(),
    {
        TextInputState {
            text: String::from_str(text),
            cursor_pos: self.cursor_pos,
            placeholder: self.placeholder,
            focused: self.focused,
        }
    }

    /// The input with `text` as its placeholder.
    pub fn placeholder(self, text: &str) -> (r: Self)
        ensures
            r.text_view() == self.text_view(),
            r.cursor_view() == self.cursor_view(),
            r.placeholder_view() == text@,
            r.focused_view() == self.focused_view(),
    {
        TextInputState {
            text: self.text,
            cursor_pos: self.cursor_pos,
            placeholder: String::from_str(text),
            focused: self.focused,
        }
    }

    /// The text.
    pub fn text_content(&self) -> (r: &str)
        ensures
            r@ == self.text_view(),
    {
        self.text.as_str()
    }

    /// The cursor position (a byte offset).
    pub fn cursor_position(&self) -> (r: usize)
        ensures
            r == self.cursor_view(),
    {
        self.cursor_pos
    }

    /// The placeholder.
    pub fn placeholder_text(&self) -> (r: &str)
        ensures
            r@ == self.placeholder_view(),
    {
        self.placeholder.as_str()
    }

    /// Whether the input has the focus.
    pub fn is_focused(&self) -> (r: bool)
        ensures
            r == self.focused_view(),
    {
        self.focused
    }

    /// Gives or takes the focus.
    pub fn set_focused(&mut self, focused: bool)
        ensures
            final(self).text_view() == old(self).text_view(),
            final(self).cursor_view() == old(self).cursor_view(),
            final(self).placeholder_view() == old(self).placeholder_view(),
            final(self).focused_view() == focused,
    {
        self.focused = focused;
    }

    /// What is shown: the placeholder while the text is empty, else the text.
    pub fn display_text(&self) -> (r: &str)
        ensures
            r@ == (if self.text_view().len() == 0 { self.placeholder_view() } else { self.text_view() }),
    {
        if self.text.as_str().is_empty() {
            self.placeholder.as_str()
        } else {
            self.text.as_str()
        }
    }

    /// Applies a key (see [`input_key_spec`]); `pressed` is false for a
    /// release, which types nothing. A key that would delete or type inside a
    /// character is left out (see [`key_fits`]).
    pub fn handle_key(&mut self, key: Key, pressed: bool)
        requires
            key_fits(old(self).text_view(), old(self).cursor_view(), key, pressed),
            key is Char && pressed ==> old(self).cursor_view() < usize::MAX,
        ensures
            (final(self).text_view(), final(self).cursor_view()) == input_key_spec(
                old(self).text_view(),
                old(self).cursor_view(),
                key,
                pressed,
            ),
            final(self).placeholder_view() == old(self).placeholder_view(),
            final(self).focused_view() == old(self).focused_view(),
    {
        let len = self.text.as_str().len();
        match key {
            Key::Backspace => {
                if self.cursor_pos > 0 {
                    let c = self.cursor_pos - 1;
                    let t = removed_at(&self.text, c);
                    self.cursor_pos = c;
                    self.text = t;
                }
            },
            Key::Delete => {
                if self.cursor_pos < len {
                    let t = removed_at(&self.text, self.cursor_pos);
                    self.text = t;
                }
            },
            Key::ArrowLeft => {
                if self.cursor_pos > 0 {
                    self.cursor_pos = self.cursor_pos - 1;
                }
            },
            Key::ArrowRight => {
                if self.cursor_pos < len {
                    self.cursor_pos = self.cursor_pos + 1;
                }
            },
            Key::Char(ch) => {
                if pressed {
                    let t = inserted_at(&self.text, self.cursor_pos, ch);
                    self.text = t;
                    self.cursor_pos = self.cursor_pos + 1;
                }
            },
            _ => {},
        }
    }
}

/// Law: typing a character at a character boundary and then pressing
/// Backspace gives back the text and the cursor (the cursor then stands one
/// byte into the typed character, and Backspace deletes the character that
/// starts a byte before it).
pub proof fn law_type_then_backspace(text: Seq<char>, cursor: nat, c: char)
    requires
        at_char_boundary(text, cursor as int),
    ensures
        ({
            let (t1, c1) = input_key_spec(text, cursor, Key::Char(c), true);
            input_key_spec(t1, c1, Key::Backspace, true) == (text, cursor)
        }),
{
    let bytes = encode_utf8(text);
    let a = decode_utf8(bytes.subrange(0, cursor as int));
    let b = decode_utf8(bytes.subrange(cursor as int, bytes.len() as int));
    vstd::utf8::encode_utf8_valid_utf8(text);
    vstd::utf8::valid_utf8_split(bytes, cursor as int);
    vstd::utf8::decode_utf8_encode_utf8(bytes.subrange(0, cursor as int));
    vstd::utf8::decode_utf8_encode_utf8(bytes.subrange(cursor as int, bytes.len() as int));
    lemma_split(text, cursor as int, a, b);
    let ci = char_index(text, cursor as int);
    let t1 = insert_at(text, ci, c);
    assert(t1 =~= a + (seq![c] + b));
    lemma_encode_concat(a, seq![c] + b);
    assert(encode_utf8(t1).subrange(0, cursor as int) =~= encode_utf8(a));
    vstd::utf8::encode_utf8_decode_utf8(a);
    assert(char_index(t1, cursor as int) == ci);
    assert(remove_at(t1, ci) =~= text);
}

} // verus!
