use wy_ui::event::Key;
use wy_ui::text_input::TextInputState;

fn at(text: &str, cursor: usize) -> TextInputState {
    let mut w = TextInputState::new().text(text);
    for _ in 0..cursor {
        w.handle_key(Key::ArrowRight, true);
    }
    assert_eq!(w.cursor_position(), cursor);
    w
}

#[test]
fn input_new_defaults() {
    let w = TextInputState::new();
    assert_eq!(w.text_content(), "");
    assert_eq!(w.cursor_position(), 0);
    assert!(!w.is_focused());
}

#[test]
fn input_builder_chain() {
    let w = TextInputState::new().text("hello").placeholder("type here");
    assert_eq!(w.text_content(), "hello");
    assert_eq!(w.placeholder_text(), "type here");
}

#[test]
fn input_handle_key_insert_char() {
    let mut w = TextInputState::new();
    w.handle_key(Key::Char('a'), true);
    assert_eq!(w.text_content(), "a");
    assert_eq!(w.cursor_position(), 1);
}

#[test]
fn input_released_char_types_nothing() {
    let mut w = TextInputState::new();
    w.handle_key(Key::Char('a'), false);
    assert_eq!(w.text_content(), "");
    assert_eq!(w.cursor_position(), 0);
}

#[test]
fn input_handle_key_backspace() {
    let mut w = at("abc", 2);
    w.set_focused(true);
    w.handle_key(Key::Backspace, true);
    assert_eq!(w.text_content(), "ac");
    assert_eq!(w.cursor_position(), 1);
}

#[test]
fn input_handle_key_delete() {
    let mut w = at("abc", 1);
    w.handle_key(Key::Delete, true);
    assert_eq!(w.text_content(), "ac");
    assert_eq!(w.cursor_position(), 1);
}

#[test]
fn input_handle_key_arrow_left() {
    let mut w = at("abc", 2);
    w.handle_key(Key::ArrowLeft, true);
    assert_eq!(w.cursor_position(), 1);
}

#[test]
fn input_handle_key_arrow_right() {
    let mut w = at("abc", 1);
    w.handle_key(Key::ArrowRight, true);
    assert_eq!(w.cursor_position(), 2);
}

#[test]
fn input_cursor_clamps_at_bounds() {
    let mut w = at("abc", 0);
    w.handle_key(Key::ArrowLeft, true);
    assert_eq!(w.cursor_position(), 0);
    let mut w = at("abc", 3);
    w.handle_key(Key::ArrowRight, true);
    assert_eq!(w.cursor_position(), 3);
    w.handle_key(Key::Delete, true);
    assert_eq!(w.text_content(), "abc");
    let mut w = at("abc", 0);
    w.handle_key(Key::Backspace, true);
    assert_eq!(w.text_content(), "abc");
}

#[test]
fn input_typing_in_the_middle() {
    let mut w = at("ac", 1);
    w.handle_key(Key::Char('b'), true);
    assert_eq!(w.text_content(), "abc");
    assert_eq!(w.cursor_position(), 2);
}

#[test]
fn input_type_then_backspace_restores() {
    // Byte 3 is the boundary after "hé".
    let mut w = at("héllo", 3);
    w.handle_key(Key::Char('中'), true);
    assert_eq!(w.text_content(), "hé中llo");
    assert_eq!(w.cursor_position(), 4);
    w.handle_key(Key::Backspace, true);
    assert_eq!(w.text_content(), "héllo");
    assert_eq!(w.cursor_position(), 3);
}

#[test]
fn input_other_keys_change_nothing() {
    let mut w = at("abc", 1);
    w.handle_key(Key::Enter, true);
    w.handle_key(Key::Tab, true);
    assert_eq!(w.text_content(), "abc");
    assert_eq!(w.cursor_position(), 1);
}

#[test]
fn input_display_text_falls_back_to_placeholder() {
    let w = TextInputState::new().placeholder("hint");
    assert_eq!(w.display_text(), "hint");
    let w = w.text("x");
    assert_eq!(w.display_text(), "x");
}

#[test]
fn input_new_text_keeps_cursor() {
    let w = at("abcdef", 5).text("xy");
    assert_eq!(w.text_content(), "xy");
    assert_eq!(w.cursor_position(), 5);
    let mut w = w;
    w.handle_key(Key::ArrowLeft, true);
    assert_eq!(w.cursor_position(), 4);
    let w = at("abcdef", 1).text("xyz");
    assert_eq!(w.cursor_position(), 1);
}

#[test]
fn input_counts_bytes() {
    let mut w = at("é", 0);
    w.handle_key(Key::ArrowRight, true);
    assert_eq!(w.cursor_position(), 1);
    w.handle_key(Key::ArrowRight, true);
    assert_eq!(w.cursor_position(), 2);
    w.handle_key(Key::ArrowRight, true);
    assert_eq!(w.cursor_position(), 2);
    w.handle_key(Key::Delete, true);
    assert_eq!(w.text_content(), "é");
}
