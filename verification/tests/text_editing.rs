use wy_ui::event::{ImeEvent, Key, KeyEvent};
use wy_ui::rich_text::{self, RichEdit, RichImeEdit};
use wy_ui::text_field::{self, FieldEdit, FieldImeEdit};
use wy_ui::text_lines::{
    display_line_ranges, line_at_row, line_end_index, line_index_for_offset, line_start_index, vertical_move,
    VerticalMove,
};
use wy_ui::value_sync::ValueSync;

fn key(k: Key, ctrl: bool, shift: bool) -> KeyEvent {
    KeyEvent {
        key: k,
        ctrl,
        shift,
        alt: false,
        meta: false,
    }
}

#[test]
fn text_field_mask_preserves_char_count() {
    assert_eq!(text_field::mask("héllo"), "*****");
    assert_eq!(text_field::mask(""), "");
    assert_eq!(text_field::mask("a😀b"), "***");
}

#[test]
fn rich_text_mask_preserves_char_count() {
    assert_eq!(rich_text::mask("héllo"), "•••••");
    assert_eq!(rich_text::mask(""), "");
    assert_eq!(rich_text::mask("a😀b"), "•••");
}

#[test]
fn enter_tab_escape_not_consumed() {
    for k in [Key::Enter, Key::Tab, Key::Escape, Key::PageUp, Key::PageDown] {
        assert!(text_field::editable_handle_key(&key(k, false, false)).is_none(), "{k:?}");
    }
}

#[test]
fn tab_escape_not_consumed() {
    for k in [Key::Tab, Key::Escape, Key::PageUp, Key::PageDown] {
        assert!(rich_text::rich_key_action(&key(k, false, false)).is_none(), "{k:?}");
    }
}

#[test]
fn text_field_key_actions() {
    assert_eq!(text_field::editable_handle_key(&key(Key::Char('x'), false, false)), Some(FieldEdit::Insert('x')));
    assert_eq!(text_field::editable_handle_key(&key(Key::Char('x'), false, true)), None);
    assert_eq!(text_field::editable_handle_key(&key(Key::Char('a'), true, false)), None);
    assert_eq!(text_field::editable_handle_key(&key(Key::Backspace, false, false)), Some(FieldEdit::Backdelete));
    assert_eq!(text_field::editable_handle_key(&key(Key::ArrowLeft, false, true)), Some(FieldEdit::SelectLeft));
    assert_eq!(text_field::editable_handle_key(&key(Key::ArrowRight, false, false)), Some(FieldEdit::MoveRight));
    assert_eq!(text_field::editable_handle_key(&key(Key::Home, false, false)), Some(FieldEdit::MoveToLineStart));
    assert_eq!(text_field::editable_handle_key(&key(Key::End, false, true)), Some(FieldEdit::SelectToLineEnd));
}

#[test]
fn rich_text_key_actions() {
    let undo = KeyEvent { key: Key::Char('z'), ctrl: true, shift: false, alt: false, meta: false };
    let redo = KeyEvent { key: Key::Char('z'), ctrl: true, shift: false, alt: true, meta: false };
    let y = KeyEvent { key: Key::Char('y'), ctrl: false, shift: false, alt: false, meta: true };
    assert_eq!(rich_text::rich_key_action(&undo), Some(RichEdit::Undo));
    assert_eq!(rich_text::rich_key_action(&redo), Some(RichEdit::Redo));
    assert_eq!(rich_text::rich_key_action(&y), Some(RichEdit::Redo));
    let alt_y = KeyEvent { key: Key::Char('y'), ctrl: true, shift: false, alt: true, meta: false };
    assert_eq!(rich_text::rich_key_action(&alt_y), Some(RichEdit::Redo));
    assert_eq!(rich_text::rich_key_action(&key(Key::Char('y'), true, false)), Some(RichEdit::Redo));
    assert_eq!(rich_text::rich_key_action(&key(Key::Char('a'), true, false)), Some(RichEdit::SelectAll));
    assert_eq!(rich_text::rich_key_action(&key(Key::Enter, false, false)), Some(RichEdit::InsertNewline));
    assert_eq!(rich_text::rich_key_action(&key(Key::Char('Q'), false, true)), Some(RichEdit::Insert('Q')));
    assert_eq!(rich_text::rich_key_action(&key(Key::Home, true, true)), Some(RichEdit::LineStart { extend: true }));
    assert_eq!(rich_text::rich_key_action(&key(Key::ArrowDown, false, false)), Some(RichEdit::LineDown { extend: false }));
}

#[test]
fn ime_actions() {
    let pre = ImeEvent::Preedit { text: "中".into(), cursor: Some((3, 3)) };
    match text_field::editable_handle_ime(&pre) {
        FieldImeEdit::SetCompose { text, cursor } => {
            assert_eq!(text, "中");
            assert_eq!(cursor, Some((3, 3)));
        }
        _ => panic!("expected SetCompose"),
    }
    let past_end = ImeEvent::Preedit { text: "中".into(), cursor: Some((0, 4)) };
    match text_field::editable_handle_ime(&past_end) {
        FieldImeEdit::SetCompose { cursor, .. } => assert_eq!(cursor, None),
        _ => panic!("expected SetCompose"),
    }
    let empty = ImeEvent::Preedit { text: String::new(), cursor: None };
    assert!(matches!(text_field::editable_handle_ime(&empty), FieldImeEdit::ClearCompose));
    assert!(matches!(text_field::editable_handle_ime(&ImeEvent::Commit("中".into())), FieldImeEdit::FinishCompose));
    match rich_text::editable_handle_ime(&pre) {
        RichImeEdit::Composing { text, cursor } => {
            assert_eq!(text, "中");
            assert_eq!(cursor, 3);
        }
        _ => panic!("expected Composing"),
    }
    assert!(matches!(rich_text::editable_handle_ime(&ImeEvent::Disabled), RichImeEdit::EndComposition));
    assert!(matches!(rich_text::editable_handle_ime(&ImeEvent::Enabled), RichImeEdit::Nothing));
}

#[test]
fn line_ranges_and_indices() {
    assert_eq!(display_line_ranges("ab\ncd\n"), vec![(0, 2), (3, 5), (6, 6)]);
    assert_eq!(display_line_ranges(""), vec![(0, 0)]);
    assert_eq!(display_line_ranges("中\n文"), vec![(0, 1), (2, 3)]);
    assert_eq!(line_index_for_offset("ab\ncd\nef", 0), 0);
    assert_eq!(line_index_for_offset("ab\ncd\nef", 3), 1);
    assert_eq!(line_index_for_offset("ab\ncd\nef", 100), 2);
    assert_eq!(line_start_index("ab\ncd", 4), 3);
    assert_eq!(line_start_index("ab\ncd", 1), 0);
    assert_eq!(line_end_index("ab\ncd", 0), 2);
    assert_eq!(line_end_index("ab\ncd", 3), 5);
    assert_eq!(line_end_index("ab", 9), 9);
}

#[test]
fn push_change_writes_only_on_diff() {
    let mut sync = ValueSync::new("hi");
    assert!(!sync.push_edit("hi", "hi"));
    assert!(sync.push_edit("hi!", "hi"));
    // The written-back value comes round unchanged: no reload.
    assert!(!sync.sync_external("hi!"));
}

#[test]
fn external_change_reloads_once() {
    let mut sync = ValueSync::new("a");
    assert!(!sync.sync_external("a"));
    assert!(sync.sync_external("b"));
    assert!(!sync.sync_external("b"));
}

#[test]
fn offsets_fall_in_their_lines() {
    let text = "ab\n\ncde\n";
    let ranges = display_line_ranges(text);
    assert_eq!(ranges, vec![(0, 2), (3, 3), (4, 7), (8, 8)]);
    assert_eq!(ranges.len(), text.matches('\n').count() + 1);
    for (k, &(s, e)) in ranges.iter().enumerate() {
        for o in s..=e {
            assert_eq!(line_index_for_offset(text, o), k);
        }
    }
}

#[test]
fn arrows_move_between_lines() {
    let text = "ab\ncde\nf";
    assert_eq!(vertical_move(text, 1, true), VerticalMove::TextStart);
    assert_eq!(vertical_move(text, 4, true), VerticalMove::ToLine { index: 0, start: 0, end: 2 });
    assert_eq!(vertical_move(text, 1, false), VerticalMove::ToLine { index: 1, start: 3, end: 6 });
    assert_eq!(vertical_move(text, 4, false), VerticalMove::ToLine { index: 2, start: 7, end: 8 });
    assert_eq!(vertical_move(text, 8, false), VerticalMove::TextEnd);
    assert_eq!(vertical_move("", 0, false), VerticalMove::TextEnd);
}

#[test]
fn click_rows_clamp_to_last_line() {
    assert_eq!(line_at_row("ab\ncde", 0), (0, 2));
    assert_eq!(line_at_row("ab\ncde", 1), (3, 6));
    assert_eq!(line_at_row("ab\ncde", 7), (3, 6));
    assert_eq!(line_at_row("", 3), (0, 0));
}
