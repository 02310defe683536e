use wy_ui::event::{key_event_from_bits, key_from_text, modifier_bits, Key};

#[test]
fn translate_modifiers_none() {
    assert_eq!(modifier_bits(false, false, false, false), 0);
}

#[test]
fn translate_modifiers_ctrl_shift() {
    let m = modifier_bits(true, true, false, false);
    assert!(m & 0x1 != 0);
    assert!(m & 0x2 != 0);
    assert!(m & 0x4 == 0);
}

#[test]
fn translate_modifiers_alt_meta() {
    let m = modifier_bits(false, false, true, true);
    assert!(m & 0x4 != 0);
    assert!(m & 0x8 != 0);
    assert!(m & 0x1 == 0);
    assert!(m & 0x2 == 0);
}

#[test]
fn translate_key_char() {
    assert_eq!(key_from_text("a"), Key::Char('a'));
}

#[test]
fn key_from_longer_text_is_nul() {
    assert_eq!(key_from_text("ab"), Key::Char('\0'));
    assert_eq!(key_from_text("é"), Key::Char('\0'));
    assert_eq!(key_from_text(""), Key::Char('\0'));
}

#[test]
fn key_event_reads_mask_back() {
    let e = key_event_from_bits(Key::Tab, modifier_bits(true, false, true, false));
    assert_eq!(e.key, Key::Tab);
    assert!(e.shift && !e.ctrl && e.alt && !e.meta);
    let e = key_event_from_bits(Key::Enter, 15);
    assert!(e.shift && e.ctrl && e.alt && e.meta);
}
