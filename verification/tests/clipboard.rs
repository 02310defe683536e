use std::cell::RefCell;
use wy_ui::clipboard::{Clipboard, ClipboardHost};

struct MemoryClipboard(RefCell<Option<String>>);

impl Clipboard for MemoryClipboard {
    fn get_text(&self) -> Option<String> {
        self.0.borrow().clone()
    }
    fn set_text(&self, text: &str) {
        *self.0.borrow_mut() = Some(text.to_string());
    }
}

#[test]
fn unregistered_clipboard_is_noop() {
    let host: ClipboardHost<MemoryClipboard> = ClipboardHost::new();
    assert_eq!(host.clipboard_get(), None);
    host.clipboard_set("x");
}

#[test]
fn set_and_get_roundtrip() {
    let mut host = ClipboardHost::new();
    host.set_clipboard(MemoryClipboard(RefCell::new(None)));
    host.clipboard_set("hello");
    assert_eq!(host.clipboard_get().as_deref(), Some("hello"));
    host.clipboard_set("");
    assert_eq!(host.clipboard_get().as_deref(), Some(""));
}
