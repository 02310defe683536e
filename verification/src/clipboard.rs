//! Clipboard bridge: the text components read and write the clipboard
//! through the implementation that the host registers; without one, reading
//! gives nothing and writing does nothing.
use vstd::prelude::*;

verus! {

/// A platform clipboard, implemented by the host.
pub trait Clipboard {
    /// The current text, if any.
    fn get_text(&self) -> Option<String>;

    /// Replaces the text.
    fn set_text(&self, text: &str);
}

/// The registration point of the clipboard implementation.
pub struct ClipboardHost<C: Clipboard> {
    clipboard: Option<C>,
}

impl<C: Clipboard> ClipboardHost<C> {
    /// No implementation registered.
    pub fn new() -> (r: Self)
        ensures
            r.registered() is None,
    {
        ClipboardHost { clipboard: None }
    }

    /// The registered implementation.
    pub closed spec fn registered(&self) -> Option<C> {
        self.clipboard
    }

    /// Registers the implementation (once, when the engine starts).
    pub fn set_clipboard(&mut self, clipboard: C)
        ensures
            final(self).registered() == Some(clipboard),
    {
        self.clipboard = Some(clipboard);
    }

    /// The clipboard text: what the registered implementation's `get_text`
    /// gives; `None` when no implementation is registered.
    pub fn clipboard_get(&self) -> (r: Option<String>)
        ensures
            match self.registered() {
                Some(c) => call_ensures(C::get_text, (&c,), r),
                None => r is None,
            },
    {
        match &self.clipboard {
            Some(c) => c.get_text(),
            None => None,
        }
    }

    /// Writes the clipboard text through the registered implementation's
    /// `set_text`; does nothing when no implementation is registered.
    pub fn clipboard_set(&self, text: &str)
        ensures
            match self.registered() {
                Some(c) => call_ensures(C::set_text, (&c, text), ()),
                None => true,
            },
    {
        match &self.clipboard {
            Some(c) => c.set_text(text),
            None => {},
        }
    }
}

} // verus!
