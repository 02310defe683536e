//! Keeping an editor and the external value it edits in step.
//!
//! Before drawing, the editor reads the external value and reloads itself
//! when that value changed since the last sync; after an edit it remembers
//! the edited text and writes it back when it differs from the external
//! value. Remembering the edited text keeps the written-back value from
//! coming round as an external change and reloading the editor.
use vstd::prelude::*;

verus! {

/// Reading the external value `external` with `synced` as the synced text:
/// whether the editor reloads, and the synced text afterwards.
pub open spec fn sync_spec(synced: Seq<char>, external: Seq<char>) -> (bool, Seq<char>) {
    (external != synced, external)
}

/// Finishing an edit to `edited` while the external value is `external`:
/// whether the edit is written back, and the synced text afterwards.
pub open spec fn push_spec(synced: Seq<char>, edited: Seq<char>, external: Seq<char>) -> (bool, Seq<char>) {
    (edited != external, edited)
}

/// The last text the editor and the external value agreed on.
pub struct ValueSync {
    last_synced: String,
}

impl View for ValueSync {
    type V = Seq<char>;

    closed spec fn view(&self) -> Seq<char> {
        self.last_synced@
    }
}

impl ValueSync {
    /// In step with the initial external value.
    pub fn new(initial: &str) -> (r: Self)
        ensures
            r@ == initial@,
    {
        ValueSync { last_synced: String::from_str(initial) }
    }

    /// The external value read before drawing: `true` when it changed since
    /// the last sync, and the editor is to be reloaded with it. It is the
    /// synced text afterwards.
    pub fn sync_external(&mut self, external: &str) -> (reload: bool)
        ensures
            (reload, final(self)@) == sync_spec(old(self)@, external@),
    {
        let ext = String::from_str(external);
        if ext == self.last_synced {
            false
        } else {
            self.last_synced = ext;
            true
        }
    }

    /// After an edit: the edited text becomes the synced text; `true` when it
    /// differs from the external value, which is then to be set to it.
    pub fn push_edit(&mut self, edited: &str, external: &str) -> (write_back: bool)
        ensures
            (write_back, final(self)@) == push_spec(old(self)@, edited@, external@),
    {
        let text = String::from_str(edited);
        let ext = String::from_str(external);
        let differs = !(text == ext);
        self.last_synced = text;
        differs
    }
}

/// Law: an edit that was written back does not come round as an external
/// change: reading the external value, now the edited text, reloads nothing.
pub proof fn law_written_back_edit_no_reload(synced: Seq<char>, edited: Seq<char>, external: Seq<char>)
    ensures
        !sync_spec(push_spec(synced, edited, external).1, edited).0,
{
}

/// Law: an external change reloads the editor once; reading the same value
/// again reloads nothing.
pub proof fn law_reload_once(synced: Seq<char>, external: Seq<char>)
    ensures
        !sync_spec(sync_spec(synced, external).1, external).0,
{
}

} // verus!
