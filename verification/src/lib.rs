use vstd::prelude::*;

pub mod accessibility;
pub mod clipboard;
pub mod color;
pub mod dispatch;
pub mod event;
pub mod focus;
pub mod foreach;
pub mod frame_subs;
pub mod layout;
pub mod rich_text;
pub mod selection;
pub mod signal_cache;
pub mod text_fmt;
pub mod text_input;
pub mod text_field;
pub mod text_lines;
pub mod text_util;
pub mod theme;
pub mod value_sync;

verus! {
}
