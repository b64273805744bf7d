//! Verified core of the goose terminal user interface: cell-based chat history,
//! unified-diff parsing, layout arithmetic, word wrapping, markdown structure and
//! the key-handling state machine of the TUI.
use vstd::prelude::*;

pub mod app;
pub mod cache_key;
pub mod content_layout;
pub mod content_render;
pub mod gemini_cli;
pub mod history;
pub mod overlay;
pub mod sink;
pub mod state;
pub mod stream_markdown;
pub mod text;

verus! {

} // verus!
