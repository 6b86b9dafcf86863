//! The core of a terminal editor for a remote JSON store: the document tree
//! and its views, the navigation stacks, the canonical pointer encoding, and
//! the edit-session state machine that turns keystrokes into exact remote
//! mutations. Terminal drawing and the transport live outside; they hand this
//! crate plain values and perform the one mutation a committed session names.

pub mod app;
pub mod config;
pub mod digits;
pub mod errors;
pub mod json;
pub mod path;
pub mod text;
