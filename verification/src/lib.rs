//! Verified core of a terminal chat recorder: the command line editor, the
//! streamed-answer collector, the clipboard selection and the request pieces.

pub mod chat_ai;
pub mod clipboard_utils;
pub mod process_commands;
pub mod santize;
pub mod text;
pub mod types;
pub mod ui;
