//! Shared editing core for single-line and multi-line text fields.
pub mod undo;
pub mod text_bytes;
pub mod grapheme;
pub mod ops;
pub mod clipboard;
pub mod blink;
pub mod word;
pub mod typing;
pub mod keys;
pub mod pointer;
pub mod shortcuts;
