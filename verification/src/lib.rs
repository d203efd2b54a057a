//! A modal editor for tagging spans of text with labels: the wrapped
//! document and its tags, the cursor and the modes, and the layout of what
//! is drawn. Reading keys and files and drawing on a terminal are left to the
//! program that uses the library.

pub mod app;
pub mod chain;
pub mod color;
pub mod command;
pub mod common;
pub mod keys;
pub mod modal;
pub mod name;
pub mod normal;
pub mod render;
pub mod session;
pub mod span;
pub mod text;
pub mod valid;
pub mod visual;
pub mod wrap;
