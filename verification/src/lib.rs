//! Markdown-to-markup renderer for a note-taking library.
//!
//! Beyond standard markdown rendering (delegated to `pulldown_cmark`), the
//! renderer recognizes an inline directive `i::[kind(value)]` inside paragraph
//! text and replaces the paragraph's content with a copyable-credential
//! widget.

pub mod directive;
pub mod events;
pub mod migrations;
pub mod text;
pub mod transform;
pub mod widget;
