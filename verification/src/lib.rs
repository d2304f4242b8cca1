//! A verified rendering core for a live résumé editor.
//!
//! Raw source text is split into an optional metadata header and a Markdown
//! body (`document`), the header is parsed into a key/value mapping
//! (`metadata`), the body is parsed into a render tree that recognises
//! registered custom component tags (`markdown`), and the pieces are combined
//! with a font selection into one displayed structure (`view`).

pub mod document;
pub mod markdown;
pub mod metadata;
pub mod text;
pub mod view;
