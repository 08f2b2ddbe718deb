//! Parser and renderer for legacy escape-coded status text.
//!
//! A status line embeds inline colour and style directives as two-character
//! sequences: a reserved marker character followed by a one-character code.
//! The parser turns such a flat string into a tree of styled sections; the
//! renderer walks that tree once and emits nested HTML spans with inline
//! style declarations.

pub mod codes;
pub mod tree;
pub mod parser;
pub mod render;
pub mod laws;

pub use codes::FormattingCode;
pub use tree::{Section, SectionContents};
pub use parser::{MotdParser, MotdError};
pub use render::Motd;
