//! Decoder for a length-prefixed recursive binary encoding of byte strings
//! and nested lists, together with a renderer that prints the decoded tree
//! as nested hexadecimal literals.

pub mod item;
pub mod parse;
pub mod render;

pub use item::Parsed;
pub use item::ParsedView;
pub use item::RlpError;
