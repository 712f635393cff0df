//! Semantic document markup.
//!
//! Tools to build documentation out of styled text fragments and nested
//! logical blocks (sections, paragraphs, lists), and render the result
//! either as HTML-flavored markdown or as a ROFF manpage.

pub mod escape;
pub mod man;
pub mod mdoc;
pub mod monoid;
pub mod roff;
pub mod semantic;
pub mod shared;

pub use crate::semantic::{
    Doc, LogicalBlock, Sem, StyledChar, Write, important, literal, metavar, mono, text,
};
pub use crate::shared::{Section, Style};
