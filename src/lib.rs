//! Builds a typed document tree out of markdown.
//!
//! - `model`: the document tree, with tag sets and property maps;
//! - `events`: the markdown events that the builder consumes;
//! - `emphasis`: buffered inline text to text, tagged text or emphasis nodes;
//! - `sections`: nesting (heading, content) pairs into a section tree;
//! - `quotes`: block quotes and footnote definitions as nested sections;
//! - `meta`: the metadata block's command language;
//! - `builder`: the single pass over the events;
//! - `markdown`: markdown text to events through pulldown-cmark, and to a document.
use vstd::prelude::*;

pub mod model;
pub mod emphasis;
pub mod sections;
pub mod meta;
pub mod quotes;
pub mod events;
pub mod builder;
pub mod markdown;

verus! {
} // verus!
