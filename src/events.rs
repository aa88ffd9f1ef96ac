//! The markdown events that the document builder consumes, in source order.
use vstd::prelude::*;
use crate::quotes::QuoteKind;

verus! {

/// One markdown event. `Start...` and `End...` events come in well-nested
/// pairs; the others stand alone.
#[derive(Debug, PartialEq, Eq)]
pub enum MdEvent {
    /// A run of text.
    Text(String),
    SoftBreak,
    HardBreak,
    /// A horizontal rule.
    Rule,
    StartParagraph,
    EndParagraph,
    /// A heading of `level` (1 for the top) with its id, classes and attributes.
    StartHeading { level: u8, id: Option<String>, classes: Vec<String>, attrs: Vec<(String, Option<String>)> },
    EndHeading,
    /// A code block; `Some` language for a fenced block.
    StartCodeBlock(Option<String>),
    EndCodeBlock,
    /// Inline code.
    Code(String),
    /// A list; `Some` first number for an ordered list.
    StartList(Option<u64>),
    EndList,
    StartItem,
    EndItem,
    /// A task marker; `true` when it is ticked.
    TaskListMarker(bool),
    StartEmphasis,
    EndEmphasis,
    StartStrong,
    EndStrong,
    StartStrikethrough,
    EndStrikethrough,
    StartSuperscript,
    EndSuperscript,
    StartSubscript,
    EndSubscript,
    /// A link to `url`, with its title, its reference id, and whether it is an email address.
    StartLink { url: String, title: String, id: String, email: bool },
    EndLink,
    /// An image, with the same fields as a link.
    StartImage { url: String, title: String, id: String, email: bool },
    EndImage,
    StartHtmlBlock,
    /// A line of an html block.
    Html(String),
    EndHtmlBlock,
    /// An inline html tag.
    InlineHtml(String),
    InlineMath(String),
    DisplayMath(String),
    /// A reference to the footnote with this label.
    FootnoteReference(String),
    /// The definition of the footnote with this label.
    StartFootnoteDefinition(String),
    EndFootnoteDefinition,
    StartMetadataBlock,
    EndMetadataBlock,
    /// A block quote; `Some` kind for a typed one.
    StartBlockQuote(Option<QuoteKind>),
    EndBlockQuote,
    StartTable,
    EndTable,
    StartTableHead,
    EndTableHead,
    StartTableRow,
    EndTableRow,
    StartTableCell,
    EndTableCell,
    /// Any other event; it has no effect.
    Other,
}

/// The event opens a section of some kind: a heading, a block quote or a
/// footnote definition.
pub open spec fn opens_section(e: MdEvent) -> bool {
    e is StartHeading || e is StartBlockQuote || e is StartFootnoteDefinition
}

} // verus!
