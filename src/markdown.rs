//! Markdown text to events, through pulldown-cmark, and events to a document.
use vstd::prelude::*;
use pulldown_cmark::{
    Alignment, BlockQuoteKind, CodeBlockKind, CowStr, Event, HeadingLevel, LinkType,
    MetadataBlockKind, Options, Parser, Tag, TagEnd,
};
use crate::builder::{build_doc, doc_of_events};
use crate::events::{opens_section, MdEvent};
use crate::model::{Doc, SectionKind};
use crate::quotes::QuoteKind;

verus! {

/// pulldown-cmark's string type, kept opaque: its text is read through `cow_text`.
#[verifier::external_type_specification]
#[verifier::external_body]
pub struct ExCowStr<'a>(CowStr<'a>);

/// pulldown-cmark's `Event`, declared so that `md_event` can match on its variants.
#[verifier::external_type_specification]
pub struct ExEvent<'a>(Event<'a>);

/// pulldown-cmark's `Tag`: what a `Start` event opens.
#[verifier::external_type_specification]
pub struct ExTag<'a>(Tag<'a>);

/// pulldown-cmark's `TagEnd`: what an `End` event closes.
#[verifier::external_type_specification]
pub struct ExTagEnd(TagEnd);

/// pulldown-cmark's `HeadingLevel`, `H1` to `H6`.
#[verifier::external_type_specification]
pub struct ExHeadingLevel(HeadingLevel);

/// pulldown-cmark's `CodeBlockKind`: indented, or fenced with a language.
#[verifier::external_type_specification]
pub struct ExCodeBlockKind<'a>(CodeBlockKind<'a>);

/// pulldown-cmark's `BlockQuoteKind`: the admonition keywords.
#[verifier::external_type_specification]
pub struct ExBlockQuoteKind(BlockQuoteKind);

/// pulldown-cmark's `LinkType`, of which only `Email` matters here.
#[verifier::external_type_specification]
pub struct ExLinkType(LinkType);

/// pulldown-cmark's `MetadataBlockKind`, carried by metadata events.
#[verifier::external_type_specification]
pub struct ExMetadataBlockKind(MetadataBlockKind);

/// pulldown-cmark's `Alignment`, carried by table events.
#[verifier::external_type_specification]
pub struct ExAlignment(Alignment);

/// Relies on `CowStr`'s `Display` (through `ToString`), which writes the
/// string that the `CowStr` holds.
#[verifier::external_body]
fn cow_text(c: &CowStr) -> String {
    c.to_string()
}

/// The number of a heading level.
pub open spec fn heading_number(l: HeadingLevel) -> u8 {
    match l {
        HeadingLevel::H1 => 1,
        HeadingLevel::H2 => 2,
        HeadingLevel::H3 => 3,
        HeadingLevel::H4 => 4,
        HeadingLevel::H5 => 5,
        HeadingLevel::H6 => 6,
    }
}

/// The library's kind for an admonition keyword.
pub open spec fn quote_kind_of(k: BlockQuoteKind) -> QuoteKind {
    match k {
        BlockQuoteKind::Note => QuoteKind::Note,
        BlockQuoteKind::Tip => QuoteKind::Tip,
        BlockQuoteKind::Important => QuoteKind::Important,
        BlockQuoteKind::Warning => QuoteKind::Warning,
        BlockQuoteKind::Caution => QuoteKind::Caution,
    }
}

pub open spec fn is_email(t: LinkType) -> bool {
    match t {
        LinkType::Email => true,
        _ => false,
    }
}

/// `r` is the library's event for the pulldown-cmark tag `t` opening: the
/// same kind of event, with the same heading level, list start, quote kind,
/// fenced or indented code, and email flag. Text carried by the event is
/// not compared.
pub open spec fn start_converts_to(t: Tag, r: MdEvent) -> bool {
    match t {
        Tag::Paragraph => r is StartParagraph,
        Tag::Heading { level, .. } => r is StartHeading && r->StartHeading_level == heading_number(level),
        Tag::BlockQuote(k) => r is StartBlockQuote && r->StartBlockQuote_0 == match k {
            Some(k) => Some(quote_kind_of(k)),
            None => None,
        },
        Tag::CodeBlock(k) => r is StartCodeBlock && (r->StartCodeBlock_0 is Some <==> match k {
            CodeBlockKind::Fenced(_) => true,
            CodeBlockKind::Indented => false,
        }),
        Tag::HtmlBlock => r is StartHtmlBlock,
        Tag::List(start) => r == MdEvent::StartList(start),
        Tag::Item => r is StartItem,
        Tag::FootnoteDefinition(_) => r is StartFootnoteDefinition,
        Tag::Table(_) => r is StartTable,
        Tag::TableHead => r is StartTableHead,
        Tag::TableRow => r is StartTableRow,
        Tag::TableCell => r is StartTableCell,
        Tag::Emphasis => r is StartEmphasis,
        Tag::Strong => r is StartStrong,
        Tag::Strikethrough => r is StartStrikethrough,
        Tag::Superscript => r is StartSuperscript,
        Tag::Subscript => r is StartSubscript,
        Tag::Link { link_type, .. } => r is StartLink && r->StartLink_email == is_email(link_type),
        Tag::Image { link_type, .. } => r is StartImage && r->StartImage_email == is_email(link_type),
        Tag::MetadataBlock(_) => r is StartMetadataBlock,
        _ => r is Other,
    }
}

/// `r` is the library's event for the pulldown-cmark tag `t` closing.
pub open spec fn end_converts_to(t: TagEnd, r: MdEvent) -> bool {
    match t {
        TagEnd::Paragraph => r is EndParagraph,
        TagEnd::Heading(_) => r is EndHeading,
        TagEnd::BlockQuote(_) => r is EndBlockQuote,
        TagEnd::CodeBlock => r is EndCodeBlock,
        TagEnd::HtmlBlock => r is EndHtmlBlock,
        TagEnd::List(_) => r is EndList,
        TagEnd::Item => r is EndItem,
        TagEnd::FootnoteDefinition => r is EndFootnoteDefinition,
        TagEnd::Table => r is EndTable,
        TagEnd::TableHead => r is EndTableHead,
        TagEnd::TableRow => r is EndTableRow,
        TagEnd::TableCell => r is EndTableCell,
        TagEnd::Emphasis => r is EndEmphasis,
        TagEnd::Strong => r is EndStrong,
        TagEnd::Strikethrough => r is EndStrikethrough,
        TagEnd::Superscript => r is EndSuperscript,
        TagEnd::Subscript => r is EndSubscript,
        TagEnd::Link => r is EndLink,
        TagEnd::Image => r is EndImage,
        TagEnd::MetadataBlock(_) => r is EndMetadataBlock,
        _ => r is Other,
    }
}

/// `r` is the library's event for the pulldown-cmark event `e`.
pub open spec fn converts_to(e: Event, r: MdEvent) -> bool {
    match e {
        Event::Start(t) => start_converts_to(t, r),
        Event::End(t) => end_converts_to(t, r),
        Event::Text(_) => r is Text,
        Event::Code(_) => r is Code,
        Event::InlineMath(_) => r is InlineMath,
        Event::DisplayMath(_) => r is DisplayMath,
        Event::Html(_) => r is Html,
        Event::InlineHtml(_) => r is InlineHtml,
        Event::FootnoteReference(_) => r is FootnoteReference,
        Event::SoftBreak => r is SoftBreak,
        Event::HardBreak => r is HardBreak,
        Event::Rule => r is Rule,
        Event::TaskListMarker(b) => r == MdEvent::TaskListMarker(b),
    }
}

fn heading_level(l: HeadingLevel) -> (r: u8)
    ensures
        r == heading_number(l),
{
    match l {
        HeadingLevel::H1 => 1,
        HeadingLevel::H2 => 2,
        HeadingLevel::H3 => 3,
        HeadingLevel::H4 => 4,
        HeadingLevel::H5 => 5,
        HeadingLevel::H6 => 6,
    }
}

fn quote_kind(k: BlockQuoteKind) -> (r: QuoteKind)
    ensures
        r == quote_kind_of(k),
{
    match k {
        BlockQuoteKind::Note => QuoteKind::Note,
        BlockQuoteKind::Tip => QuoteKind::Tip,
        BlockQuoteKind::Important => QuoteKind::Important,
        BlockQuoteKind::Warning => QuoteKind::Warning,
        BlockQuoteKind::Caution => QuoteKind::Caution,
    }
}

fn cow_texts(v: Vec<CowStr>) -> (r: Vec<String>)
    ensures
        r@.len() == v@.len(),
{
    let mut v = v;
    let mut r: Vec<String> = Vec::new();
    let ghost n = v@.len();
    let mut i: usize = 0;
    while i < v.len()
        invariant
            v@.len() == n,
            r@.len() == i,
            i <= n,
        decreases n - i,
    {
        r.push(cow_text(&v[i]));
        i = i + 1;
    }
    r
}

fn cow_pairs(v: Vec<(CowStr, Option<CowStr>)>) -> (r: Vec<(String, Option<String>)>)
    ensures
        r@.len() == v@.len(),
{
    let mut r: Vec<(String, Option<String>)> = Vec::new();
    let ghost n = v@.len();
    let mut i: usize = 0;
    while i < v.len()
        invariant
            v@.len() == n,
            r@.len() == i,
            i <= n,
        decreases n - i,
    {
        let k = cow_text(&v[i].0);
        let val = match &v[i].1 {
            Some(c) => Some(cow_text(c)),
            None => None,
        };
        r.push((k, val));
        i = i + 1;
    }
    r
}

/// The event that opens `t`.
fn start_event(t: Tag) -> (r: MdEvent)
    ensures
        start_converts_to(t, r),
        opens_section(r) <==> starts_section(Event::Start(t)),
{
    match t {
        Tag::Paragraph => MdEvent::StartParagraph,
        Tag::Heading { level, id, classes, attrs } => MdEvent::StartHeading {
            level: heading_level(level),
            id: match id {
                Some(c) => Some(cow_text(&c)),
                None => None,
            },
            classes: cow_texts(classes),
            attrs: cow_pairs(attrs),
        },
        Tag::BlockQuote(kind) => MdEvent::StartBlockQuote(
            match kind {
                Some(k) => Some(quote_kind(k)),
                None => None,
            },
        ),
        Tag::CodeBlock(kind) => MdEvent::StartCodeBlock(
            match kind {
                CodeBlockKind::Fenced(l) => Some(cow_text(&l)),
                CodeBlockKind::Indented => None,
            },
        ),
        Tag::HtmlBlock => MdEvent::StartHtmlBlock,
        Tag::List(start) => MdEvent::StartList(start),
        Tag::Item => MdEvent::StartItem,
        Tag::FootnoteDefinition(label) => MdEvent::StartFootnoteDefinition(cow_text(&label)),
        Tag::Table(_) => MdEvent::StartTable,
        Tag::TableHead => MdEvent::StartTableHead,
        Tag::TableRow => MdEvent::StartTableRow,
        Tag::TableCell => MdEvent::StartTableCell,
        Tag::Emphasis => MdEvent::StartEmphasis,
        Tag::Strong => MdEvent::StartStrong,
        Tag::Strikethrough => MdEvent::StartStrikethrough,
        Tag::Superscript => MdEvent::StartSuperscript,
        Tag::Subscript => MdEvent::StartSubscript,
        Tag::Link { link_type, dest_url, title, id } => MdEvent::StartLink {
            url: cow_text(&dest_url),
            title: cow_text(&title),
            id: cow_text(&id),
            email: match link_type {
                LinkType::Email => true,
                _ => false,
            },
        },
        Tag::Image { link_type, dest_url, title, id } => MdEvent::StartImage {
            url: cow_text(&dest_url),
            title: cow_text(&title),
            id: cow_text(&id),
            email: match link_type {
                LinkType::Email => true,
                _ => false,
            },
        },
        Tag::MetadataBlock(_) => MdEvent::StartMetadataBlock,
        _ => MdEvent::Other,
    }
}

/// The event that closes `t`.
fn end_event(t: TagEnd) -> (r: MdEvent)
    ensures
        end_converts_to(t, r),
        !opens_section(r),
{
    match t {
        TagEnd::Paragraph => MdEvent::EndParagraph,
        TagEnd::Heading(_) => MdEvent::EndHeading,
        TagEnd::BlockQuote(_) => MdEvent::EndBlockQuote,
        TagEnd::CodeBlock => MdEvent::EndCodeBlock,
        TagEnd::HtmlBlock => MdEvent::EndHtmlBlock,
        TagEnd::List(_) => MdEvent::EndList,
        TagEnd::Item => MdEvent::EndItem,
        TagEnd::FootnoteDefinition => MdEvent::EndFootnoteDefinition,
        TagEnd::Table => MdEvent::EndTable,
        TagEnd::TableHead => MdEvent::EndTableHead,
        TagEnd::TableRow => MdEvent::EndTableRow,
        TagEnd::TableCell => MdEvent::EndTableCell,
        TagEnd::Emphasis => MdEvent::EndEmphasis,
        TagEnd::Strong => MdEvent::EndStrong,
        TagEnd::Strikethrough => MdEvent::EndStrikethrough,
        TagEnd::Superscript => MdEvent::EndSuperscript,
        TagEnd::Subscript => MdEvent::EndSubscript,
        TagEnd::Link => MdEvent::EndLink,
        TagEnd::Image => MdEvent::EndImage,
        TagEnd::MetadataBlock(_) => MdEvent::EndMetadataBlock,
        _ => MdEvent::Other,
    }
}

/// The pulldown-cmark event opens a heading, a block quote or a footnote definition.
pub open spec fn starts_section(e: Event) -> bool {
    match e {
        Event::Start(Tag::Heading { .. }) => true,
        Event::Start(Tag::BlockQuote(_)) => true,
        Event::Start(Tag::FootnoteDefinition(_)) => true,
        _ => false,
    }
}

/// The library's event for one pulldown-cmark event. Only the start of a
/// heading, of a block quote or of a footnote definition opens a section.
pub fn md_event(e: Event) -> (r: MdEvent)
    ensures
        converts_to(e, r),
        opens_section(r) <==> starts_section(e),
{
    match e {
        Event::Start(t) => start_event(t),
        Event::End(t) => end_event(t),
        Event::Text(s) => MdEvent::Text(cow_text(&s)),
        Event::Code(s) => MdEvent::Code(cow_text(&s)),
        Event::InlineMath(s) => MdEvent::InlineMath(cow_text(&s)),
        Event::DisplayMath(s) => MdEvent::DisplayMath(cow_text(&s)),
        Event::Html(s) => MdEvent::Html(cow_text(&s)),
        Event::InlineHtml(s) => MdEvent::InlineHtml(cow_text(&s)),
        Event::FootnoteReference(s) => MdEvent::FootnoteReference(cow_text(&s)),
        Event::SoftBreak => MdEvent::SoftBreak,
        Event::HardBreak => MdEvent::HardBreak,
        Event::Rule => MdEvent::Rule,
        Event::TaskListMarker(b) => MdEvent::TaskListMarker(b),
    }
}

/// The events that pulldown-cmark reads from a text, with every extension on.
pub uninterp spec fn markdown_events(s: Seq<char>) -> Seq<MdEvent>;

/// Relies on `pulldown_cmark::Parser::new_ext` with `Options::all()`: the
/// events it yields depend on the text alone.
#[verifier::external_body]
fn parse_events(input: &str) -> (r: Vec<MdEvent>)
    ensures
        r@ == markdown_events(input@),
{
    Parser::new_ext(input, Options::all()).map(|e| md_event(e)).collect()
}

/// Converts a markdown text into a document: the one that the pass builds
/// from the events pulldown-cmark reads from the text.
pub fn parse_md_to_incodoc(input: &str) -> (r: Doc)
    ensures
        doc_of_events(markdown_events(input@), r),
        (forall|i: int|
            0 <= i < markdown_events(input@).len() ==> !(#[trigger] markdown_events(input@)[i] is StartHeading))
            ==> forall|i: int|
            0 <= i < r.items@.len() && #[trigger] r.items@[i] is Section ==> r.items@[i]->Section_0.kind
                != SectionKind::Real,
        r.tags.wf(),
        r.props.wf(),
        (forall|i: int|
            0 <= i < markdown_events(input@).len() ==> !opens_section(
                #[trigger] markdown_events(input@)[i],
            )) ==> forall|i: int| 0 <= i < r.items@.len() ==> !(#[trigger] r.items@[i] is Section),
{
    build_doc(parse_events(input))
}

} // verus!
