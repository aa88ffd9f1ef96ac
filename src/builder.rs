//! The single pass over the events: an explicit builder owns every counter,
//! stack and node under construction, and takes one event at a time.
use vstd::prelude::*;
use crate::emphasis::{finish_text_piece, is_link_piece, is_par_piece};
use crate::events::{opens_section, MdEvent};
use crate::meta::{apply_metadata, line_words, meta_nav, meta_run, meta_start, nav_matches};
use crate::model::{
    CodeBlock, CodeModeHint, Doc, EmStrength, EmType, Emphasis, Heading, Link, LinkItem,
    List, ListType, Paragraph, ParagraphItem, Props, Section, SectionItem, SectionKind, Table,
    TableRow, Tags, TextWithMeta,
};
use crate::quotes::{has_content, is_pruned, prune, quote_kind_name, quote_kind_word, QuoteKind};
use crate::sections::{is_doc_item_of, is_tree_of, lemma_single_pre_section, populate_doc, pre_sections_to_sections, PreSection};

verus! {

/// The state of a conversion between two events.
pub struct DocBuilder {
    /// Text goes into `string` rather than into the paragraph (a heading, a
    /// code block or a metadata block is open).
    pub scap: bool,
    /// A link or an image is open: text goes into its items.
    pub lcap: bool,
    /// The number of list items that are open.
    pub items_open: usize,
    /// The number of events taken so far.
    pub seen: usize,
    pub em_lvl: i128,
    pub sc_lvl: i128,
    pub html_indent: i128,
    pub string: String,
    pub code_lang: String,
    pub par_stack: Vec<Paragraph>,
    pub list_stack: Vec<List>,
    pub table_stack: Vec<Table>,
    pub row_stack: Vec<TableRow>,
    pub section_items: Vec<SectionItem>,
    pub pre_sections: Vec<PreSection>,
    /// The block quotes and footnote definitions that are open, innermost last.
    pub quotes: Vec<Section>,
    pub par: Paragraph,
    pub head: Heading,
    pub list: List,
    pub table: Table,
    pub row: TableRow,
    pub link: Link,
    pub doc: Doc,
}

/// The tags and properties that the builder adds to are well formed.
pub open spec fn bags_wf(tags: Tags, props: Props) -> bool {
    tags.wf() && props.wf()
}

impl DocBuilder {
    /// The tags and properties that the builder adds to are well formed.
    pub open spec fn bags_ok(&self) -> bool {
        &&& bags_wf(self.par.tags, self.par.props)
        &&& bags_wf(self.head.tags, self.head.props)
        &&& bags_wf(self.link.tags, self.link.props)
        &&& bags_wf(self.doc.tags, self.doc.props)
        &&& forall|i: int|
            0 <= i < self.par_stack@.len() ==> bags_wf(#[trigger] self.par_stack@[i].tags, self.par_stack@[i].props)
    }

    /// The tags and properties are well formed and the counters within
    /// what the events taken so far can reach.
    pub open spec fn wf(&self) -> bool {
        self.bags_ok() && self.bounded(self.seen as int)
    }

    /// The counters are within what `n` events can reach.
    pub open spec fn bounded(&self, n: int) -> bool {
        &&& -2 * n - 1 <= self.em_lvl <= 2 * n + 1
        &&& -1 <= self.sc_lvl <= 1
        &&& -n <= self.html_indent <= n
        &&& self.items_open <= n
    }

    /// No section has been opened: no heading was met, and no block quote
    /// or footnote definition.
    pub open spec fn flat(&self) -> bool {
        &&& self.quotes@.len() == 0
        &&& self.pre_sections@.len() == 0
        &&& forall|i: int| 0 <= i < self.section_items@.len() ==> #[trigger] self.section_items@[i] is Paragraph
        &&& forall|i: int| 0 <= i < self.doc.items@.len() ==> !(#[trigger] self.doc.items@[i] is Section)
    }

    /// The number of events taken so far.
    pub open spec fn steps(&self) -> int {
        self.seen as int
    }

    /// The builder before the first event: nothing open, nothing built.
    pub open spec fn is_start(b: DocBuilder) -> bool {
        &&& !b.scap && !b.lcap
        &&& b.items_open == 0 && b.seen == 0 && b.em_lvl == 0 && b.sc_lvl == 0 && b.html_indent == 0
        &&& b.string@.len() == 0 && b.code_lang@.len() == 0
        &&& b.par_stack@.len() == 0 && b.list_stack@.len() == 0
        &&& b.table_stack@.len() == 0 && b.row_stack@.len() == 0
        &&& b.section_items@.len() == 0 && b.pre_sections@.len() == 0 && b.quotes@.len() == 0
        &&& fresh_par(b.par)
        &&& b.head.level == 0 && b.head.items@.len() == 0
        &&& b.head.tags.items@.len() == 0 && b.head.props.items@.len() == 0
        &&& fresh_list(b.list, ListType::Identical)
        &&& fresh_table(b.table)
        &&& fresh_row(b.row, false)
        &&& fresh_link(b.link)
        &&& b.doc.items@.len() == 0 && b.doc.tags.items@.len() == 0 && b.doc.props.items@.len() == 0
    }

    /// A builder before the first event.
    pub fn new() -> (r: DocBuilder)
        ensures
            Self::is_start(r),
            r.wf(),
            r.steps() == 0,
            r.flat(),
    {
        DocBuilder {
            scap: false,
            lcap: false,
            items_open: 0,
            seen: 0,
            em_lvl: 0,
            sc_lvl: 0,
            html_indent: 0,
            string: String::new(),
            code_lang: String::new(),
            par_stack: Vec::new(),
            list_stack: Vec::new(),
            table_stack: Vec::new(),
            row_stack: Vec::new(),
            section_items: Vec::new(),
            pre_sections: Vec::new(),
            quotes: Vec::new(),
            par: Paragraph::new(),
            head: Heading::new(),
            list: List::new(),
            table: Table::new(),
            row: TableRow::new(false),
            link: Link::new(),
            doc: Doc::new(),
        }
    }
}

/// The event opens or closes an emphasis, strong, struck-through,
/// superscript or subscript span.
pub open spec fn is_span_event(e: MdEvent) -> bool {
    ||| e is StartEmphasis
    ||| e is EndEmphasis
    ||| e is StartStrong
    ||| e is EndStrong
    ||| e is StartStrikethrough
    ||| e is EndStrikethrough
    ||| e is StartSuperscript
    ||| e is EndSuperscript
    ||| e is StartSubscript
    ||| e is EndSubscript
}

/// The emphasis level after a span event.
pub open spec fn em_after(em: i128, e: MdEvent) -> int {
    match e {
        MdEvent::StartEmphasis => em + 1,
        MdEvent::EndEmphasis => em - 1,
        MdEvent::StartStrong => em + 2,
        MdEvent::EndStrong => em - 2,
        MdEvent::StartStrikethrough => -1,
        MdEvent::EndStrikethrough => em + 1,
        _ => em as int,
    }
}

/// The script level after a span event.
pub open spec fn sc_after(sc: i128, e: MdEvent) -> int {
    match e {
        MdEvent::StartSuperscript => 1,
        MdEvent::StartSubscript => -1,
        MdEvent::EndSuperscript => 0,
        MdEvent::EndSubscript => 0,
        _ => sc as int,
    }
}

/// A link's properties with its reference id and title, each when given.
pub open spec fn link_props(p: Map<Seq<char>, Seq<char>>, title: Seq<char>, id: Seq<char>) -> Map<
    Seq<char>,
    Seq<char>,
> {
    let with_id = if id.len() > 0 {
        p.insert("link-ref"@, id)
    } else {
        p
    };
    if title.len() > 0 {
        with_id.insert("title"@, title)
    } else {
        with_id
    }
}

/// The event is one that `step_text` takes.
pub open spec fn is_text_event(e: MdEvent) -> bool {
    e is Text || e is SoftBreak || e is HardBreak || e is Rule
}


/// The event is one that `step_list` takes.
pub open spec fn is_list_event(e: MdEvent) -> bool {
    e is StartList || e is StartItem || e is TaskListMarker || e is EndItem || e is EndList
}

/// The event is one that `step_link` takes.
pub open spec fn is_link_event(e: MdEvent) -> bool {
    e is StartLink || e is StartImage || e is EndLink || e is EndImage
}

/// The event is one that `step_inline` takes.
pub open spec fn is_inline_event(e: MdEvent) -> bool {
    e is StartCodeBlock || e is EndCodeBlock || e is Code || e is StartHtmlBlock || e is Html || e is EndHtmlBlock || e is InlineHtml || e is InlineMath || e is DisplayMath || e is FootnoteReference
}

/// The event is one that `step_table` takes.
pub open spec fn is_table_event(e: MdEvent) -> bool {
    e is StartTable || e is StartTableHead || e is StartTableRow || e is EndTableHead || e is EndTableRow || e is StartTableCell || e is EndTableCell || e is EndTable
}

/// The event is one that `step_block` takes.
pub open spec fn is_block_event(e: MdEvent) -> bool {
    e is StartParagraph || e is EndParagraph || e is StartHeading || e is EndHeading || e is StartFootnoteDefinition || e is StartBlockQuote || e is EndFootnoteDefinition || e is EndBlockQuote || e is StartMetadataBlock || e is EndMetadataBlock || e is Other
}

/// The sections in `a` are those in `b`, up to their items.
pub open spec fn same_heads(a: Seq<Section>, b: Seq<Section>) -> bool {
    &&& a.len() == b.len()
    &&& forall|i: int|
        0 <= i < a.len() ==> {
            &&& (#[trigger] a[i]).kind == b[i].kind
            &&& a[i].heading == b[i].heading
            &&& a[i].tags == b[i].tags
            &&& a[i].props == b[i].props
        }
}

/// The type that a list starts with: numbered when it has a first number.
pub open spec fn list_type_start(start: Option<u64>) -> ListType {
    if start is Some {
        ListType::Distinct
    } else {
        ListType::Identical
    }
}

/// What an event among a list's items does to the list's type: a task
/// marker makes it a checked list.
pub open spec fn list_type_step(t: ListType, e: MdEvent) -> ListType {
    if e is TaskListMarker {
        ListType::Checked
    } else {
        t
    }
}

/// The list's type after the events `es`.
pub open spec fn list_type_run(t: ListType, es: Seq<MdEvent>) -> ListType
    decreases es.len(),
{
    if es.len() == 0 {
        t
    } else {
        list_type_step(list_type_run(t, es.drop_last()), es.last())
    }
}

/// A list is checked exactly when a task marker came among its items, and
/// the order of the events does not matter: the same events in another
/// order give the same type.
pub proof fn lemma_list_checked_iff_marker(start: Option<u64>, es: Seq<MdEvent>, others: Seq<MdEvent>)
    requires
        others.to_multiset() == es.to_multiset(),
    ensures
        (list_type_run(list_type_start(start), es) == ListType::Checked) <==> (exists|i: int|
            0 <= i < es.len() && #[trigger] es[i] is TaskListMarker),
        list_type_run(list_type_start(start), es) == list_type_run(list_type_start(start), others),
{
    lemma_list_type_run(list_type_start(start), es);
    lemma_list_type_run(list_type_start(start), others);
    if exists|i: int| 0 <= i < es.len() && #[trigger] es[i] is TaskListMarker {
        let i = choose|i: int| 0 <= i < es.len() && #[trigger] es[i] is TaskListMarker;
        vstd::seq_lib::to_multiset_contains(es, es[i]);
        vstd::seq_lib::to_multiset_contains(others, es[i]);
        assert(others.contains(es[i]));
    }
    if exists|i: int| 0 <= i < others.len() && #[trigger] others[i] is TaskListMarker {
        let i = choose|i: int| 0 <= i < others.len() && #[trigger] others[i] is TaskListMarker;
        vstd::seq_lib::to_multiset_contains(others, others[i]);
        vstd::seq_lib::to_multiset_contains(es, others[i]);
        assert(es.contains(others[i]));
    }
}

/// The type after `es` is checked when a marker came, else the type it started with.
pub proof fn lemma_list_type_run(t: ListType, es: Seq<MdEvent>)
    ensures
        list_type_run(t, es) == (if exists|i: int| 0 <= i < es.len() && #[trigger] es[i] is TaskListMarker {
            ListType::Checked
        } else {
            t
        }),
    decreases es.len(),
{
    if es.len() > 0 {
        lemma_list_type_run(t, es.drop_last());
        if exists|i: int| 0 <= i < es.len() - 1 && #[trigger] es.drop_last()[i] is TaskListMarker {
            let i = choose|i: int| 0 <= i < es.len() - 1 && #[trigger] es.drop_last()[i] is TaskListMarker;
            assert(es[i] is TaskListMarker);
        }
        if exists|i: int| 0 <= i < es.len() && #[trigger] es[i] is TaskListMarker {
            let i = choose|i: int| 0 <= i < es.len() && #[trigger] es[i] is TaskListMarker;
            if i < es.len() - 1 {
                assert(es.drop_last()[i] is TaskListMarker);
            }
        }
    }
}

/// Two nested typed quotes of different kinds carry different
/// `blockquote-type` values, and the inner one's level is one more than
/// the outer one's.
pub proof fn lemma_nested_typed_quotes(k1: QuoteKind, k2: QuoteKind, depth: int)
    requires
        k1 != k2,
        0 <= depth < 254,
    ensures
        quote_kind_word(k1) != quote_kind_word(k2),
        micro_level(depth + 1) == micro_level(depth) + 1,
{
    reveal_strlit("Note");
    reveal_strlit("Tip");
    reveal_strlit("Important");
    reveal_strlit("Warning");
    reveal_strlit("Caution");
    assert(quote_kind_word(k1).len() != quote_kind_word(k2).len() || quote_kind_word(k1)[0]
        != quote_kind_word(k2)[0]);
}

/// Empties `s` and returns what it held.
fn take_string(s: &mut String) -> (r: String)
    ensures
        r == *old(s),
        final(s)@.len() == 0,
{
    let mut r = String::new();
    std::mem::swap(&mut r, s);
    r
}

/// A paragraph with no items, tags or properties.
pub open spec fn fresh_par(p: Paragraph) -> bool {
    p.items@.len() == 0 && p.tags.items@.len() == 0 && p.props.items@.len() == 0
}

/// A list of type `t` with no items, tags or properties.
pub open spec fn fresh_list(l: List, t: ListType) -> bool {
    l.ltype == t && l.items@.len() == 0 && l.tags.items@.len() == 0 && l.props.items@.len() == 0
}

/// A table with no rows, tags or properties.
pub open spec fn fresh_table(t: Table) -> bool {
    t.rows@.len() == 0 && t.tags.items@.len() == 0 && t.props.items@.len() == 0
}

/// A row with no cells, tags or properties.
pub open spec fn fresh_row(r: TableRow, is_header: bool) -> bool {
    r.is_header == is_header && r.items@.len() == 0 && r.tags.items@.len() == 0 && r.props.items@.len() == 0
}

/// A link with no text, target, tags or properties.
pub open spec fn fresh_link(l: Link) -> bool {
    l.items@.len() == 0 && l.url@.len() == 0 && l.tags.items@.len() == 0 && l.props.items@.len() == 0
}

/// The tags that a heading's valueless attributes and classes give, added
/// to `t` in order.
pub open spec fn heading_tags(t: Set<Seq<char>>, classes: Seq<String>, attrs: Seq<(String, Option<String>)>) -> Set<Seq<char>>
    decreases classes.len() + attrs.len(),
{
    if classes.len() > 0 {
        heading_tags(t, classes.drop_last(), attrs).insert(classes.last()@)
    } else if attrs.len() > 0 {
        let rest = heading_tags(t, classes, attrs.drop_last());
        match attrs.last().1 {
            None => rest.insert(attrs.last().0@),
            Some(_) => rest,
        }
    } else {
        t
    }
}

/// The properties that a heading's id and valued attributes give, set on
/// `p` in order.
pub open spec fn heading_props(p: Map<Seq<char>, Seq<char>>, id: Option<String>, attrs: Seq<(String, Option<String>)>) -> Map<Seq<char>, Seq<char>>
    decreases attrs.len(),
{
    if attrs.len() > 0 {
        let rest = heading_props(p, id, attrs.drop_last());
        match attrs.last().1 {
            Some(v) => rest.insert(attrs.last().0@, v@),
            None => rest,
        }
    } else {
        match id {
            Some(id) => p.insert("id"@, id@),
            None => p,
        }
    }
}

/// Replaces `p` by an empty paragraph and returns what it held.
fn take_par(p: &mut Paragraph) -> (r: Paragraph)
    ensures
        r == *old(p),
        final(p).items@.len() == 0,
        bags_wf(final(p).tags, final(p).props),
        fresh_par(*final(p)),
{
    let mut r = Paragraph::new();
    std::mem::swap(&mut r, p);
    r
}

/// Adds a block to the innermost open quote, or to the content around when
/// none is open.
fn push_block(quotes: &mut Vec<Section>, items: &mut Vec<SectionItem>, item: SectionItem)
    ensures
        old(quotes)@.len() == 0 ==> *final(quotes) == *old(quotes) && final(items)@ == old(items)@.push(item),
        old(quotes)@.len() > 0 ==> {
            &&& *final(items) == *old(items)
            &&& final(quotes)@.len() == old(quotes)@.len()
            &&& final(quotes)@.drop_last() == old(quotes)@.drop_last()
            &&& final(quotes)@.last().items@ == old(quotes)@.last().items@.push(item)
            &&& final(quotes)@.last().heading == old(quotes)@.last().heading
            &&& final(quotes)@.last().kind == old(quotes)@.last().kind
            &&& final(quotes)@.last().tags == old(quotes)@.last().tags
            &&& final(quotes)@.last().props == old(quotes)@.last().props
        },
        same_heads(final(quotes)@, old(quotes)@),
{
    if quotes.len() == 0 {
        items.push(item);
    } else {
        let mut s = quotes.pop().unwrap();
        s.items.push(item);
        quotes.push(s);
        assert(quotes@.drop_last() =~= old(quotes)@.drop_last());
    }
}

/// The block that flushing paragraph `p` adds: `p` itself when it has items.
pub open spec fn flushed_items(p: Paragraph) -> Seq<SectionItem> {
    if p.items@.len() > 0 {
        seq![SectionItem::Paragraph(p)]
    } else {
        Seq::empty()
    }
}

/// Moves the paragraph under construction, if it has items, into the
/// innermost open quote or the content around.
fn flush_par(par: &mut Paragraph, quotes: &mut Vec<Section>, items: &mut Vec<SectionItem>)
    ensures
        old(par).items@.len() == 0 ==> *final(par) == *old(par) && *final(quotes) == *old(quotes)
            && *final(items) == *old(items),
        old(par).items@.len() > 0 ==> {
            &&& final(par).items@.len() == 0
            &&& bags_wf(final(par).tags, final(par).props)
            &&& old(quotes)@.len() == 0 ==> *final(quotes) == *old(quotes) && final(items)@
                == old(items)@.push(SectionItem::Paragraph(*old(par)))
            &&& old(quotes)@.len() > 0 ==> *final(items) == *old(items) && final(quotes)@.len()
                == old(quotes)@.len()
        },
        same_heads(final(quotes)@, old(quotes)@),
        old(quotes)@.len() > 0 ==> {
            &&& final(quotes)@.drop_last() == old(quotes)@.drop_last()
            &&& final(quotes)@.last().items@ == old(quotes)@.last().items@ + flushed_items(*old(par))
        },
        old(quotes)@.len() == 0 ==> final(items)@ == old(items)@ + flushed_items(*old(par)),
        final(par).items@.len() == 0,
        old(par).items@.len() > 0 ==> fresh_par(*final(par)),
        old(quotes)@.len() > 0 ==> final(quotes)@.last() == (Section {
            items: final(quotes)@.last().items,
            ..old(quotes)@.last()
        }),
{
    if par.items.len() > 0 {
        let p = take_par(par);
        push_block(quotes, items, SectionItem::Paragraph(p));
        assert(seq![SectionItem::Paragraph(p)] == flushed_items(p));
        assert(old(quotes)@.len() == 0 ==> items@ =~= old(items)@ + flushed_items(*old(par)));
    } else {
        assert(old(quotes)@.len() > 0 ==> quotes@.last().items@ =~= old(quotes)@.last().items@ + flushed_items(*old(par)));
        assert(items@ =~= old(items)@ + flushed_items(*old(par)));
    }
}

/// The inline html tag closes an element: it holds `</`.
pub open spec fn is_closing_tag(s: Seq<char>) -> bool {
    exists|i: int| 0 <= i < s.len() - 1 && #[trigger] s[i] == '<' && s[i + 1] == '/'
}

pub fn closing_tag(s: &str) -> (r: bool)
    ensures
        r == is_closing_tag(s@),
{
    let n = s.unicode_len();
    if n < 2 {
        return false;
    }
    let mut i: usize = 0;
    while i < n - 1
        invariant
            n == s@.len(),
            n >= 2,
            i <= n - 1,
            forall|j: int| 0 <= j < i && j < n - 1 ==> !(#[trigger] s@[j] == '<' && s@[j + 1] == '/'),
        decreases n - i,
    {
        if s.get_char(i) == '<' && s.get_char(i + 1) == '/' {
            return true;
        }
        i = i + 1;
    }
    false
}

/// Puts a heading's id, attributes and classes into its properties and tags.
fn heading_meta(head: &mut Heading, id: Option<String>, classes: Vec<String>, attrs: Vec<(String, Option<String>)>)
    requires
        bags_wf(old(head).tags, old(head).props),
    ensures
        bags_wf(final(head).tags, final(head).props),
        final(head).level == old(head).level,
        final(head).items == old(head).items,
        final(head).tags.view() == heading_tags(old(head).tags.view(), classes@, attrs@),
        final(head).props.view() == heading_props(old(head).props.view(), id, attrs@),
{
    let ghost all_attrs = attrs@;
    let ghost all_classes = classes@;
    let ghost id0 = id;
    match id {
        Some(id) => head.props.insert(String::from_str("id"), id),
        None => {},
    }
    let mut attrs = attrs;
    let n_attrs = attrs.len();
    let mut j: usize = 0;
    assert(all_attrs.take(0) =~= Seq::<(String, Option<String>)>::empty());
    assert(Seq::<String>::empty().len() == 0);
    while attrs.len() > 0
        invariant
            bags_wf(head.tags, head.props),
            head.level == old(head).level,
            head.items == old(head).items,
            j + attrs@.len() == all_attrs.len(),
            all_attrs.len() == n_attrs,
            attrs@ == all_attrs.subrange(j as int, all_attrs.len() as int),
            head.tags.view() == heading_tags(old(head).tags.view(), Seq::<String>::empty(), all_attrs.take(j as int)),
            head.props.view() == heading_props(old(head).props.view(), id0, all_attrs.take(j as int)),
        decreases attrs@.len(),
    {
        let (k, v) = attrs.remove(0);
        assert(all_attrs.take(j + 1).drop_last() =~= all_attrs.take(j as int));
        assert(all_attrs.take(j + 1).last() == (k, v));
        match v {
            Some(v) => head.props.insert(k, v),
            None => head.tags.insert(k),
        }
        j = j + 1;
    }
    assert(all_attrs.take(j as int) =~= all_attrs);
    let mut classes = classes;
    let n_classes = classes.len();
    let mut c: usize = 0;
    assert(all_classes.take(0) =~= Seq::<String>::empty());
    while classes.len() > 0
        invariant
            bags_wf(head.tags, head.props),
            head.level == old(head).level,
            head.items == old(head).items,
            c + classes@.len() == all_classes.len(),
            all_classes.len() == n_classes,
            classes@ == all_classes.subrange(c as int, all_classes.len() as int),
            head.tags.view() == heading_tags(old(head).tags.view(), all_classes.take(c as int), all_attrs),
            head.props.view() == heading_props(old(head).props.view(), id0, all_attrs),
        decreases classes@.len(),
    {
        let w = classes.remove(0);
        assert(all_classes.take(c + 1).drop_last() =~= all_classes.take(c as int));
        assert(all_classes.take(c + 1).last() == w);
        head.tags.insert(w);
        c = c + 1;
    }
    assert(all_classes.take(c as int) =~= all_classes);
}

/// A light de-emphasised marker such as the ones around inline html.
fn marker(text: &str) -> (r: ParagraphItem)
    ensures
        r is Em,
        r->Em_0.text@ == text@,
        r->Em_0.strength == EmStrength::Light,
        r->Em_0.etype == EmType::Deemphasis,
        r->Em_0.tags.items@.len() == 0,
        r->Em_0.props.items@.len() == 0,
{
    ParagraphItem::Em(Emphasis {
        strength: EmStrength::Light,
        etype: EmType::Deemphasis,
        text: String::from_str(text),
        tags: Tags::new(),
        props: Props::new(),
    })
}

/// A tag set with one tag.
fn one_tag(t: &str) -> (r: Tags)
    ensures
        r.wf(),
        r.view() == set![t@],
{
    let mut tags = Tags::new();
    tags.insert(String::from_str(t));
    assert(tags.view() =~= set![t@]);
    tags
}

/// A text with one tag (inline code or inline math).
fn tagged_text(text: String, tag: &str) -> (r: ParagraphItem)
    ensures
        r is MText,
        r->MText_0.text == text,
        r->MText_0.tags.view() == set![tag@],
        r->MText_0.tags.wf(),
        r->MText_0.props.items@.len() == 0,
{
    ParagraphItem::MText(TextWithMeta { text, tags: one_tag(tag), props: Props::new() })
}

/// A code block.
fn code_item(language: String, code: String, mode: CodeModeHint, tags: Tags) -> (r: ParagraphItem)
    ensures
        r is Code,
        r->Code_0.language == language,
        r->Code_0.code == code,
        r->Code_0.mode == mode,
        r->Code_0.tags == tags,
        r->Code_0.props.items@.len() == 0,
{
    ParagraphItem::Code(CodeBlock { language, mode, code, tags, props: Props::new() })
}

/// The level that a quote or footnote opened at `depth` gets.
pub open spec fn micro_level(depth: int) -> u8 {
    if depth < 255 {
        depth as u8
    } else {
        255
    }
}

fn micro_level_of(depth: usize) -> (r: u8)
    ensures
        r == micro_level(depth as int),
{
    if depth < 255 {
        depth as u8
    } else {
        255
    }
}

impl DocBuilder {
    /// Moves the paragraph under construction into the current container.
    fn flush(&mut self)
        requires
            old(self).wf(),
        ensures
            final(self).wf(),
            old(self).flat() ==> final(self).flat(),
            final(self).bounded_like(*old(self)),
            final(self).quotes@.len() == old(self).quotes@.len(),
            same_heads(final(self).quotes@, old(self).quotes@),
            final(self).list == old(self).list,
            old(self).par.items@.len() == 0 ==> *final(self) == *old(self),
            old(self).quotes@.len() > 0 ==> {
                &&& final(self).quotes@.drop_last() == old(self).quotes@.drop_last()
                &&& final(self).quotes@.last().items@ == old(self).quotes@.last().items@ + flushed_items(old(self).par)
                &&& final(self).section_items == old(self).section_items
            },
            old(self).quotes@.len() == 0 ==> final(self).section_items@ == old(self).section_items@ + flushed_items(old(self).par),
            final(self).par.items@.len() == 0,
            Self::par_flush_rel(*old(self), *final(self)),
    {
        let ghost o = *self;
        flush_par(&mut self.par, &mut self.quotes, &mut self.section_items);
        proof {
            if o.par.items@.len() > 0 {
                if o.quotes@.len() > 0 {
                    assert(o.quotes@.last().items@ + flushed_items(o.par) =~= o.quotes@.last().items@.push(
                        SectionItem::Paragraph(o.par),
                    ));
                }
            }
        }
    }

    /// `n` is `o` with the paragraph under construction flushed: when it
    /// has items it becomes the last item of the innermost open quote, or of
    /// the content around when none is open, and an empty paragraph takes its
    /// place; nothing else changes.
    pub open spec fn par_flush_rel(o: DocBuilder, n: DocBuilder) -> bool {
        &&& n == (DocBuilder { par: n.par, quotes: n.quotes, section_items: n.section_items, ..o })
        &&& if o.par.items@.len() == 0 {
            n.par == o.par && n.quotes == o.quotes && n.section_items == o.section_items
        } else {
            &&& fresh_par(n.par)
            &&& o.quotes@.len() == 0 ==> n.quotes == o.quotes && n.section_items@ == o.section_items@.push(
                SectionItem::Paragraph(o.par),
            )
            &&& o.quotes@.len() > 0 ==> {
                &&& n.section_items == o.section_items
                &&& n.quotes@.len() == o.quotes@.len()
                &&& n.quotes@.drop_last() == o.quotes@.drop_last()
                &&& n.quotes@.last() == (Section { items: n.quotes@.last().items, ..o.quotes@.last() })
                &&& n.quotes@.last().items@ == o.quotes@.last().items@.push(SectionItem::Paragraph(o.par))
            }
        }
    }

    /// `n` is `o` with its innermost open quote or footnote closed: it
    /// becomes the last item of the one around it; the outermost one, pruned,
    /// becomes the last item of the content around, unless nothing of it is
    /// left. Nothing else changes.
    pub open spec fn close_rel(o: DocBuilder, n: DocBuilder) -> bool {
        if o.quotes@.len() == 0 {
            n == o
        } else if o.quotes@.len() >= 2 {
            let k = o.quotes@.len() - 2;
            &&& n == (DocBuilder { quotes: n.quotes, ..o })
            &&& n.quotes@.len() == k + 1
            &&& n.quotes@.subrange(0, k) == o.quotes@.subrange(0, k)
            &&& n.quotes@.last() == (Section { items: n.quotes@.last().items, ..o.quotes@[k] })
            &&& n.quotes@.last().items@ == o.quotes@[k].items@.push(SectionItem::Section(o.quotes@.last()))
        } else {
            &&& n == (DocBuilder { quotes: n.quotes, section_items: n.section_items, ..o })
            &&& n.quotes@.len() == 0
            &&& if has_content(o.quotes@.last()) {
                &&& n.section_items@ == o.section_items@.push(n.section_items@.last())
                &&& n.section_items@.last() is Section
                &&& is_pruned(n.section_items@.last()->Section_0, o.quotes@.last())
            } else {
                n.section_items == o.section_items
            }
        }
    }

    /// The counters and the stack of pre-sections are as in `o`.
    pub open spec fn bounded_like(&self, o: DocBuilder) -> bool {
        &&& self.em_lvl == o.em_lvl
        &&& self.sc_lvl == o.sc_lvl
        &&& self.html_indent == o.html_indent
        &&& self.items_open == o.items_open
        &&& self.seen == o.seen
        &&& self.pre_sections == o.pre_sections
        &&& self.doc == o.doc
    }

    /// Opens a block quote or footnote definition as a section nested in the
    /// innermost open one.
    fn open_micro(&mut self, kind: SectionKind, heading_text: Option<String>, tags: Tags, props: Props)
        requires
            old(self).wf(),
        ensures
            final(self).wf(),
            final(self).bounded_like(*old(self)),
            final(self).quotes@.len() == old(self).quotes@.len() + 1,
            final(self).quotes@.last().kind == kind,
            final(self).quotes@.last().heading.level == micro_level(old(self).quotes@.len() as int),
            final(self).quotes@.last().tags == tags,
            final(self).quotes@.last().props == props,
            final(self).quotes@.last().items@.len() == 0,
            final(self).quotes@.last().heading.items@ == match heading_text {
                Some(t) => seq![t],
                None => Seq::empty(),
            },
            same_heads(final(self).quotes@.drop_last(), old(self).quotes@),
            final(self).list == old(self).list,
            exists|m: DocBuilder|
                {
                    &&& #[trigger] Self::par_flush_rel(*old(self), m)
                    &&& *final(self) == (DocBuilder { quotes: final(self).quotes, ..m })
                    &&& final(self).quotes@.drop_last() == m.quotes@
                },
            final(self).quotes@.last().heading.tags.items@.len() == 0,
            final(self).quotes@.last().heading.props.items@.len() == 0,
    {
        self.flush();
        let ghost m = *self;
        let level = micro_level_of(self.quotes.len());
        let mut heading = Heading::new();
        heading.level = level;
        match heading_text {
            Some(t) => heading.items.push(t),
            None => {},
        }
        let ghost q0 = self.quotes@;
        self.quotes.push(Section { kind, heading, items: Vec::new(), tags, props });
        assert(self.quotes@.drop_last() =~= q0);
        assert(*self == (DocBuilder { quotes: self.quotes, ..m }));
    }

    /// Closes the innermost block quote or footnote definition.
    fn close_micro(&mut self)
        requires
            old(self).wf(),
        ensures
            final(self).wf(),
            final(self).bounded_like(*old(self)),
            old(self).flat() ==> final(self).flat(),
            old(self).quotes@.len() > 0 ==> final(self).quotes@.len() == old(self).quotes@.len() - 1,
            final(self).list == old(self).list,
            exists|m: DocBuilder| Self::par_flush_rel(*old(self), m) && #[trigger] Self::close_rel(m, *final(self)),
    {
        self.flush();
        let ghost m = *self;
        if self.quotes.len() > 0 {
            let ghost q1 = self.quotes@;
            assert(q1 == m.quotes@);
            let closed = self.quotes.pop().unwrap();
            if self.quotes.len() > 0 {
                let ghost q2 = self.quotes@;
                push_block(&mut self.quotes, &mut self.section_items, SectionItem::Section(closed));
                proof {
                    let k = old(self).quotes@.len() - 2;
                    assert(q2 == q1.drop_last());
                    assert(q2.last() == q1[k]);
                    assert(q1[k] == old(self).quotes@[k]);
                    assert(self.quotes@.subrange(0, k) =~= q1.subrange(0, k)) by {
                        assert forall|i: int| 0 <= i < k implies self.quotes@[i] == q1[i] by {
                            assert(self.quotes@[i] == self.quotes@.drop_last()[i]);
                            assert(q2[i] == q2.drop_last()[i]);
                            assert(q1[i] == q1.drop_last()[i]);
                        }
                    }
                    assert(self.quotes@.last() == (Section { items: self.quotes@.last().items, ..q1[k] }));
                    assert(self.quotes@.subrange(0, k) =~= old(self).quotes@.subrange(0, k)) by {
                        assert forall|i: int| 0 <= i < k implies self.quotes@[i] == old(self).quotes@[i] by {
                            assert(self.quotes@[i] == self.quotes@.drop_last()[i]);
                            assert(q2[i] == q2.drop_last()[i]);
                            assert(q1[i] == q1.drop_last()[i]);
                        }
                    }
                    assert forall|i: int| 0 <= i < self.quotes@.len() implies {
                        &&& (#[trigger] self.quotes@[i]).kind == old(self).quotes@.drop_last()[i].kind
                        &&& self.quotes@[i].heading == old(self).quotes@.drop_last()[i].heading
                        &&& self.quotes@[i].tags == old(self).quotes@.drop_last()[i].tags
                        &&& self.quotes@[i].props == old(self).quotes@.drop_last()[i].props
                    } by {
                        assert(q2[i] == q1[i]);
                    }
                }
            } else {
                match prune(closed) {
                    Some(kept) => self.section_items.push(SectionItem::Section(kept)),
                    None => {},
                }
                assert(self.quotes@.len() == 0);
            }
        }
        assert(Self::close_rel(m, *self));
    }

    /// `n` holds the text that was buffered in `o` as one finished node, in
    /// the link when one is open and else in the paragraph, at the levels of `o`.
    pub open spec fn flushed(o: DocBuilder, n: DocBuilder) -> bool {
        &&& n.string@.len() == 0
        &&& if o.string@.len() == 0 {
            n.par.items == o.par.items && n.link.items == o.link.items
        } else if o.lcap {
            &&& n.par.items == o.par.items
            &&& n.link.items@ == o.link.items@.push(n.link.items@.last())
            &&& is_link_piece(n.link.items@.last(), o.em_lvl, o.sc_lvl, o.string@)
        } else {
            &&& n.link.items == o.link.items
            &&& n.par.items@ == o.par.items@.push(n.par.items@.last())
            &&& is_par_piece(n.par.items@.last(), o.em_lvl, o.sc_lvl, o.string@)
        }
    }

    /// `s` is a quote or footnote section just opened at `level`: no items
    /// yet, the given title, tags and properties.
    pub open spec fn micro_section(
        s: Section,
        kind: SectionKind,
        level: u8,
        title: Option<Seq<char>>,
        tags: Set<Seq<char>>,
        props: Map<Seq<char>, Seq<char>>,
    ) -> bool {
        &&& s.kind == kind
        &&& s.heading.level == level
        &&& s.heading.tags.items@.len() == 0
        &&& s.heading.props.items@.len() == 0
        &&& s.items@.len() == 0
        &&& match title {
            Some(t) => s.heading.items@.len() == 1 && s.heading.items@[0]@ == t,
            None => s.heading.items@.len() == 0,
        }
        &&& s.tags.wf()
        &&& s.tags.view() == tags
        &&& s.props.wf()
        &&& s.props.view() == props
    }

    /// `n` is `o` after flushing its paragraph and opening such a section
    /// inside the open ones.
    pub open spec fn micro_opened(
        o: DocBuilder,
        n: DocBuilder,
        kind: SectionKind,
        title: Option<Seq<char>>,
        tags: Set<Seq<char>>,
        props: Map<Seq<char>, Seq<char>>,
    ) -> bool {
        exists|m: DocBuilder|
            {
                &&& #[trigger] Self::par_flush_rel(o, m)
                &&& n == (DocBuilder { quotes: n.quotes, ..m })
                &&& n.quotes@.len() == m.quotes@.len() + 1
                &&& n.quotes@.drop_last() == m.quotes@
                &&& Self::micro_section(n.quotes@.last(), kind, micro_level(o.quotes@.len() as int), title, tags, props)
            }
    }

    /// `n` is the paragraph `o` with one more item.
    pub open spec fn par_pushed(o: Paragraph, n: Paragraph) -> bool {
        n == (Paragraph { items: n.items, ..o }) && n.items@ == o.items@.push(n.items@.last())
    }

    /// `x` is a code block with these contents and no properties.
    pub open spec fn is_code_item(
        x: ParagraphItem,
        language: Seq<char>,
        code: Seq<char>,
        mode: CodeModeHint,
        tags: Set<Seq<char>>,
    ) -> bool {
        &&& x is Code
        &&& x->Code_0.language@ == language
        &&& x->Code_0.code@ == code
        &&& x->Code_0.mode == mode
        &&& x->Code_0.tags.wf()
        &&& x->Code_0.tags.view() == tags
        &&& x->Code_0.props.items@.len() == 0
    }

    /// `x` is text with the one tag `tag` and no properties.
    pub open spec fn is_tagged_item(x: ParagraphItem, text: String, tag: Seq<char>) -> bool {
        &&& x is MText
        &&& x->MText_0.text == text
        &&& x->MText_0.tags.wf()
        &&& x->MText_0.tags.view() == set![tag]
        &&& x->MText_0.props.items@.len() == 0
    }

    /// What a line break does outside captured text: the buffered text, if
    /// any, is flushed, then a piece holding a line feed is added at the same
    /// levels, to the link when one is open and else to the paragraph.
    pub open spec fn break_rel(o: DocBuilder, n: DocBuilder) -> bool {
        let k = if o.string@.len() > 0 { 1int } else { 0int };
        &&& n == (DocBuilder { string: n.string, par: n.par, link: n.link, ..o })
        &&& n.par == (Paragraph { items: n.par.items, ..o.par })
        &&& n.link == (Link { items: n.link.items, ..o.link })
        &&& n.string@.len() == 0
        &&& if o.lcap {
            &&& n.par.items == o.par.items
            &&& n.link.items@.len() == o.link.items@.len() + k + 1
            &&& n.link.items@.subrange(0, o.link.items@.len() as int) == o.link.items@
            &&& k == 1 ==> is_link_piece(n.link.items@[o.link.items@.len() as int], o.em_lvl, o.sc_lvl, o.string@)
            &&& is_link_piece(n.link.items@.last(), o.em_lvl, o.sc_lvl, "\n"@)
        } else {
            &&& n.link.items == o.link.items
            &&& n.par.items@.len() == o.par.items@.len() + k + 1
            &&& n.par.items@.subrange(0, o.par.items@.len() as int) == o.par.items@
            &&& k == 1 ==> is_par_piece(n.par.items@[o.par.items@.len() as int], o.em_lvl, o.sc_lvl, o.string@)
            &&& is_par_piece(n.par.items@.last(), o.em_lvl, o.sc_lvl, "\n"@)
        }
    }

    /// The builder `n` after `o` takes the event `e`. Every field of `n` is
    /// given: exactly where it is moved or kept, and by its contents for new
    /// strings, tag sets and property maps.
    pub open spec fn step_rel(o: DocBuilder, e: MdEvent, n: DocBuilder) -> bool {
        &&& n.seen == o.seen + 1
        &&& Self::step_body(o, e, DocBuilder { seen: o.seen, ..n })
    }

    /// `step_rel` without the event count.
    pub open spec fn step_body(o: DocBuilder, e: MdEvent, n: DocBuilder) -> bool {
        match e {
            MdEvent::Text(t) => if o.em_lvl == 0 && o.sc_lvl == 0 && o.lcap {
                &&& n == (DocBuilder { string: n.string, link: n.link, ..o })
                &&& n.link == (Link { items: n.link.items, ..o.link })
                &&& n.link.items@ == o.link.items@.push(n.link.items@.last())
                &&& n.link.items@.last() is String
                &&& n.link.items@.last()->String_0@ == o.string@ + t@
                &&& n.string@.len() == 0
            } else if o.em_lvl == 0 && o.sc_lvl == 0 && !o.scap {
                &&& n == (DocBuilder { string: n.string, par: n.par, ..o })
                &&& Self::par_pushed(o.par, n.par)
                &&& n.par.items@.last() is Text
                &&& n.par.items@.last()->Text_0@ == o.string@ + t@
                &&& n.string@.len() == 0
            } else {
                n == (DocBuilder { string: n.string, ..o }) && n.string@ == o.string@ + t@
            },
            MdEvent::SoftBreak | MdEvent::HardBreak | MdEvent::Rule => if o.scap {
                n == (DocBuilder { string: n.string, ..o }) && n.string@ == o.string@ + "\n"@
            } else {
                Self::break_rel(o, n)
            },
            MdEvent::StartParagraph | MdEvent::StartHtmlBlock | MdEvent::Other => n == o,
            MdEvent::EndParagraph => if o.items_open == 0 {
                Self::par_flush_rel(o, n)
            } else {
                n == o
            },
            MdEvent::StartHeading { level, id, classes, attrs } => if o.quotes@.len() > 0 {
                n.scap && Self::par_flush_rel(o, DocBuilder { scap: o.scap, ..n })
            } else {
                &&& n == (DocBuilder {
                    scap: true,
                    head: n.head,
                    section_items: n.section_items,
                    pre_sections: n.pre_sections,
                    ..o
                })
                &&& n.pre_sections@ == o.pre_sections@.push((PreSection { heading: o.head, items: o.section_items }))
                &&& n.section_items@.len() == 0
                &&& n.head.level == level
                &&& n.head.items@.len() == 0
                &&& bags_wf(n.head.tags, n.head.props)
                &&& n.head.tags.view() == heading_tags(Set::empty(), classes@, attrs@)
                &&& n.head.props.view() == heading_props(Map::empty(), id, attrs@)
            },
            MdEvent::EndHeading => if o.quotes@.len() > 0 {
                let p = n.quotes@.last().items@.last();
                &&& n == (DocBuilder { scap: false, string: n.string, par: n.par, quotes: n.quotes, ..o })
                &&& n.string@.len() == 0
                &&& fresh_par(n.par)
                &&& n.quotes@.len() == o.quotes@.len()
                &&& n.quotes@.drop_last() == o.quotes@.drop_last()
                &&& n.quotes@.last() == (Section { items: n.quotes@.last().items, ..o.quotes@.last() })
                &&& n.quotes@.last().items@ == o.quotes@.last().items@.push(p)
                &&& p is Paragraph
                &&& p->Paragraph_0 == (Paragraph { items: p->Paragraph_0.items, ..o.par })
                &&& p->Paragraph_0.items@ == o.par.items@.push(ParagraphItem::Text(o.string))
            } else {
                &&& n == (DocBuilder { scap: false, string: n.string, head: n.head, ..o })
                &&& n.head == (Heading { items: n.head.items, ..o.head })
                &&& n.head.items@ == o.head.items@.push(o.string)
                &&& n.string@.len() == 0
            },
            MdEvent::StartCodeBlock(l) => {
                &&& n == (DocBuilder { scap: true, code_lang: n.code_lang, ..o })
                &&& n.code_lang == match l {
                    Some(x) => if x@.len() > 0 {
                        x
                    } else {
                        o.code_lang
                    },
                    None => o.code_lang,
                }
            },
            MdEvent::EndCodeBlock => {
                &&& n == (DocBuilder { scap: false, code_lang: n.code_lang, string: n.string, par: n.par, ..o })
                &&& Self::par_pushed(o.par, n.par)
                &&& n.par.items@.last() == ParagraphItem::Code(n.par.items@.last()->Code_0)
                &&& n.par.items@.last()->Code_0 == (CodeBlock {
                    language: o.code_lang,
                    code: o.string,
                    mode: CodeModeHint::Show,
                    ..n.par.items@.last()->Code_0
                })
                &&& Self::is_code_item(n.par.items@.last(), o.code_lang@, o.string@, CodeModeHint::Show, Set::empty())
                &&& n.code_lang@.len() == 0
                &&& n.string@.len() == 0
            },
            MdEvent::Code(c) => {
                &&& n == (DocBuilder { par: n.par, ..o })
                &&& Self::par_pushed(o.par, n.par)
                &&& Self::is_tagged_item(n.par.items@.last(), c, "code"@)
            },
            MdEvent::InlineMath(m) => {
                &&& n == (DocBuilder { par: n.par, ..o })
                &&& Self::par_pushed(o.par, n.par)
                &&& Self::is_tagged_item(n.par.items@.last(), m, "latex-math"@)
            },
            MdEvent::DisplayMath(m) => {
                &&& n == (DocBuilder { par: n.par, ..o })
                &&& Self::par_pushed(o.par, n.par)
                &&& Self::is_code_item(n.par.items@.last(), "latex-math"@, m@, CodeModeHint::Replace, Set::empty())
            },
            MdEvent::FootnoteReference(l) => {
                let x = n.par.items@.last();
                &&& n == (DocBuilder { par: n.par, ..o })
                &&& Self::par_pushed(o.par, n.par)
                &&& x is Link
                &&& x->Link_0.url@ == "#footnote-"@ + l@
                &&& x->Link_0.items@.len() == 1
                &&& x->Link_0.items@[0] is String
                &&& x->Link_0.items@[0]->String_0@ == "[^"@ + l@ + "]"@
                &&& x->Link_0.tags.wf()
                &&& x->Link_0.tags.view() == set!["footnote-ref"@]
                &&& x->Link_0.props.items@.len() == 0
            },
            MdEvent::StartList(start) => {
                &&& n == (DocBuilder { par: n.par, list: n.list, par_stack: n.par_stack, list_stack: n.list_stack, ..o })
                &&& n.par_stack@ == o.par_stack@.push(o.par)
                &&& n.list_stack@ == o.list_stack@.push(o.list)
                &&& fresh_par(n.par)
                &&& fresh_list(n.list, list_type_start(start))
            },
            MdEvent::StartItem => n == (DocBuilder { items_open: (o.items_open + 1) as usize, ..o }),
            MdEvent::TaskListMarker(ticked) => {
                &&& n == (DocBuilder { par: n.par, list: n.list, ..o })
                &&& n.list == (List { ltype: ListType::Checked, ..o.list })
                &&& n.par == (Paragraph { tags: n.par.tags, ..o.par })
                &&& if ticked {
                    n.par.tags.wf() && n.par.tags.view() == o.par.tags.view().insert("checked"@)
                } else {
                    n.par.tags == o.par.tags
                }
            },
            MdEvent::EndItem => {
                &&& n == (DocBuilder { par: n.par, list: n.list, items_open: n.items_open, ..o })
                &&& n.list == (List { items: n.list.items, ..o.list })
                &&& n.list.items@ == o.list.items@.push(o.par)
                &&& fresh_par(n.par)
                &&& n.items_open == if o.items_open > 0 {
                    o.items_open - 1
                } else {
                    0
                }
            },
            MdEvent::EndList => {
                &&& n == (DocBuilder { par: n.par, list: n.list, par_stack: n.par_stack, list_stack: n.list_stack, ..o })
                &&& if o.par_stack@.len() > 0 {
                    &&& n.par_stack@ == o.par_stack@.drop_last()
                    &&& n.par == (Paragraph { items: n.par.items, ..o.par_stack@.last() })
                    &&& n.par.items@ == o.par_stack@.last().items@.push(ParagraphItem::List(o.list))
                } else {
                    &&& n.par_stack@ == o.par_stack@
                    &&& n.par.items@ == seq![ParagraphItem::List(o.list)]
                    &&& n.par.tags.items@.len() == 0
                    &&& n.par.props.items@.len() == 0
                }
                &&& if o.list_stack@.len() > 0 {
                    n.list == o.list_stack@.last() && n.list_stack@ == o.list_stack@.drop_last()
                } else {
                    n.list_stack@ == o.list_stack@ && fresh_list(n.list, ListType::Identical)
                }
            },
            MdEvent::StartEmphasis | MdEvent::EndEmphasis | MdEvent::StartStrong | MdEvent::EndStrong
            | MdEvent::StartStrikethrough | MdEvent::EndStrikethrough | MdEvent::StartSuperscript
            | MdEvent::EndSuperscript | MdEvent::StartSubscript | MdEvent::EndSubscript => {
                &&& n == (DocBuilder {
                    string: n.string,
                    par: n.par,
                    link: n.link,
                    em_lvl: n.em_lvl,
                    sc_lvl: n.sc_lvl,
                    ..o
                })
                &&& n.par == (Paragraph { items: n.par.items, ..o.par })
                &&& n.link == (Link { items: n.link.items, ..o.link })
                &&& Self::flushed(o, n)
                &&& n.em_lvl == em_after(o.em_lvl, e)
                &&& n.sc_lvl == sc_after(o.sc_lvl, e)
            },
            MdEvent::StartLink { url, title, id, email } => {
                &&& n == (DocBuilder { link: n.link, lcap: true, ..o })
                &&& n.link == (Link { url, tags: n.link.tags, props: n.link.props, ..o.link })
                &&& bags_wf(n.link.tags, n.link.props)
                &&& n.link.tags.view() == if email {
                    o.link.tags.view().insert("email-address"@)
                } else {
                    o.link.tags.view()
                }
                &&& n.link.props.view() == link_props(o.link.props.view(), title@, id@)
            },
            MdEvent::StartImage { url, title, id, email } => {
                &&& n == (DocBuilder { link: n.link, lcap: true, ..o })
                &&& n.link == (Link { url, tags: n.link.tags, props: n.link.props, ..o.link })
                &&& bags_wf(n.link.tags, n.link.props)
                &&& n.link.tags.view() == if email {
                    o.link.tags.view().insert("email-address"@).insert("image"@)
                } else {
                    o.link.tags.view().insert("image"@)
                }
                &&& n.link.props.view() == link_props(o.link.props.view(), title@, id@)
            },
            MdEvent::EndLink | MdEvent::EndImage => {
                &&& n == (DocBuilder { par: n.par, link: n.link, lcap: false, ..o })
                &&& Self::par_pushed(o.par, n.par)
                &&& n.par.items@.last() == ParagraphItem::Link(o.link)
                &&& fresh_link(n.link)
            },
            MdEvent::Html(h) => n == (DocBuilder { string: n.string, ..o }) && n.string@ == o.string@ + h@,
            MdEvent::EndHtmlBlock => {
                &&& n == (DocBuilder { string: n.string, par: n.par, ..o })
                &&& Self::par_pushed(o.par, n.par)
                &&& n.par.items@.last() == ParagraphItem::Code(n.par.items@.last()->Code_0)
                &&& n.par.items@.last()->Code_0.code == o.string
                &&& Self::is_code_item(n.par.items@.last(), "html"@, o.string@, CodeModeHint::Show, set!["unconv-corp"@])
                &&& n.string@.len() == 0
            },
            MdEvent::InlineHtml(t) => {
                let indent = if is_closing_tag(t@) {
                    o.html_indent - 1
                } else {
                    o.html_indent + 1
                };
                let x = n.par.items@.last();
                &&& n == (DocBuilder { par: n.par, html_indent: n.html_indent, ..o })
                &&& n.html_indent == indent
                &&& if o.html_indent == 0 && indent > 0 {
                    Self::par_pushed(o.par, n.par) && Self::is_marker(x, "html("@)
                } else if o.html_indent > 0 && indent == 0 {
                    Self::par_pushed(o.par, n.par) && Self::is_marker(x, ")"@)
                } else {
                    n.par == o.par
                }
            },
            MdEvent::StartFootnoteDefinition(l) => Self::micro_opened(
                o,
                n,
                SectionKind::Footnote,
                Some(l@),
                set!["footnote-def"@],
                map!["id"@ => "footnote-"@ + l@],
            ),
            MdEvent::StartBlockQuote(k) => Self::micro_opened(
                o,
                n,
                SectionKind::Quote,
                match k {
                    Some(k) => Some(quote_kind_word(k)),
                    None => None,
                },
                match k {
                    Some(_) => set!["blockquote-typed"@],
                    None => set!["blockquote"@],
                },
                match k {
                    Some(k) => map!["blockquote-type"@ => quote_kind_word(k)],
                    None => Map::empty(),
                },
            ),
            MdEvent::EndFootnoteDefinition | MdEvent::EndBlockQuote => exists|m: DocBuilder|
                Self::par_flush_rel(o, m) && #[trigger] Self::close_rel(m, n),
            MdEvent::StartMetadataBlock => n == (DocBuilder { scap: true, ..o }),
            MdEvent::EndMetadataBlock => {
                let st = meta_run(meta_start(o.doc.tags.view(), o.doc.props.view()), line_words(o.string@));
                &&& n == (DocBuilder { scap: false, string: n.string, doc: n.doc, ..o })
                &&& n.string@.len() == 0
                &&& bags_wf(n.doc.tags, n.doc.props)
                &&& n.doc.tags.view() == st.tags
                &&& n.doc.props.view() == st.props
                &&& match meta_nav(st) {
                    Some(v) => {
                        &&& n.doc.items@ == o.doc.items@.push(n.doc.items@.last())
                        &&& n.doc.items@.last() is Nav
                        &&& nav_matches(n.doc.items@.last()->Nav_0, v)
                    },
                    None => n.doc.items == o.doc.items,
                }
            },
            MdEvent::StartTable => {
                &&& n == (DocBuilder {
                    par: n.par,
                    table: n.table,
                    row: n.row,
                    par_stack: n.par_stack,
                    table_stack: n.table_stack,
                    row_stack: n.row_stack,
                    ..o
                })
                &&& n.par_stack@ == o.par_stack@.push(o.par)
                &&& n.table_stack@ == o.table_stack@.push(o.table)
                &&& n.row_stack@ == o.row_stack@.push(o.row)
                &&& fresh_par(n.par)
                &&& fresh_table(n.table)
                &&& fresh_row(n.row, false)
            },
            MdEvent::StartTableHead => n == (DocBuilder { row: n.row, ..o }) && fresh_row(n.row, true),
            MdEvent::StartTableRow => n == (DocBuilder { row: n.row, ..o }) && fresh_row(n.row, false),
            MdEvent::EndTableHead | MdEvent::EndTableRow => {
                &&& n == (DocBuilder { row: n.row, table: n.table, ..o })
                &&& n.table == (Table { rows: n.table.rows, ..o.table })
                &&& n.table.rows@ == o.table.rows@.push(o.row)
                &&& fresh_row(n.row, false)
            },
            MdEvent::StartTableCell => n == (DocBuilder { par: n.par, ..o }) && fresh_par(n.par),
            MdEvent::EndTableCell => {
                &&& n == (DocBuilder { par: n.par, row: n.row, ..o })
                &&& n.row == (TableRow { items: n.row.items, ..o.row })
                &&& n.row.items@ == o.row.items@.push(o.par)
                &&& fresh_par(n.par)
            },
            MdEvent::EndTable => {
                &&& n == (DocBuilder {
                    par: n.par,
                    table: n.table,
                    row: n.row,
                    par_stack: n.par_stack,
                    table_stack: n.table_stack,
                    row_stack: n.row_stack,
                    ..o
                })
                &&& if o.par_stack@.len() > 0 {
                    &&& n.par_stack@ == o.par_stack@.drop_last()
                    &&& n.par == (Paragraph { items: n.par.items, ..o.par_stack@.last() })
                    &&& n.par.items@ == o.par_stack@.last().items@.push(ParagraphItem::Table(o.table))
                } else {
                    &&& n.par_stack@ == o.par_stack@
                    &&& n.par.items@ == seq![ParagraphItem::Table(o.table)]
                    &&& n.par.tags.items@.len() == 0
                    &&& n.par.props.items@.len() == 0
                }
                &&& if o.table_stack@.len() > 0 {
                    n.table == o.table_stack@.last() && n.table_stack@ == o.table_stack@.drop_last()
                } else {
                    n.table_stack@ == o.table_stack@ && fresh_table(n.table)
                }
                &&& if o.row_stack@.len() > 0 {
                    n.row == o.row_stack@.last() && n.row_stack@ == o.row_stack@.drop_last()
                } else {
                    n.row_stack@ == o.row_stack@ && fresh_row(n.row, false)
                }
            },
        }
    }

    /// `x` is a light de-emphasised marker with this text.
    pub open spec fn is_marker(x: ParagraphItem, text: Seq<char>) -> bool {
        &&& x is Em
        &&& x->Em_0.text@ == text
        &&& x->Em_0.strength == EmStrength::Light
        &&& x->Em_0.etype == EmType::Deemphasis
        &&& x->Em_0.tags.items@.len() == 0
        &&& x->Em_0.props.items@.len() == 0
    }

    /// Takes one event.
    pub fn step(&mut self, e: MdEvent)
        requires
            old(self).wf(),
            old(self).steps() < usize::MAX,
        ensures
            final(self).wf(),
            final(self).steps() == old(self).steps() + 1,
            Self::step_rel(*old(self), e, *final(self)),
            !opens_section(e) && old(self).flat() ==> final(self).flat(),
    {
        let ghost o = *self;
        if matches!(
            e,
            MdEvent::Text { .. }
                | MdEvent::SoftBreak { .. }
                | MdEvent::HardBreak { .. }
                | MdEvent::Rule { .. },
        ) {
            self.step_text(e);
        } else if matches!(
            e,
            MdEvent::StartEmphasis { .. }
                | MdEvent::StartStrong { .. }
                | MdEvent::StartStrikethrough { .. }
                | MdEvent::StartSuperscript { .. }
                | MdEvent::StartSubscript { .. }
                | MdEvent::EndEmphasis { .. }
                | MdEvent::EndStrong { .. }
                | MdEvent::EndStrikethrough { .. }
                | MdEvent::EndSuperscript { .. }
                | MdEvent::EndSubscript { .. },
        ) {
            self.step_span(e);
        } else if matches!(
            e,
            MdEvent::StartList { .. }
                | MdEvent::StartItem { .. }
                | MdEvent::TaskListMarker { .. }
                | MdEvent::EndItem { .. }
                | MdEvent::EndList { .. },
        ) {
            self.step_list(e);
        } else if matches!(
            e,
            MdEvent::StartLink { .. }
                | MdEvent::StartImage { .. }
                | MdEvent::EndLink { .. }
                | MdEvent::EndImage { .. },
        ) {
            self.step_link(e);
        } else if matches!(
            e,
            MdEvent::StartCodeBlock { .. }
                | MdEvent::EndCodeBlock { .. }
                | MdEvent::Code { .. }
                | MdEvent::StartHtmlBlock { .. }
                | MdEvent::Html { .. }
                | MdEvent::EndHtmlBlock { .. }
                | MdEvent::InlineHtml { .. }
                | MdEvent::InlineMath { .. }
                | MdEvent::DisplayMath { .. }
                | MdEvent::FootnoteReference { .. },
        ) {
            self.step_inline(e);
        } else if matches!(
            e,
            MdEvent::StartTable { .. }
                | MdEvent::StartTableHead { .. }
                | MdEvent::StartTableRow { .. }
                | MdEvent::EndTableHead { .. }
                | MdEvent::EndTableRow { .. }
                | MdEvent::StartTableCell { .. }
                | MdEvent::EndTableCell { .. }
                | MdEvent::EndTable { .. },
        ) {
            self.step_table(e);
        } else {
            self.step_block(e);
        }
        let ghost m = *self;
        self.seen = self.seen + 1;
        assert((DocBuilder { seen: o.seen, ..*self }) == m);
    }

    /// Takes one event among those of `is_text_event`.
    #[verifier::rlimit(100)]
    fn step_text(&mut self, e: MdEvent)
        requires
            old(self).wf(),
            old(self).seen < usize::MAX,
            is_text_event(e),
        ensures
            final(self).bags_ok(),
            final(self).bounded(old(self).seen + 1),
            final(self).seen == old(self).seen,
            Self::step_body(*old(self), e, *final(self)),
            !opens_section(e) && old(self).flat() ==> final(self).flat(),
    {
        let ghost flat0 = self.flat();
        let ghost ev = e;
        match e {
            MdEvent::Text(t) => {
                let ghost o = *self;
                assert(ev == MdEvent::Text(t));
                assert(o == *old(self));
                self.string.append(t.as_str());
                assert(self.string@ == o.string@ + t@);
                assert(*self == (DocBuilder { string: self.string, ..o }));
                if self.em_lvl == 0 && self.sc_lvl == 0 {
                    if self.lcap {
                        let text = take_string(&mut self.string);
                        self.link.items.push(LinkItem::String(text));
                        assert(self.link == (Link { items: self.link.items, ..o.link }));
                    } else if !self.scap {
                        let text = take_string(&mut self.string);
                        self.par.items.push(ParagraphItem::Text(text));
                        assert(self.par == (Paragraph { items: self.par.items, ..o.par }));
                        assert(Self::par_pushed(o.par, self.par));
                        assert(Self::step_body(o, MdEvent::Text(t), *self));
                    } else {
                        assert(Self::step_body(o, MdEvent::Text(t), *self));
                    }
                } else {
                    assert(Self::step_body(o, MdEvent::Text(t), *self));
                }
                assert(Self::step_body(*old(self), ev, *self));
            },
            MdEvent::SoftBreak | MdEvent::HardBreak | MdEvent::Rule => {
                if self.scap {
                    self.string.append("\n");
                } else {
                    let ghost o = *self;
                    finish_text_piece(self.em_lvl, self.sc_lvl, self.lcap, &mut self.string, &mut self.par.items, &mut self.link.items);
                    let ghost m = *self;
                    self.string = String::from_str("\n");
                    proof {
                        reveal_strlit("\n");
                    }
                    assert(self.string@.len() == 1);
                    finish_text_piece(self.em_lvl, self.sc_lvl, self.lcap, &mut self.string, &mut self.par.items, &mut self.link.items);
                    proof {
                        if o.lcap {
                            assert(self.link.items@.subrange(0, o.link.items@.len() as int) =~= o.link.items@);
                            if o.string@.len() > 0 {
                                assert(self.link.items@[o.link.items@.len() as int] == m.link.items@.last());
                            }
                        } else {
                            assert(self.par.items@.subrange(0, o.par.items@.len() as int) =~= o.par.items@);
                            if o.string@.len() > 0 {
                                assert(self.par.items@[o.par.items@.len() as int] == m.par.items@.last());
                            }
                        }
                        assert(Self::break_rel(o, *self));
                    }
                }
                assert(Self::step_body(*old(self), ev, *self));
            },
            _ => {},
        }
    }

    /// Takes one event among those of `is_span_event`.
    #[verifier::rlimit(100)]
    fn step_span(&mut self, e: MdEvent)
        requires
            old(self).wf(),
            old(self).seen < usize::MAX,
            is_span_event(e),
        ensures
            final(self).bags_ok(),
            final(self).bounded(old(self).seen + 1),
            final(self).seen == old(self).seen,
            Self::step_body(*old(self), e, *final(self)),
            !opens_section(e) && old(self).flat() ==> final(self).flat(),
    {
        let ghost flat0 = self.flat();
        let ghost ev = e;
        match e {
            MdEvent::StartEmphasis => {
                finish_text_piece(self.em_lvl, self.sc_lvl, self.lcap, &mut self.string, &mut self.par.items, &mut self.link.items);
                self.em_lvl = self.em_lvl + 1;
                assert(Self::step_body(*old(self), ev, *self));
            },
            MdEvent::StartStrong => {
                finish_text_piece(self.em_lvl, self.sc_lvl, self.lcap, &mut self.string, &mut self.par.items, &mut self.link.items);
                self.em_lvl = self.em_lvl + 2;
                assert(Self::step_body(*old(self), ev, *self));
            },
            MdEvent::StartStrikethrough => {
                finish_text_piece(self.em_lvl, self.sc_lvl, self.lcap, &mut self.string, &mut self.par.items, &mut self.link.items);
                self.em_lvl = -1;
                assert(Self::step_body(*old(self), ev, *self));
            },
            MdEvent::StartSuperscript => {
                finish_text_piece(self.em_lvl, self.sc_lvl, self.lcap, &mut self.string, &mut self.par.items, &mut self.link.items);
                self.sc_lvl = 1;
                assert(Self::step_body(*old(self), ev, *self));
            },
            MdEvent::StartSubscript => {
                finish_text_piece(self.em_lvl, self.sc_lvl, self.lcap, &mut self.string, &mut self.par.items, &mut self.link.items);
                self.sc_lvl = -1;
                assert(Self::step_body(*old(self), ev, *self));
            },
            MdEvent::EndEmphasis => {
                finish_text_piece(self.em_lvl, self.sc_lvl, self.lcap, &mut self.string, &mut self.par.items, &mut self.link.items);
                self.em_lvl = self.em_lvl - 1;
                assert(Self::step_body(*old(self), ev, *self));
            },
            MdEvent::EndStrong => {
                finish_text_piece(self.em_lvl, self.sc_lvl, self.lcap, &mut self.string, &mut self.par.items, &mut self.link.items);
                self.em_lvl = self.em_lvl - 2;
                assert(Self::step_body(*old(self), ev, *self));
            },
            MdEvent::EndStrikethrough => {
                finish_text_piece(self.em_lvl, self.sc_lvl, self.lcap, &mut self.string, &mut self.par.items, &mut self.link.items);
                self.em_lvl = self.em_lvl + 1;
                assert(Self::step_body(*old(self), ev, *self));
            },
            MdEvent::EndSuperscript | MdEvent::EndSubscript => {
                finish_text_piece(self.em_lvl, self.sc_lvl, self.lcap, &mut self.string, &mut self.par.items, &mut self.link.items);
                self.sc_lvl = 0;
                assert(Self::step_body(*old(self), ev, *self));
            },
            _ => {},
        }
    }

    /// Takes one event among those of `is_list_event`.
    #[verifier::rlimit(100)]
    fn step_list(&mut self, e: MdEvent)
        requires
            old(self).wf(),
            old(self).seen < usize::MAX,
            is_list_event(e),
        ensures
            final(self).bags_ok(),
            final(self).bounded(old(self).seen + 1),
            final(self).seen == old(self).seen,
            Self::step_body(*old(self), e, *final(self)),
            !opens_section(e) && old(self).flat() ==> final(self).flat(),
    {
        let ghost flat0 = self.flat();
        let ghost ev = e;
        match e {
            MdEvent::StartList(start) => {
                let p = take_par(&mut self.par);
                self.par_stack.push(p);
                let mut l = List::new();
                std::mem::swap(&mut l, &mut self.list);
                self.list_stack.push(l);
                if start.is_some() {
                    self.list.ltype = ListType::Distinct;
                }
                assert(Self::step_body(*old(self), ev, *self));
            },
            MdEvent::StartItem => {
                self.items_open = self.items_open + 1;
                assert(Self::step_body(*old(self), ev, *self));
            },
            MdEvent::TaskListMarker(ticked) => {
                if ticked {
                    self.par.tags.insert(String::from_str("checked"));
                }
                self.list.ltype = ListType::Checked;
                assert(Self::step_body(*old(self), ev, *self));
            },
            MdEvent::EndItem => {
                let p = take_par(&mut self.par);
                self.list.items.push(p);
                if self.items_open > 0 {
                    self.items_open = self.items_open - 1;
                }
                assert(Self::step_body(*old(self), ev, *self));
            },
            MdEvent::EndList => {
                let mut p = match self.par_stack.pop() {
                    Some(p) => p,
                    None => Paragraph::new(),
                };
                std::mem::swap(&mut p, &mut self.par);
                let mut l = match self.list_stack.pop() {
                    Some(l) => l,
                    None => List::new(),
                };
                std::mem::swap(&mut l, &mut self.list);
                self.par.items.push(ParagraphItem::List(l));
                proof {
                    if old(self).par_stack@.len() == 0 {
                        assert(self.par.items@ =~= seq![ParagraphItem::List(old(self).list)]);
                    } else {
                        assert(self.par_stack@ =~= old(self).par_stack@.drop_last());
                    }
                    if old(self).list_stack@.len() > 0 {
                        assert(self.list_stack@ =~= old(self).list_stack@.drop_last());
                    }
                }
                assert(Self::step_body(*old(self), ev, *self));
            },
            _ => {},
        }
    }

    /// Takes one event among those of `is_link_event`.
    #[verifier::rlimit(100)]
    fn step_link(&mut self, e: MdEvent)
        requires
            old(self).wf(),
            old(self).seen < usize::MAX,
            is_link_event(e),
        ensures
            final(self).bags_ok(),
            final(self).bounded(old(self).seen + 1),
            final(self).seen == old(self).seen,
            Self::step_body(*old(self), e, *final(self)),
            !opens_section(e) && old(self).flat() ==> final(self).flat(),
    {
        let ghost flat0 = self.flat();
        let ghost ev = e;
        match e {
            MdEvent::StartLink { url, title, id, email } => {
                self.open_link(url, title, id, email, false);
                assert(Self::step_body(*old(self), ev, *self));
            },
            MdEvent::StartImage { url, title, id, email } => {
                self.open_link(url, title, id, email, true);
                assert(Self::step_body(*old(self), ev, *self));
            },
            MdEvent::EndLink | MdEvent::EndImage => {
                let mut l = Link::new();
                std::mem::swap(&mut l, &mut self.link);
                self.par.items.push(ParagraphItem::Link(l));
                self.lcap = false;
                assert(Self::step_body(*old(self), ev, *self));
            },
            _ => {},
        }
    }

    /// Takes one event among those of `is_inline_event`.
    #[verifier::rlimit(100)]
    fn step_inline(&mut self, e: MdEvent)
        requires
            old(self).wf(),
            old(self).seen < usize::MAX,
            is_inline_event(e),
        ensures
            final(self).bags_ok(),
            final(self).bounded(old(self).seen + 1),
            final(self).seen == old(self).seen,
            Self::step_body(*old(self), e, *final(self)),
            !opens_section(e) && old(self).flat() ==> final(self).flat(),
    {
        let ghost flat0 = self.flat();
        let ghost ev = e;
        match e {
            MdEvent::StartCodeBlock(language) => {
                match language {
                    Some(l) => {
                        if l.as_str().unicode_len() > 0 {
                            self.code_lang = l;
                        }
                    },
                    None => {},
                }
                self.scap = true;
                assert(Self::step_body(*old(self), ev, *self));
            },
            MdEvent::EndCodeBlock => {
                let language = take_string(&mut self.code_lang);
                let code = take_string(&mut self.string);
                self.par.items.push(code_item(language, code, CodeModeHint::Show, Tags::new()));
                self.scap = false;
                assert(Self::step_body(*old(self), ev, *self));
            },
            MdEvent::Code(c) => {
                self.par.items.push(tagged_text(c, "code"));
                assert(Self::step_body(*old(self), ev, *self));
            },
            MdEvent::StartHtmlBlock => {},
            MdEvent::Html(h) => {
                self.string.append(h.as_str());
                assert(Self::step_body(*old(self), ev, *self));
            },
            MdEvent::EndHtmlBlock => {
                let code = take_string(&mut self.string);
                self.par.items.push(code_item(String::from_str("html"), code, CodeModeHint::Show, one_tag("unconv-corp")));
                assert(Self::step_body(*old(self), ev, *self));
            },
            MdEvent::InlineHtml(tag) => {
                let before = self.html_indent;
                if closing_tag(tag.as_str()) {
                    self.html_indent = self.html_indent - 1;
                } else {
                    self.html_indent = self.html_indent + 1;
                }
                if self.html_indent > 0 && before == 0 {
                    self.par.items.push(marker("html("));
                } else if self.html_indent == 0 && before > 0 {
                    self.par.items.push(marker(")"));
                }
                assert(Self::step_body(*old(self), ev, *self));
            },
            MdEvent::InlineMath(m) => {
                self.par.items.push(tagged_text(m, "latex-math"));
                assert(Self::step_body(*old(self), ev, *self));
            },
            MdEvent::DisplayMath(m) => {
                self.par.items.push(code_item(String::from_str("latex-math"), m, CodeModeHint::Replace, Tags::new()));
                assert(Self::step_body(*old(self), ev, *self));
            },
            MdEvent::FootnoteReference(label) => {
                let mut text = String::from_str("[^");
                text.append(label.as_str());
                text.append("]");
                let mut url = String::from_str("#footnote-");
                url.append(label.as_str());
                let mut items: Vec<LinkItem> = Vec::new();
                items.push(LinkItem::String(text));
                let link = Link { items, url, tags: one_tag("footnote-ref"), props: Props::new() };
                self.par.items.push(ParagraphItem::Link(link));
                assert(Self::step_body(*old(self), ev, *self));
            },
            _ => {},
        }
    }

    /// Takes one event among those of `is_table_event`.
    #[verifier::rlimit(100)]
    fn step_table(&mut self, e: MdEvent)
        requires
            old(self).wf(),
            old(self).seen < usize::MAX,
            is_table_event(e),
        ensures
            final(self).bags_ok(),
            final(self).bounded(old(self).seen + 1),
            final(self).seen == old(self).seen,
            Self::step_body(*old(self), e, *final(self)),
            !opens_section(e) && old(self).flat() ==> final(self).flat(),
    {
        let ghost flat0 = self.flat();
        let ghost ev = e;
        match e {
            MdEvent::StartTable => {
                let p = take_par(&mut self.par);
                self.par_stack.push(p);
                let mut t = Table::new();
                std::mem::swap(&mut t, &mut self.table);
                self.table_stack.push(t);
                let mut r = TableRow::new(false);
                std::mem::swap(&mut r, &mut self.row);
                self.row_stack.push(r);
                assert(Self::step_body(*old(self), ev, *self));
            },
            MdEvent::StartTableHead => {
                self.row = TableRow::new(true);
                assert(Self::step_body(*old(self), ev, *self));
            },
            MdEvent::StartTableRow => {
                self.row = TableRow::new(false);
                assert(Self::step_body(*old(self), ev, *self));
            },
            MdEvent::EndTableHead | MdEvent::EndTableRow => {
                let mut r = TableRow::new(false);
                std::mem::swap(&mut r, &mut self.row);
                self.table.rows.push(r);
                assert(Self::step_body(*old(self), ev, *self));
            },
            MdEvent::StartTableCell => {
                let _ = take_par(&mut self.par);
                assert(Self::step_body(*old(self), ev, *self));
            },
            MdEvent::EndTableCell => {
                let p = take_par(&mut self.par);
                self.row.items.push(p);
                assert(Self::step_body(*old(self), ev, *self));
            },
            MdEvent::EndTable => {
                let mut p = match self.par_stack.pop() {
                    Some(p) => p,
                    None => Paragraph::new(),
                };
                std::mem::swap(&mut p, &mut self.par);
                let mut t = match self.table_stack.pop() {
                    Some(t) => t,
                    None => Table::new(),
                };
                std::mem::swap(&mut t, &mut self.table);
                self.row = match self.row_stack.pop() {
                    Some(r) => r,
                    None => TableRow::new(false),
                };
                self.par.items.push(ParagraphItem::Table(t));
                proof {
                    if old(self).par_stack@.len() == 0 {
                        assert(self.par.items@ =~= seq![ParagraphItem::Table(old(self).table)]);
                    } else {
                        assert(self.par_stack@ =~= old(self).par_stack@.drop_last());
                    }
                    if old(self).table_stack@.len() > 0 {
                        assert(self.table_stack@ =~= old(self).table_stack@.drop_last());
                    }
                    if old(self).row_stack@.len() > 0 {
                        assert(self.row_stack@ =~= old(self).row_stack@.drop_last());
                    }
                }
                assert(Self::step_body(*old(self), ev, *self));
            },
            _ => {},
        }
    }

    /// Takes one event among those of `is_block_event`.
    #[verifier::rlimit(100)]
    fn step_block(&mut self, e: MdEvent)
        requires
            old(self).wf(),
            old(self).seen < usize::MAX,
            is_block_event(e),
        ensures
            final(self).bags_ok(),
            final(self).bounded(old(self).seen + 1),
            final(self).seen == old(self).seen,
            Self::step_body(*old(self), e, *final(self)),
            !opens_section(e) && old(self).flat() ==> final(self).flat(),
    {
        let ghost flat0 = self.flat();
        let ghost ev = e;
        match e {
            MdEvent::StartParagraph => {},
            MdEvent::EndParagraph => {
                if self.items_open == 0 {
                    self.flush();
                }
                assert(Self::step_body(*old(self), ev, *self));
            },
            MdEvent::StartHeading { level, id, classes, attrs } => {
                if self.quotes.len() > 0 {
                    self.flush();
                } else {
                    let mut head = Heading::new();
                    std::mem::swap(&mut head, &mut self.head);
                    let mut items: Vec<SectionItem> = Vec::new();
                    std::mem::swap(&mut items, &mut self.section_items);
                    self.pre_sections.push(PreSection { heading: head, items });
                    self.head.level = level;
                    assert(self.head.tags.view() =~= Set::<Seq<char>>::empty());
                    assert(self.head.props.view() =~= Map::<Seq<char>, Seq<char>>::empty());
                    heading_meta(&mut self.head, id, classes, attrs);
                }
                self.scap = true;
                assert(Self::step_body(*old(self), ev, *self));
            },
            MdEvent::EndHeading => {
                let text = take_string(&mut self.string);
                if self.quotes.len() > 0 {
                    self.par.items.push(ParagraphItem::Text(text));
                    self.flush();
                } else {
                    self.head.items.push(text);
                }
                self.scap = false;
                assert(Self::step_body(*old(self), ev, *self));
            },
            MdEvent::StartFootnoteDefinition(label) => {
                let mut id = String::from_str("footnote-");
                id.append(label.as_str());
                let mut props = Props::new();
                let ghost id_text = id@;
                props.insert(String::from_str("id"), id);
                assert(props.view() =~= map!["id"@ => id_text]);
                self.open_micro(SectionKind::Footnote, Some(label), one_tag("footnote-def"), props);
                assert(Self::step_body(*old(self), ev, *self));
            },
            MdEvent::StartBlockQuote(kind) => {
                match kind {
                    Some(k) => {
                        let mut props = Props::new();
                        props.insert(String::from_str("blockquote-type"), quote_kind_name(k));
                        assert(props.view() =~= map!["blockquote-type"@ => quote_kind_word(k)]);
                        self.open_micro(SectionKind::Quote, Some(quote_kind_name(k)), one_tag("blockquote-typed"), props);
                    },
                    None => {
                        self.open_micro(SectionKind::Quote, None, one_tag("blockquote"), Props::new());
                    },
                }
                assert(Self::step_body(*old(self), ev, *self));
            },
            MdEvent::EndFootnoteDefinition | MdEvent::EndBlockQuote => {
                self.close_micro();
                assert(Self::step_body(*old(self), ev, *self));
            },
            MdEvent::StartMetadataBlock => {
                self.scap = true;
                assert(Self::step_body(*old(self), ev, *self));
            },
            MdEvent::EndMetadataBlock => {
                let block = take_string(&mut self.string);
                let ghost items0 = self.doc.items@;
                apply_metadata(&mut self.doc, block.as_str());
                self.scap = false;
                proof {
                    if self.doc.items@.len() > items0.len() {
                        assert(self.doc.items@ =~= items0.push(self.doc.items@.last()));
                    }
                }
                proof {
                    if flat0 && self.doc.items@.len() > items0.len() {
                        assert forall|i: int| 0 <= i < self.doc.items@.len() implies !(#[trigger] self.doc.items@[i] is Section) by {
                            if i < items0.len() {
                                assert(self.doc.items@[i] == self.doc.items@.drop_last()[i]);
                            }
                        }
                    }
                }
                assert(Self::step_body(*old(self), ev, *self));
            },
            MdEvent::Other => {},
            _ => {},
        }
    }

    /// Opens a link or, with `image`, an image.
    fn open_link(&mut self, url: String, title: String, id: String, email: bool, image: bool)
        requires
            old(self).wf(),
        ensures
            *final(self) == (DocBuilder { link: final(self).link, lcap: true, ..*old(self) }),
            final(self).link == (Link { url, tags: final(self).link.tags, props: final(self).link.props, ..old(self).link }),
            final(self).wf(),
            final(self).bounded_like(*old(self)),
            final(self).quotes == old(self).quotes,
            final(self).section_items == old(self).section_items,
            final(self).list == old(self).list,
            final(self).par == old(self).par,
            final(self).string == old(self).string,
            final(self).scap == old(self).scap,
            final(self).lcap,
            final(self).link.url == url,
            final(self).link.items == old(self).link.items,
            final(self).link.tags.view() == if image && email {
                old(self).link.tags.view().insert("email-address"@).insert("image"@)
            } else if image {
                old(self).link.tags.view().insert("image"@)
            } else if email {
                old(self).link.tags.view().insert("email-address"@)
            } else {
                old(self).link.tags.view()
            },
            final(self).link.props.view() == link_props(old(self).link.props.view(), title@, id@),
    {
        self.link.url = url;
        if id.as_str().unicode_len() > 0 {
            self.link.props.insert(String::from_str("link-ref"), id);
        }
        if title.as_str().unicode_len() > 0 {
            self.link.props.insert(String::from_str("title"), title);
        }
        if email {
            self.link.tags.insert(String::from_str("email-address"));
        }
        if image {
            self.link.tags.insert(String::from_str("image"));
        }
        self.lcap = true;
    }
}

impl DocBuilder {
    /// When nothing is left open, the document holds the items that it
    /// has so far (navigation trees), then the items of the tree that the
    /// pre-sections and the last heading with its content nest into, with
    /// levels turned into depths; its tags and properties are kept.
    pub open spec fn finish_effect(self, r: Doc) -> bool {
        &&& r.tags == self.doc.tags
        &&& r.props == self.doc.props
        &&& self.quotes@.len() == 0 && self.par.items@.len() == 0 ==> {
            let pres = self.pre_sections@.push((PreSection { heading: self.head, items: self.section_items }));
            let n0 = self.doc.items@.len();
            exists|mega: Section|
                {
                    &&& #[trigger] is_tree_of(mega, pres)
                    &&& r.items@.len() == n0 + mega.items@.len()
                    &&& r.items@.subrange(0, n0 as int) == self.doc.items@
                    &&& forall|i: int|
                        0 <= i < mega.items@.len() ==> is_doc_item_of(#[trigger] r.items@[n0 + i], mega.items@[i])
                }
        }
    }

    /// `n` is `o` with its innermost open quote or footnote closed, its
    /// paragraph flushed first.
    pub open spec fn closes_to(o: DocBuilder, n: DocBuilder) -> bool {
        exists|m: DocBuilder| Self::par_flush_rel(o, m) && #[trigger] Self::close_rel(m, n)
    }

    /// `r` is the document at the end of the pass from `b`: the paragraph
    /// under construction is flushed, the open quotes and footnotes are
    /// closed innermost first, then the pre-sections and the last heading
    /// with its content nest into the document's items.
    pub open spec fn finish_rel(b: DocBuilder, r: Doc) -> bool {
        exists|s: Seq<DocBuilder>|
            {
                &&& s.len() >= 1
                &&& #[trigger] Self::par_flush_rel(b, s[0])
                &&& forall|i: int|
                    0 <= i < s.len() - 1 ==> (#[trigger] s[i]).quotes@.len() > 0 && Self::closes_to(s[i], s[i + 1])
                &&& s.last().quotes@.len() == 0
                &&& s.last().finish_effect(r)
            }
    }

    /// Ends the pass: closes what is still open, nests the sections, and
    /// returns the document.
    pub fn finish(self) -> (r: Doc)
        requires
            self.wf(),
        ensures
            r.tags.wf(),
            r.props.wf(),
            Self::finish_rel(self, r),
            self.flat() ==> forall|i: int| 0 <= i < r.items@.len() ==> !(#[trigger] r.items@[i] is Section),
            no_real_sections(self) ==> forall|i: int|
                0 <= i < r.items@.len() && #[trigger] r.items@[i] is Section ==> r.items@[i]->Section_0.kind
                    != SectionKind::Real,
    {
        let ghost flat0 = self.flat();
        let ghost nr0 = no_real_sections(self);
        let ghost orig = self;
        let mut b = self;
        b.flush();
        proof {
            if nr0 {
                lemma_flush_keeps_no_real(orig, b);
            }
        }
        let ghost mut states: Seq<DocBuilder> = seq![b];
        while b.quotes.len() > 0
            invariant
                b.wf(),
                flat0 ==> b.flat(),
                states.len() >= 1,
                Self::par_flush_rel(orig, states[0]),
                states.last() == b,
                b.par.items@.len() == 0,
                nr0 ==> no_real_sections(b),
                forall|i: int|
                    0 <= i < states.len() - 1 ==> (#[trigger] states[i]).quotes@.len() > 0 && Self::closes_to(
                        states[i],
                        states[i + 1],
                    ),
            decreases b.quotes@.len(),
        {
            let ghost before = b;
            let ghost prev = states;
            b.close_micro();
            proof {
                states = states.push(b);
            }
            assert(Self::closes_to(before, b));
            proof {
                if nr0 {
                    lemma_close_keeps_no_real(before, b);
                }
            }
            assert forall|i: int| 0 <= i < states.len() - 1 implies (#[trigger] states[i]).quotes@.len() > 0
                && Self::closes_to(states[i], states[i + 1]) by {
                if i < prev.len() - 1 {
                    assert(states[i] == prev[i] && states[i + 1] == prev[i + 1]);
                } else {
                    assert(states[i] == before && states[i + 1] == b);
                }
            }
        }
        let ghost last = b;
        let DocBuilder { head, section_items, pre_sections, doc, .. } = b;
        let mut pre_sections = pre_sections;
        let ghost items0 = section_items@;
        pre_sections.push(PreSection { heading: head, items: section_items });
        let mega = pre_sections_to_sections(pre_sections);
        let mut doc = doc;
        let ghost doc0 = doc.items@;
        populate_doc(&mut doc, mega);
        proof {
            assert(pre_sections@ == last.pre_sections@.push(
                (PreSection { heading: last.head, items: last.section_items }),
            ));
            assert(is_tree_of(mega, pre_sections@));
            let n0 = last.doc.items@.len();
            assert(doc.items@.len() == n0 + mega.items@.len());
            assert(doc.items@.subrange(0, n0 as int) == last.doc.items@);
            assert(last.finish_effect(doc));
            assert(states.last() == last);
            assert(Self::par_flush_rel(orig, states[0]));
            assert(Self::finish_rel(orig, doc));
            if nr0 {
                lemma_single_pre_section(mega, pre_sections@);
                assert forall|i: int|
                    0 <= i < doc.items@.len() && #[trigger] doc.items@[i] is Section implies doc.items@[i]->Section_0.kind
                    != SectionKind::Real by {
                    if i < doc0.len() {
                        assert(doc.items@[i] == doc.items@.subrange(0, doc0.len() as int)[i]);
                    } else {
                        let j = i - doc0.len();
                        assert(is_doc_item_of(doc.items@[doc0.len() + j], mega.items@[j]));
                        assert(mega.items@[j] == items0[j]);
                    }
                }
            }
            if flat0 {
                lemma_single_pre_section(mega, pre_sections@);
                assert forall|i: int| 0 <= i < doc.items@.len() implies !(#[trigger] doc.items@[i] is Section) by {
                    if i < doc0.len() {
                        assert(doc.items@[i] == doc.items@.subrange(0, doc0.len() as int)[i]);
                    } else {
                        let j = i - doc0.len();
                        assert(is_doc_item_of(doc.items@[doc0.len() + j], mega.items@[j]));
                        assert(mega.items@[j] == items0[j]);
                    }
                }
            }
        }
        doc
    }
}

/// No heading has been met: no pre-section is set aside, and every section
/// built or open so far is a quote or a footnote.
pub open spec fn no_real_sections(b: DocBuilder) -> bool {
    &&& b.pre_sections@.len() == 0
    &&& forall|i: int|
        0 <= i < b.section_items@.len() && #[trigger] b.section_items@[i] is Section
            ==> b.section_items@[i]->Section_0.kind != SectionKind::Real
    &&& forall|i: int|
        0 <= i < b.doc.items@.len() ==> !(#[trigger] b.doc.items@[i] is Section)
    &&& forall|i: int| 0 <= i < b.quotes@.len() ==> (#[trigger] b.quotes@[i]).kind != SectionKind::Real
}

/// Flushing a paragraph keeps every section a quote or a footnote.
pub proof fn lemma_flush_keeps_no_real(o: DocBuilder, n: DocBuilder)
    requires
        DocBuilder::par_flush_rel(o, n),
        no_real_sections(o),
    ensures
        no_real_sections(n),
{
    assert forall|i: int| 0 <= i < n.quotes@.len() implies (#[trigger] n.quotes@[i]).kind != SectionKind::Real by {
        if o.par.items@.len() > 0 && o.quotes@.len() > 0 && i < n.quotes@.len() - 1 {
            assert(n.quotes@[i] == n.quotes@.drop_last()[i]);
            assert(o.quotes@[i] == o.quotes@.drop_last()[i]);
        }
    }
    assert forall|i: int|
        0 <= i < n.section_items@.len() && #[trigger] n.section_items@[i] is Section implies n.section_items@[i]->Section_0.kind
        != SectionKind::Real by {
        if o.par.items@.len() > 0 && o.quotes@.len() == 0 && i < o.section_items@.len() {
            assert(n.section_items@[i] == o.section_items@[i]);
        }
    }
}

/// Closing a quote or footnote keeps every section a quote or a footnote.
pub proof fn lemma_close_keeps_no_real(o: DocBuilder, n: DocBuilder)
    requires
        DocBuilder::closes_to(o, n),
        no_real_sections(o),
    ensures
        no_real_sections(n),
{
    let m = choose|m: DocBuilder| DocBuilder::par_flush_rel(o, m) && #[trigger] DocBuilder::close_rel(m, n);
    lemma_flush_keeps_no_real(o, m);
    if m.quotes@.len() >= 2 {
        let k = m.quotes@.len() - 2;
        assert forall|i: int| 0 <= i < n.quotes@.len() implies (#[trigger] n.quotes@[i]).kind != SectionKind::Real by {
            if i < k {
                assert(n.quotes@[i] == n.quotes@.subrange(0, k)[i]);
                assert(m.quotes@[i] == m.quotes@.subrange(0, k)[i]);
            } else {
                assert(m.quotes@[k].kind != SectionKind::Real);
            }
        }
    } else if m.quotes@.len() == 1 {
        assert(m.quotes@[0] == m.quotes@.last());
        assert forall|i: int|
            0 <= i < n.section_items@.len() && #[trigger] n.section_items@[i] is Section implies n.section_items@[i]->Section_0.kind
            != SectionKind::Real by {
            if i < m.section_items@.len() {
                assert(n.section_items@[i] == m.section_items@[i]);
            }
        }
    }
}

/// A step on anything but a heading keeps every section a quote or a
/// footnote.
pub proof fn lemma_step_keeps_no_real(o: DocBuilder, e: MdEvent, n: DocBuilder)
    requires
        DocBuilder::step_rel(o, e, n),
        !(e is StartHeading),
        no_real_sections(o),
    ensures
        no_real_sections(n),
{
    let n0 = DocBuilder { seen: o.seen, ..n };
    match e {
        MdEvent::EndParagraph => {
            if o.items_open == 0 {
                lemma_flush_keeps_no_real(o, n0);
            }
        },
        MdEvent::StartFootnoteDefinition(_) | MdEvent::StartBlockQuote(_) => {
            let m = choose|m: DocBuilder|
                {
                    &&& #[trigger] DocBuilder::par_flush_rel(o, m)
                    &&& n0 == (DocBuilder { quotes: n0.quotes, ..m })
                    &&& n0.quotes@.len() == m.quotes@.len() + 1
                    &&& n0.quotes@.drop_last() == m.quotes@
                    &&& DocBuilder::micro_section(
                        n0.quotes@.last(),
                        if e is StartFootnoteDefinition { SectionKind::Footnote } else { SectionKind::Quote },
                        micro_level(o.quotes@.len() as int),
                        match e {
                            MdEvent::StartFootnoteDefinition(l) => Some(l@),
                            MdEvent::StartBlockQuote(Some(k)) => Some(quote_kind_word(k)),
                            _ => None,
                        },
                        match e {
                            MdEvent::StartFootnoteDefinition(_) => set!["footnote-def"@],
                            MdEvent::StartBlockQuote(Some(_)) => set!["blockquote-typed"@],
                            _ => set!["blockquote"@],
                        },
                        match e {
                            MdEvent::StartFootnoteDefinition(l) => map!["id"@ => "footnote-"@ + l@],
                            MdEvent::StartBlockQuote(Some(k)) => map!["blockquote-type"@ => quote_kind_word(k)],
                            _ => Map::empty(),
                        },
                    )
                };
            lemma_flush_keeps_no_real(o, m);
            assert forall|i: int| 0 <= i < n0.quotes@.len() implies (#[trigger] n0.quotes@[i]).kind != SectionKind::Real by {
                if i < m.quotes@.len() {
                    assert(n0.quotes@[i] == n0.quotes@.drop_last()[i]);
                }
            }
        },
        MdEvent::EndFootnoteDefinition | MdEvent::EndBlockQuote => {
            lemma_close_keeps_no_real(o, n0);
        },
        MdEvent::EndHeading => {
            if o.quotes@.len() > 0 {
                assert forall|i: int| 0 <= i < n0.quotes@.len() implies (#[trigger] n0.quotes@[i]).kind != SectionKind::Real by {
                    if i < n0.quotes@.len() - 1 {
                        assert(n0.quotes@[i] == n0.quotes@.drop_last()[i]);
                        assert(o.quotes@[i] == o.quotes@.drop_last()[i]);
                    }
                }
            }
        },
        MdEvent::EndMetadataBlock => {
            assert forall|i: int| 0 <= i < n0.doc.items@.len() implies !(#[trigger] n0.doc.items@[i] is Section) by {
                if i < o.doc.items@.len() && n0.doc.items@.len() > o.doc.items@.len() {
                    assert(n0.doc.items@[i] == n0.doc.items@.drop_last()[i]);
                }
            }
        },
        _ => {},
    }
}

/// The type of the list under construction follows `list_type_start` and
/// `list_type_step` (on which `lemma_list_checked_iff_marker` speaks): a
/// list starts numbered or not, a task marker among its items makes it
/// checked, and every other event but the end of a list keeps it.
pub proof fn lemma_step_list_type(o: DocBuilder, e: MdEvent, n: DocBuilder)
    requires
        DocBuilder::step_rel(o, e, n),
    ensures
        e is StartList ==> n.list.ltype == list_type_start(e->StartList_0),
        !(e is StartList) && !(e is EndList) ==> n.list.ltype == list_type_step(o.list.ltype, e),
{
    let n0 = DocBuilder { seen: o.seen, ..n };
    match e {
        MdEvent::StartFootnoteDefinition(_) | MdEvent::StartBlockQuote(_) => {
            let m = choose|m: DocBuilder|
                #[trigger] DocBuilder::par_flush_rel(o, m) && n0 == (DocBuilder { quotes: n0.quotes, ..m });
        },
        MdEvent::EndFootnoteDefinition | MdEvent::EndBlockQuote => {
            let m = choose|m: DocBuilder| DocBuilder::par_flush_rel(o, m) && #[trigger] DocBuilder::close_rel(m, n0);
        },
        _ => {},
    }
}

/// Opening a typed quote inside another: the new section is a quote one
/// level deeper than the sections open around it (whose headings and
/// properties stay as they were), and it carries its kind as its
/// `blockquote-type` property (`lemma_nested_typed_quotes` shows that two
/// different kinds give different values).
pub proof fn lemma_step_opens_quote(o: DocBuilder, e: MdEvent, n: DocBuilder)
    requires
        DocBuilder::step_rel(o, e, n),
        e is StartBlockQuote,
    ensures
        n.quotes@.len() == o.quotes@.len() + 1,
        n.quotes@.last().kind == SectionKind::Quote,
        n.quotes@.last().heading.level == micro_level(o.quotes@.len() as int),
        e->StartBlockQuote_0 is Some ==> n.quotes@.last().props.view() == map![
            "blockquote-type"@ => quote_kind_word(e->StartBlockQuote_0->0),
        ],
        forall|i: int|
            0 <= i < o.quotes@.len() ==> {
                &&& (#[trigger] n.quotes@[i]).kind == o.quotes@[i].kind
                &&& n.quotes@[i].heading == o.quotes@[i].heading
                &&& n.quotes@[i].props == o.quotes@[i].props
            },
{
    let n0 = DocBuilder { seen: o.seen, ..n };
    let m = choose|m: DocBuilder|
        {
            &&& #[trigger] DocBuilder::par_flush_rel(o, m)
            &&& n0 == (DocBuilder { quotes: n0.quotes, ..m })
            &&& n0.quotes@.len() == m.quotes@.len() + 1
            &&& n0.quotes@.drop_last() == m.quotes@
            &&& DocBuilder::micro_section(
                n0.quotes@.last(),
                SectionKind::Quote,
                micro_level(o.quotes@.len() as int),
                match e->StartBlockQuote_0 {
                    Some(k) => Some(quote_kind_word(k)),
                    None => None,
                },
                match e->StartBlockQuote_0 {
                    Some(_) => set!["blockquote-typed"@],
                    None => set!["blockquote"@],
                },
                match e->StartBlockQuote_0 {
                    Some(k) => map!["blockquote-type"@ => quote_kind_word(k)],
                    None => Map::empty(),
                },
            )
        };
    assert forall|i: int| 0 <= i < o.quotes@.len() implies {
        &&& (#[trigger] n.quotes@[i]).kind == o.quotes@[i].kind
        &&& n.quotes@[i].heading == o.quotes@[i].heading
        &&& n.quotes@[i].props == o.quotes@[i].props
    } by {
        assert(n.quotes@[i] == m.quotes@[i]);
        if o.par.items@.len() > 0 && i == o.quotes@.len() - 1 {
            assert(m.quotes@[i] == m.quotes@.last());
        } else if o.par.items@.len() > 0 {
            assert(m.quotes@[i] == m.quotes@.drop_last()[i]);
            assert(o.quotes@[i] == o.quotes@.drop_last()[i]);
        }
    }
}

/// `r` is the document that the pass builds from `events`: from the start
/// state, one step per event, then the end of the pass.
pub open spec fn doc_of_events(events: Seq<MdEvent>, r: Doc) -> bool {
    exists|s: Seq<DocBuilder>|
        {
            &&& s.len() == events.len() + 1
            &&& #[trigger] DocBuilder::is_start(s[0])
            &&& forall|i: int|
                0 <= i < events.len() ==> DocBuilder::step_rel(#[trigger] s[i], events[i], s[i + 1])
            &&& DocBuilder::finish_rel(s.last(), r)
        }
}

/// Builds the document for a whole stream of events, in one pass.
pub fn build_doc(events: Vec<MdEvent>) -> (r: Doc)
    ensures
        doc_of_events(events@, r),
        r.tags.wf(),
        r.props.wf(),
        (forall|i: int| 0 <= i < events@.len() ==> !(#[trigger] events@[i] is StartHeading)) ==> forall|i: int|
            0 <= i < r.items@.len() && #[trigger] r.items@[i] is Section ==> r.items@[i]->Section_0.kind
                != SectionKind::Real,
        (forall|i: int| 0 <= i < events@.len() ==> !opens_section(#[trigger] events@[i])) ==> forall|i: int|
            0 <= i < r.items@.len() ==> !(#[trigger] r.items@[i] is Section),
{
    let ghost all = events@;
    let total = events.len();
    let mut events = events;
    let mut rev: Vec<MdEvent> = Vec::new();
    while events.len() > 0
        invariant
            total == all.len(),
            events@.len() + rev@.len() == total,
            events@ == all.subrange(0, events@.len() as int),
            forall|k: int| 0 <= k < rev@.len() ==> #[trigger] rev@[k] == all[total - 1 - k],
        decreases events@.len(),
    {
        let e = events.pop().unwrap();
        rev.push(e);
    }
    let mut b = DocBuilder::new();
    let ghost mut states: Seq<DocBuilder> = seq![b];
    let mut i: usize = 0;
    while rev.len() > 0
        invariant
            states.len() == i + 1,
            DocBuilder::is_start(states[0]),
            states.last() == b,
            forall|k: int| 0 <= k < i ==> DocBuilder::step_rel(#[trigger] states[k], all[k], states[k + 1]),
            (forall|k: int| 0 <= k < total ==> !(#[trigger] all[k] is StartHeading)) ==> no_real_sections(b),
            total == all.len(),
            i + rev@.len() == total,
            forall|k: int| 0 <= k < rev@.len() ==> #[trigger] rev@[k] == all[total - 1 - k],
            b.wf(),
            b.steps() == i,
            (forall|k: int| 0 <= k < total ==> !opens_section(#[trigger] all[k])) ==> b.flat(),
        decreases rev@.len(),
    {
        let e = rev.pop().unwrap();
        assert(e == all[i as int]);
        let ghost before = b;
        let ghost prev = states;
        b.step(e);
        proof {
            states = states.push(b);
            if forall|k: int| 0 <= k < total ==> !(#[trigger] all[k] is StartHeading) {
                assert(!(all[i as int] is StartHeading));
                lemma_step_keeps_no_real(before, e, b);
            }
        }
        assert forall|k: int| 0 <= k < i + 1 implies DocBuilder::step_rel(#[trigger] states[k], all[k], states[k + 1]) by {
            if k < i {
                assert(states[k] == prev[k] && states[k + 1] == prev[k + 1]);
            } else {
                assert(states[k] == before && states[k + 1] == b);
            }
        }
        i = i + 1;
    }
    let ghost last = b;
    let r = b.finish();
    assert(states.last() == last);
    assert(DocBuilder::is_start(states[0]));
    r
}

} // verus!
