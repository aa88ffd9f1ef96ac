//! The document tree: the value that a conversion produces.
use vstd::prelude::*;

verus! {

/// A set of tags, kept as a list of distinct strings.
#[derive(Clone, Debug, PartialEq, Eq)]
pub struct Tags {
    pub items: Vec<String>,
}

impl Tags {
    /// Tags hold each string at most once.
    pub open spec fn wf(&self) -> bool {
        forall|i: int, j: int|
            0 <= i < j < self.items@.len() ==> #[trigger] self.items@[i]@ != #[trigger] self.items@[j]@
    }

    pub open spec fn has(&self, t: Seq<char>) -> bool {
        exists|i: int| 0 <= i < self.items@.len() && #[trigger] self.items@[i]@ == t
    }

    /// The tags as a set of character sequences.
    pub open spec fn view(&self) -> Set<Seq<char>> {
        Set::new(|t: Seq<char>| self.has(t))
    }

    pub fn new() -> (r: Tags)
        ensures
            r.wf(),
            r.view() == Set::<Seq<char>>::empty(),
            r.items@.len() == 0,
    {
        let r = Tags { items: Vec::new() };
        assert(r.view() =~= Set::<Seq<char>>::empty());
        r
    }

    pub fn contains(&self, t: &String) -> (r: bool)
        ensures
            r == self.has(t@),
    {
        let mut i: usize = 0;
        while i < self.items.len()
            invariant
                0 <= i <= self.items@.len(),
                forall|k: int| 0 <= k < i ==> self.items@[k]@ != t@,
            decreases self.items@.len() - i,
        {
            if self.items[i] == *t {
                return true;
            }
            i = i + 1;
        }
        false
    }

    /// Adds `t`; a tag that is present already is left as it is.
    pub fn insert(&mut self, t: String)
        requires
            old(self).wf(),
        ensures
            final(self).wf(),
            final(self).view() == old(self).view().insert(t@),
            old(self).has(t@) ==> *final(self) == *old(self),
            !old(self).has(t@) ==> final(self).items@ == old(self).items@.push(t),
    {
        if !self.contains(&t) {
            self.items.push(t);
            assert(self.view() =~= old(self).view().insert(t@)) by {
                assert(self.items@.last()@ == t@);
                assert forall|s: Seq<char>| old(self).has(s) implies self.has(s) by {
                    let k = choose|k: int| 0 <= k < old(self).items@.len() && #[trigger] old(self).items@[k]@ == s;
                    assert(self.items@[k]@ == s);
                }
                assert forall|s: Seq<char>| self.has(s) implies old(self).has(s) || s == t@ by {
                    let k = choose|k: int| 0 <= k < self.items@.len() && #[trigger] self.items@[k]@ == s;
                    if k < old(self).items@.len() {
                        assert(old(self).items@[k]@ == s);
                    }
                }
            }
        } else {
            assert(self.view() =~= old(self).view().insert(t@));
        }
    }
}

/// Properties: a map from keys to string values, kept as a list of pairs with distinct keys.
#[derive(Clone, Debug, PartialEq, Eq)]
pub struct Props {
    pub items: Vec<(String, String)>,
}

impl Props {
    /// Each key stands in at most one pair.
    pub open spec fn wf(&self) -> bool {
        forall|i: int, j: int|
            0 <= i < j < self.items@.len() ==> #[trigger] self.items@[i].0@ != #[trigger] self.items@[j].0@
    }

    pub open spec fn has_key(&self, k: Seq<char>) -> bool {
        exists|i: int| 0 <= i < self.items@.len() && #[trigger] self.items@[i].0@ == k
    }

    /// The properties as a map.
    pub open spec fn view(&self) -> Map<Seq<char>, Seq<char>> {
        Map::new(
            |k: Seq<char>| self.has_key(k),
            |k: Seq<char>|
                self.items@[choose|i: int| 0 <= i < self.items@.len() && #[trigger] self.items@[i].0@ == k].1@,
        )
    }

    pub fn new() -> (r: Props)
        ensures
            r.wf(),
            r.view() == Map::<Seq<char>, Seq<char>>::empty(),
            r.items@.len() == 0,
    {
        let r = Props { items: Vec::new() };
        assert(r.view() =~= Map::<Seq<char>, Seq<char>>::empty());
        r
    }

    /// Sets `k` to `v`, replacing the value that `k` had.
    pub fn insert(&mut self, k: String, v: String)
        requires
            old(self).wf(),
        ensures
            final(self).wf(),
            final(self).view() == old(self).view().insert(k@, v@),
    {
        let mut i: usize = 0;
        while i < self.items.len()
            invariant
                0 <= i <= self.items@.len(),
                *self == *old(self),
                old(self).wf(),
                forall|j: int| 0 <= j < i ==> self.items@[j].0@ != k@,
            decreases self.items@.len() - i,
        {
            if self.items[i].0 == k {
                let ghost before = self.items@;
                assert(before == old(self).items@);
                self.items.set(i, (k, v));
                assert forall|j: int| 0 <= j < self.items@.len() && j != i implies self.items@[j]
                    == before[j] by {}
                assert(self.view() =~= old(self).view().insert(k@, v@)) by {
                    assert forall|s: Seq<char>| #[trigger] self.has_key(s) == (old(self).has_key(s)) by {
                        if self.has_key(s) {
                            let m = choose|m: int| 0 <= m < self.items@.len() && #[trigger] self.items@[m].0@ == s;
                            assert(before[m].0@ == s);
                        }
                        if old(self).has_key(s) {
                            let m = choose|m: int| 0 <= m < before.len() && #[trigger] before[m].0@ == s;
                            assert(self.items@[m].0@ == s);
                        }
                    }
                    assert forall|s: Seq<char>| self.has_key(s) implies #[trigger] self.view()[s] == old(self).view().insert(k@, v@)[s] by {
                        let m = choose|m: int| 0 <= m < self.items@.len() && #[trigger] self.items@[m].0@ == s;
                        let m0 = choose|m: int| 0 <= m < before.len() && #[trigger] before[m].0@ == s;
                        if m != i as int {
                            assert(before[m].0@ == s);
                        }
                        if s == k@ {
                            assert(before[i as int].0@ == s);
                            if m < i as int {
                                assert(before[m].0@ != before[i as int].0@);
                            } else if m > i as int {
                                assert(before[i as int].0@ != before[m].0@);
                            }
                        } else {
                            if m < m0 {
                                assert(before[m].0@ != before[m0].0@);
                            } else if m > m0 {
                                assert(before[m0].0@ != before[m].0@);
                            }
                        }
                    }
                }
                return;
            }
            i = i + 1;
        }
        let ghost before = self.items@;
        self.items.push((k, v));
        assert(self.view() =~= old(self).view().insert(k@, v@)) by {
            assert forall|s: Seq<char>| #[trigger] self.has_key(s) == (old(self).has_key(s) || s == k@) by {
                if self.has_key(s) {
                    let m = choose|m: int| 0 <= m < self.items@.len() && #[trigger] self.items@[m].0@ == s;
                    if m < before.len() {
                        assert(before[m].0@ == s);
                    }
                }
                if old(self).has_key(s) {
                    let m = choose|m: int| 0 <= m < before.len() && #[trigger] before[m].0@ == s;
                    assert(self.items@[m].0@ == s);
                }
                if s == k@ {
                    assert(self.items@[before.len() as int].0@ == s);
                }
            }
            assert forall|s: Seq<char>| self.has_key(s) implies #[trigger] self.view()[s] == old(self).view().insert(k@, v@)[s] by {
                let m = choose|m: int| 0 <= m < self.items@.len() && #[trigger] self.items@[m].0@ == s;
                if s == k@ {
                    assert(self.items@[before.len() as int].0@ == s);
                    assert(m == before.len());
                } else {
                    let m0 = choose|m: int| 0 <= m < before.len() && #[trigger] before[m].0@ == s;
                    assert(self.items@[m0].0@ == s);
                    assert(m == m0);
                }
            }
        }
    }
}

/// How strongly a span of text is emphasised.
#[derive(Clone, Copy, Debug, PartialEq, Eq, Structural)]
pub enum EmStrength {
    Light,
    Medium,
    Strong,
}

/// Whether a span is stressed or struck through.
#[derive(Clone, Copy, Debug, PartialEq, Eq, Structural)]
pub enum EmType {
    Emphasis,
    Deemphasis,
}

/// An emphasised span of text.
#[derive(Clone, Debug, PartialEq, Eq)]
pub struct Emphasis {
    pub strength: EmStrength,
    pub etype: EmType,
    pub text: String,
    pub tags: Tags,
    pub props: Props,
}

/// Text with tags, such as inline code, inline math, superscript or subscript.
#[derive(Clone, Debug, PartialEq, Eq)]
pub struct TextWithMeta {
    pub text: String,
    pub tags: Tags,
    pub props: Props,
}

/// A piece of the visible text of a link.
#[derive(Clone, Debug, PartialEq, Eq)]
pub enum LinkItem {
    String(String),
    Em(Emphasis),
}

/// A link or an image.
#[derive(Clone, Debug, PartialEq, Eq)]
pub struct Link {
    pub items: Vec<LinkItem>,
    pub url: String,
    pub tags: Tags,
    pub props: Props,
}

/// What a reader is meant to do with a code block.
#[derive(Clone, Copy, Debug, PartialEq, Eq, Structural)]
pub enum CodeModeHint {
    Show,
    Runnable,
    Run,
    Replace,
}

/// A block of code, display math or raw html.
#[derive(Clone, Debug, PartialEq, Eq)]
pub struct CodeBlock {
    pub language: String,
    pub mode: CodeModeHint,
    pub code: String,
    pub tags: Tags,
    pub props: Props,
}

/// How the items of a list are marked.
#[derive(Clone, Copy, Debug, PartialEq, Eq, Structural)]
pub enum ListType {
    /// Every item carries the same mark (a bullet).
    Identical,
    /// Items are numbered.
    Distinct,
    /// Items are task items that can be ticked.
    Checked,
}

/// A list: one paragraph per item.
#[derive(Debug, PartialEq, Eq)]
pub struct List {
    pub ltype: ListType,
    pub items: Vec<Paragraph>,
    pub tags: Tags,
    pub props: Props,
}

/// A table row: one paragraph per cell.
#[derive(Debug, PartialEq, Eq)]
pub struct TableRow {
    pub items: Vec<Paragraph>,
    pub is_header: bool,
    pub tags: Tags,
    pub props: Props,
}

/// A table.
#[derive(Debug, PartialEq, Eq)]
pub struct Table {
    pub rows: Vec<TableRow>,
    pub tags: Tags,
    pub props: Props,
}

/// An inline piece of a paragraph.
#[derive(Debug, PartialEq, Eq)]
pub enum ParagraphItem {
    Text(String),
    MText(TextWithMeta),
    Em(Emphasis),
    Code(CodeBlock),
    Link(Link),
    List(List),
    Table(Table),
}

/// A paragraph; list items and table cells are paragraphs too.
#[derive(Debug, PartialEq, Eq)]
pub struct Paragraph {
    pub items: Vec<ParagraphItem>,
    pub tags: Tags,
    pub props: Props,
}

/// The heading of a section.
#[derive(Clone, Debug, PartialEq, Eq)]
pub struct Heading {
    pub level: u8,
    pub items: Vec<String>,
    pub tags: Tags,
    pub props: Props,
}

/// Where a section comes from.
#[derive(Clone, Copy, Debug, PartialEq, Eq, Structural)]
pub enum SectionKind {
    /// A section opened by a heading.
    Real,
    /// A block quote.
    Quote,
    /// A footnote definition.
    Footnote,
}

/// A section: a heading, then paragraphs and nested sections.
#[derive(Debug, PartialEq, Eq)]
pub struct Section {
    pub kind: SectionKind,
    pub heading: Heading,
    pub items: Vec<SectionItem>,
    pub tags: Tags,
    pub props: Props,
}

/// An item of a section.
#[derive(Debug, PartialEq, Eq)]
pub enum SectionItem {
    Paragraph(Paragraph),
    Section(Section),
}

/// A navigation node: a description, links and nested nodes.
#[derive(Debug, PartialEq, Eq)]
pub struct Nav {
    pub description: String,
    pub links: Vec<Link>,
    pub subs: Vec<Nav>,
    pub tags: Tags,
    pub props: Props,
}

/// A top-level item of a document.
#[derive(Debug, PartialEq, Eq)]
pub enum DocItem {
    Paragraph(Paragraph),
    Section(Section),
    Nav(Nav),
}

/// A whole document.
#[derive(Debug, PartialEq, Eq)]
pub struct Doc {
    pub tags: Tags,
    pub props: Props,
    pub items: Vec<DocItem>,
}

impl Paragraph {
    pub fn new() -> (r: Paragraph)
        ensures
            r.items@.len() == 0,
            r.tags.wf(),
            r.tags.items@.len() == 0,
            r.props.wf(),
            r.props.items@.len() == 0,
    {
        Paragraph { items: Vec::new(), tags: Tags::new(), props: Props::new() }
    }
}

impl Heading {
    pub fn new() -> (r: Heading)
        ensures
            r.level == 0,
            r.items@.len() == 0,
            r.tags.wf(),
            r.tags.items@.len() == 0,
            r.props.wf(),
            r.props.items@.len() == 0,
    {
        Heading { level: 0, items: Vec::new(), tags: Tags::new(), props: Props::new() }
    }
}

impl Link {
    pub fn new() -> (r: Link)
        ensures
            r.items@.len() == 0,
            r.url@.len() == 0,
            r.tags.wf(),
            r.tags.items@.len() == 0,
            r.props.wf(),
            r.props.items@.len() == 0,
    {
        Link { items: Vec::new(), url: String::new(), tags: Tags::new(), props: Props::new() }
    }
}

impl List {
    pub fn new() -> (r: List)
        ensures
            r.ltype == ListType::Identical,
            r.items@.len() == 0,
            r.tags.items@.len() == 0,
            r.props.items@.len() == 0,
    {
        List { ltype: ListType::Identical, items: Vec::new(), tags: Tags::new(), props: Props::new() }
    }
}

impl Table {
    pub fn new() -> (r: Table)
        ensures
            r.rows@.len() == 0,
            r.tags.items@.len() == 0,
            r.props.items@.len() == 0,
    {
        Table { rows: Vec::new(), tags: Tags::new(), props: Props::new() }
    }
}

impl TableRow {
    pub fn new(is_header: bool) -> (r: TableRow)
        ensures
            r.is_header == is_header,
            r.items@.len() == 0,
            r.tags.items@.len() == 0,
            r.props.items@.len() == 0,
    {
        TableRow { items: Vec::new(), is_header, tags: Tags::new(), props: Props::new() }
    }
}

impl Nav {
    pub fn new(description: String) -> (r: Nav)
        ensures
            r.description == description,
            r.links@.len() == 0,
            r.subs@.len() == 0,
            r.tags.items@.len() == 0,
            r.props.items@.len() == 0,
    {
        Nav { description, links: Vec::new(), subs: Vec::new(), tags: Tags::new(), props: Props::new() }
    }
}

impl Doc {
    pub fn new() -> (r: Doc)
        ensures
            r.items@.len() == 0,
            r.tags.wf(),
            r.tags.items@.len() == 0,
            r.props.wf(),
            r.props.items@.len() == 0,
    {
        Doc { tags: Tags::new(), props: Props::new(), items: Vec::new() }
    }
}

} // verus!
