use md_to_incodoc::markdown::parse_md_to_incodoc;
use md_to_incodoc::model::{
    CodeBlock, CodeModeHint, Doc, DocItem, EmStrength, EmType, Emphasis, Heading, Link, LinkItem,
    List, ListType, Nav, Paragraph, ParagraphItem, Props, Section, SectionItem, SectionKind, Table,
    TableRow, Tags, TextWithMeta,
};

fn tags(ts: &[&str]) -> Tags {
    Tags { items: ts.iter().map(|t| t.to_string()).collect() }
}

fn props(ps: &[(&str, &str)]) -> Props {
    Props { items: ps.iter().map(|(k, v)| (k.to_string(), v.to_string())).collect() }
}

fn text(s: &str) -> ParagraphItem {
    ParagraphItem::Text(s.to_string())
}

fn em(strength: EmStrength, etype: EmType, s: &str) -> ParagraphItem {
    ParagraphItem::Em(Emphasis { strength, etype, text: s.to_string(), tags: tags(&[]), props: props(&[]) })
}

fn par(items: Vec<ParagraphItem>) -> Paragraph {
    Paragraph { items, tags: tags(&[]), props: props(&[]) }
}

fn heading(level: u8, items: &[&str]) -> Heading {
    Heading { level, items: items.iter().map(|s| s.to_string()).collect(), tags: tags(&[]), props: props(&[]) }
}

fn section(level: u8, title: &str, items: Vec<SectionItem>) -> Section {
    Section { kind: SectionKind::Real, heading: heading(level, &[title]), items, tags: tags(&[]), props: props(&[]) }
}

fn sec_par(items: Vec<ParagraphItem>) -> SectionItem {
    SectionItem::Paragraph(par(items))
}

fn doc(items: Vec<DocItem>) -> Doc {
    Doc { tags: tags(&[]), props: props(&[]), items }
}

fn doc_par(items: Vec<ParagraphItem>) -> DocItem {
    DocItem::Paragraph(par(items))
}

#[test]
fn t_empty() {
    assert_eq!(parse_md_to_incodoc(""), doc(vec![]));
}

#[test]
fn t_par_c0() {
    assert_eq!(parse_md_to_incodoc("\npar par par\n        "), doc(vec![doc_par(vec![text("par par par")])]));
}

#[test]
fn t_par_c1() {
    assert_eq!(
        parse_md_to_incodoc("\npar par par\npar par par\n        "),
        doc(vec![doc_par(vec![text("par par par"), text("\n"), text("par par par")])])
    );
}

#[test]
fn t_par_c2() {
    assert_eq!(
        parse_md_to_incodoc("\npar par par\n\npar par par\n        "),
        doc(vec![doc_par(vec![text("par par par")]), doc_par(vec![text("par par par")])])
    );
}

#[test]
fn t_section_c0() {
    assert_eq!(parse_md_to_incodoc("\n# H1\n        "), doc(vec![DocItem::Section(section(0, "H1", vec![]))]));
}

#[test]
fn t_section_c1() {
    let h1 = || DocItem::Section(section(0, "H1", vec![]));
    assert_eq!(parse_md_to_incodoc("\n# H1\n# H1\n# H1\n        "), doc(vec![h1(), h1(), h1()]));
}

#[test]
fn t_section_c2() {
    assert_eq!(parse_md_to_incodoc("\n## H2\n        "), doc(vec![DocItem::Section(section(1, "H2", vec![]))]));
}

#[test]
fn t_section_c6() {
    assert_eq!(parse_md_to_incodoc("\n###### H6\n        "), doc(vec![DocItem::Section(section(5, "H6", vec![]))]));
}

#[test]
fn t_section_c7() {
    assert_eq!(parse_md_to_incodoc("\n####### H7\n        "), doc(vec![doc_par(vec![text("####### H7")])]));
}

#[test]
fn t_section_c8() {
    let h6 = section(5, "H6", vec![]);
    let h5 = section(4, "H5", vec![SectionItem::Section(h6)]);
    let h4 = section(3, "H4", vec![SectionItem::Section(h5)]);
    let h3 = section(2, "H3", vec![SectionItem::Section(h4)]);
    let h2 = section(1, "H2", vec![SectionItem::Section(h3)]);
    let h1 = section(0, "H1", vec![SectionItem::Section(h2)]);
    assert_eq!(
        parse_md_to_incodoc("\n# H1\n## H2\n### H3\n#### H4\n##### H5\n###### H6\n        "),
        doc(vec![DocItem::Section(h1)])
    );
}

#[test]
fn t_section_c9() {
    let p = || sec_par(vec![text("par")]);
    let h6 = section(5, "H6", vec![p()]);
    let h3 = section(2, "H3", vec![p(), SectionItem::Section(h6)]);
    let h4 = section(3, "H4", vec![p()]);
    let h2 = section(1, "H2", vec![p(), SectionItem::Section(h4), SectionItem::Section(h3)]);
    let h1 = section(0, "H1", vec![p(), SectionItem::Section(h2)]);
    let h2b = section(1, "H2", vec![p()]);
    let h1b = section(0, "H1", vec![p(), SectionItem::Section(h2b)]);
    assert_eq!(
        parse_md_to_incodoc(
            "\npar\n# H1\npar\n## H2\npar\n#### H4\npar\n### H3\npar\n###### H6\npar\n# H1\npar\n## H2\npar\n        "
        ),
        doc(vec![doc_par(vec![text("par")]), DocItem::Section(h1), DocItem::Section(h1b)])
    );
}

#[test]
fn skipped_levels_nest_under_the_first_heading() {
    let h4 = section(3, "H4", vec![]);
    let h3 = section(2, "H3", vec![]);
    let h1 = section(0, "H1", vec![SectionItem::Section(h4), SectionItem::Section(h3)]);
    assert_eq!(parse_md_to_incodoc("# H1\n#### H4\n### H3\n"), doc(vec![DocItem::Section(h1)]));
}

#[test]
fn text_without_headings_gives_no_sections() {
    let d = parse_md_to_incodoc("one *two*\n\n- three\n- four\n\n`five`\n");
    assert!(!d.items.is_empty());
    assert!(d.items.iter().all(|i| !matches!(i, DocItem::Section(_))));
}

#[test]
fn t_heading_meta_c0() {
    let mut h = section(0, "H1", vec![]);
    h.heading.props = props(&[("id", "id")]);
    assert_eq!(parse_md_to_incodoc("\n# H1 { #id }\n        "), doc(vec![DocItem::Section(h)]));
}

#[test]
fn t_heading_meta_c1() {
    let mut h = section(0, "H1", vec![]);
    h.heading.tags = tags(&["class0", "class1"]);
    assert_eq!(parse_md_to_incodoc("\n# H1 { .class0 .class1 }\n        "), doc(vec![DocItem::Section(h)]));
}

#[test]
fn t_emphasis_c4() {
    assert_eq!(
        parse_md_to_incodoc("\npre *a* int **a** int ***a*** int ~~a~~ post\n        "),
        doc(vec![doc_par(vec![
            text("pre "),
            em(EmStrength::Light, EmType::Emphasis, "a"),
            text(" int "),
            em(EmStrength::Medium, EmType::Emphasis, "a"),
            text(" int "),
            em(EmStrength::Strong, EmType::Emphasis, "a"),
            text(" int "),
            em(EmStrength::Medium, EmType::Deemphasis, "a"),
            text(" post"),
        ])])
    );
}

#[test]
fn nested_emphasis_splits_into_adjacent_nodes() {
    assert_eq!(
        parse_md_to_incodoc("**a *b* a**"),
        doc(vec![doc_par(vec![
            em(EmStrength::Medium, EmType::Emphasis, "a "),
            em(EmStrength::Strong, EmType::Emphasis, "b"),
            em(EmStrength::Medium, EmType::Emphasis, " a"),
        ])])
    );
}

#[test]
fn t_supersub_c0() {
    let mtext = |t: &str, tag: &str| ParagraphItem::MText(TextWithMeta { text: t.to_string(), tags: tags(&[tag]), props: props(&[]) });
    assert_eq!(
        parse_md_to_incodoc("\npre ^super^ post\npre ~sub~ post\n        "),
        doc(vec![doc_par(vec![
            text("pre "),
            mtext("super", "super"),
            text(" post"),
            text("\n"),
            text("pre "),
            mtext("sub", "sub"),
            text(" post"),
        ])])
    );
}

#[test]
fn t_inlinecode_c0() {
    let code = ParagraphItem::MText(TextWithMeta { text: "code".to_string(), tags: tags(&["code"]), props: props(&[]) });
    assert_eq!(parse_md_to_incodoc("pre `code` post"), doc(vec![doc_par(vec![text("pre "), code, text(" post")])]));
}

#[test]
fn t_codeblock_c0() {
    let block = ParagraphItem::Code(CodeBlock {
        language: "rust".to_string(),
        mode: CodeModeHint::Show,
        code: "let x = 1;\n".to_string(),
        tags: tags(&[]),
        props: props(&[]),
    });
    assert_eq!(parse_md_to_incodoc("```rust\nlet x = 1;\n```\n"), doc(vec![doc_par(vec![block])]));
}

#[test]
fn task_list_is_checked() {
    let mut ticked = par(vec![text("b")]);
    ticked.tags = tags(&["checked"]);
    let list = List { ltype: ListType::Checked, items: vec![par(vec![text("a")]), ticked], tags: tags(&[]), props: props(&[]) };
    assert_eq!(parse_md_to_incodoc("- [ ] a\n- [x] b\n"), doc(vec![doc_par(vec![ParagraphItem::List(list)])]));
}

#[test]
fn list_checked_whatever_the_marker_position() {
    let first = parse_md_to_incodoc("- [x] a\n- b\n");
    let last = parse_md_to_incodoc("- b\n- [x] a\n");
    for d in [first, last] {
        match &d.items[0] {
            DocItem::Paragraph(p) => match &p.items[0] {
                ParagraphItem::List(l) => assert_eq!(l.ltype, ListType::Checked),
                other => panic!("not a list: {:?}", other),
            },
            other => panic!("not a paragraph: {:?}", other),
        }
    }
}

#[test]
fn ordered_and_bullet_lists() {
    let ordered = List { ltype: ListType::Distinct, items: vec![par(vec![text("a")]), par(vec![text("b")])], tags: tags(&[]), props: props(&[]) };
    assert_eq!(parse_md_to_incodoc("1. a\n2. b\n"), doc(vec![doc_par(vec![ParagraphItem::List(ordered)])]));
    let bullets = List { ltype: ListType::Identical, items: vec![par(vec![text("a")])], tags: tags(&[]), props: props(&[]) };
    assert_eq!(parse_md_to_incodoc("- a\n"), doc(vec![doc_par(vec![ParagraphItem::List(bullets)])]));
}

#[test]
fn nested_list_inside_item() {
    let inner = List { ltype: ListType::Identical, items: vec![par(vec![text("b")])], tags: tags(&[]), props: props(&[]) };
    let outer = List {
        ltype: ListType::Identical,
        items: vec![par(vec![text("a"), ParagraphItem::List(inner)])],
        tags: tags(&[]),
        props: props(&[]),
    };
    assert_eq!(parse_md_to_incodoc("- a\n  - b\n"), doc(vec![doc_par(vec![ParagraphItem::List(outer)])]));
}

#[test]
fn table_rows_and_header() {
    let head = TableRow { items: vec![par(vec![text("A")]), par(vec![text("B")])], is_header: true, tags: tags(&[]), props: props(&[]) };
    let body = TableRow { items: vec![par(vec![text("0")]), par(vec![text("1")])], is_header: false, tags: tags(&[]), props: props(&[]) };
    let table = Table { rows: vec![head, body], tags: tags(&[]), props: props(&[]) };
    assert_eq!(parse_md_to_incodoc("| A | B |\n|---|---|\n| 0 | 1 |\n"), doc(vec![doc_par(vec![ParagraphItem::Table(table)])]));
}

#[test]
fn t_link_c0() {
    let link = Link { items: vec![LinkItem::String("a".to_string())], url: "http://x.org".to_string(), tags: tags(&[]), props: props(&[]) };
    assert_eq!(parse_md_to_incodoc("[a](http://x.org)"), doc(vec![doc_par(vec![ParagraphItem::Link(link)])]));
}

#[test]
fn link_with_title_and_emphasis() {
    let link = Link {
        items: vec![
            LinkItem::String("a ".to_string()),
            LinkItem::Em(Emphasis { strength: EmStrength::Light, etype: EmType::Emphasis, text: "b".to_string(), tags: tags(&[]), props: props(&[]) }),
        ],
        url: "http://x.org".to_string(),
        tags: tags(&[]),
        props: props(&[("title", "t")]),
    };
    assert_eq!(parse_md_to_incodoc("[a *b*](http://x.org \"t\")"), doc(vec![doc_par(vec![ParagraphItem::Link(link)])]));
}

#[test]
fn t_image_c0() {
    let link = Link { items: vec![LinkItem::String("alt".to_string())], url: "p.png".to_string(), tags: tags(&["image"]), props: props(&[]) };
    assert_eq!(parse_md_to_incodoc("![alt](p.png)"), doc(vec![doc_par(vec![ParagraphItem::Link(link)])]));
}

#[test]
fn t_html_c0() {
    assert_eq!(
        parse_md_to_incodoc("\npre <p><a>a</a><a>b</a></p> post\n        "),
        doc(vec![doc_par(vec![
            text("pre "),
            em(EmStrength::Light, EmType::Deemphasis, "html("),
            text("a"),
            text("b"),
            em(EmStrength::Light, EmType::Deemphasis, ")"),
            text(" post"),
        ])])
    );
}

#[test]
fn t_math_c0() {
    let math = ParagraphItem::MText(TextWithMeta { text: "x^2".to_string(), tags: tags(&["latex-math"]), props: props(&[]) });
    assert_eq!(parse_md_to_incodoc("pre $x^2$ post"), doc(vec![doc_par(vec![text("pre "), math, text(" post")])]));
}

#[test]
fn t_footnote_c0() {
    let link = Link {
        items: vec![LinkItem::String("[^0]".to_string())],
        url: "#footnote-0".to_string(),
        tags: tags(&["footnote-ref"]),
        props: props(&[]),
    };
    assert_eq!(
        parse_md_to_incodoc("\nfootnote [^0]\n        "),
        doc(vec![doc_par(vec![text("footnote "), ParagraphItem::Link(link)])])
    );
}

#[test]
fn t_footnote_c1() {
    let def = Section {
        kind: SectionKind::Footnote,
        heading: heading(0, &["0"]),
        items: vec![sec_par(vec![text("footnote def")])],
        tags: tags(&["footnote-def"]),
        props: props(&[("id", "footnote-0")]),
    };
    assert_eq!(parse_md_to_incodoc("\n[^0]: footnote def\n        "), doc(vec![DocItem::Section(def)]));
}

#[test]
fn t_quote_c0() {
    let q = Section {
        kind: SectionKind::Quote,
        heading: heading(0, &[]),
        items: vec![sec_par(vec![text("quote")])],
        tags: tags(&["blockquote"]),
        props: props(&[]),
    };
    assert_eq!(parse_md_to_incodoc("\n> quote\n        "), doc(vec![DocItem::Section(q)]));
}

#[test]
fn empty_quote_is_dropped() {
    assert_eq!(parse_md_to_incodoc(">\n"), doc(vec![]));
}

#[test]
fn t_quote_c3_note() {
    let q = Section {
        kind: SectionKind::Quote,
        heading: heading(0, &["Note"]),
        items: vec![sec_par(vec![text("quote")])],
        tags: tags(&["blockquote-typed"]),
        props: props(&[("blockquote-type", "Note")]),
    };
    assert_eq!(
        parse_md_to_incodoc("\nline\n> [!NOTE]\n> quote\n\nline\n        "),
        doc(vec![doc_par(vec![text("line")]), DocItem::Section(q), doc_par(vec![text("line")])])
    );
}

#[test]
fn t_quote_c4() {
    let tip = Section {
        kind: SectionKind::Quote,
        heading: heading(1, &["Tip"]),
        items: vec![sec_par(vec![text("quote")])],
        tags: tags(&["blockquote-typed"]),
        props: props(&[("blockquote-type", "Tip")]),
    };
    let note = Section {
        kind: SectionKind::Quote,
        heading: heading(0, &["Note"]),
        items: vec![sec_par(vec![text("quote")]), SectionItem::Section(tip)],
        tags: tags(&["blockquote-typed"]),
        props: props(&[("blockquote-type", "Note")]),
    };
    assert_eq!(
        parse_md_to_incodoc("\nline\n> [!Note]\n> quote\n> > [!TIP]\n> > quote\n\nline\n        "),
        doc(vec![doc_par(vec![text("line")]), DocItem::Section(note), doc_par(vec![text("line")])])
    );
}

#[test]
fn t_metadata_block_c1() {
    let mut expected = doc(vec![]);
    expected.tags = tags(&["a"]);
    assert_eq!(parse_md_to_incodoc("\n+++\ntags a\n+++\n        "), expected);
}

#[test]
fn metadata_tags_and_prop() {
    let mut expected = doc(vec![]);
    expected.tags = tags(&["a", "b", "c"]);
    expected.props = props(&[("k", "v")]);
    assert_eq!(parse_md_to_incodoc("+++\ntags a b c\nprop k v\n+++\n"), expected);
}

#[test]
fn t_metadata_block_c3() {
    let mut expected = doc(vec![]);
    expected.tags = tags(&["a", "b", "c", "d", "e"]);
    assert_eq!(parse_md_to_incodoc("\n+++\ntags a b c\ntags d e\n+++\n        "), expected);
}

#[test]
fn t_metadata_block_c4() {
    let mut expected = doc(vec![]);
    expected.props = props(&[("p0", "v0"), ("p1", "v1")]);
    assert_eq!(parse_md_to_incodoc("\n+++\nprop p0 v0\nprop p1 v1\n+++\n        "), expected);
}

fn nav(description: &str, links: Vec<Link>, subs: Vec<Nav>) -> Nav {
    Nav { description: description.to_string(), links, subs, tags: tags(&[]), props: props(&[]) }
}

fn nav_link(title: &str, url: &str) -> Link {
    Link { items: vec![LinkItem::String(title.to_string())], url: url.to_string(), tags: tags(&[]), props: props(&[]) }
}

#[test]
fn t_metadata_block_c6() {
    let mut expected = doc(vec![DocItem::Nav(nav("", vec![], vec![]))]);
    expected.tags = tags(&["a", "b", "c"]);
    expected.props = props(&[("notanumber", "0")]);
    assert_eq!(
        parse_md_to_incodoc("\n+++\ntags a b c\nprop notanumber 0\nthis will be ignored\nnav\nend\n+++\n        "),
        expected
    );
}

#[test]
fn t_metadata_block_c11() {
    let a = nav(
        "a a a",
        vec![nav_link("title 0", "dest 0"), nav_link("title 1", "dest 1")],
        vec![nav("b b b", vec![], vec![]), nav("c c c", vec![nav_link("title 2", "dest 2")], vec![])],
    );
    let input = "\n+++\nnav\n  nav a a a\n    link title 0 $ dest 0\n    nav b b b\n    end\n    link title 1 $ dest 1\n    nav c c c\n      link title 2 $ dest 2\n    end\n  end\nend\n+++\n        ";
    assert_eq!(parse_md_to_incodoc(input), doc(vec![DocItem::Nav(nav("", vec![], vec![a]))]));
}

#[test]
fn only_the_first_top_level_nav_is_kept() {
    let input = "+++\nnav first\nnav a\nend\nend\nnav second\nnav b\nend\nend\n+++\n";
    assert_eq!(
        parse_md_to_incodoc(input),
        doc(vec![DocItem::Nav(nav("", vec![], vec![nav("a", vec![], vec![])]))])
    );
}

#[test]
fn conversion_is_deterministic() {
    let input = "+++\ntags x\n+++\n# A\n> [!TIP]\n> q *e* ~~s~~\n\n- [x] t\n\n| a |\n|---|\n| b |\n\n## B\ntext[^n]\n\n[^n]: note\n";
    assert_eq!(parse_md_to_incodoc(input), parse_md_to_incodoc(input));
}

#[test]
fn without_headings_only_quote_and_footnote_sections() {
    let d = parse_md_to_incodoc("text\n\n> quoted\n\nmore[^a]\n\n[^a]: note\n");
    let kinds: Vec<SectionKind> = d
        .items
        .iter()
        .filter_map(|i| match i {
            DocItem::Section(s) => Some(s.kind),
            _ => None,
        })
        .collect();
    assert_eq!(kinds, vec![SectionKind::Quote, SectionKind::Footnote]);
}
