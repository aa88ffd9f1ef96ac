use md_to_incodoc::builder::{build_doc, closing_tag};
use md_to_incodoc::emphasis::{classify_emphasis, finish_text_piece, script_tag_set};
use md_to_incodoc::events::MdEvent;
use md_to_incodoc::markdown::md_event;
use md_to_incodoc::meta::{apply_metadata, join_words, line_words_of};
use md_to_incodoc::model::{
    Doc, DocItem, EmStrength, EmType, Emphasis, Heading, LinkItem, List, ListType, Paragraph,
    ParagraphItem, Props, Section, SectionItem, SectionKind, Tags, TextWithMeta,
};
use md_to_incodoc::quotes::{prune, quote_kind_name, QuoteKind};
use md_to_incodoc::sections::{downgraded_section, populate_doc, pre_sections_to_sections, PreSection};
use pulldown_cmark::{CowStr, Event, HeadingLevel, Tag};

fn tags(ts: &[&str]) -> Tags {
    Tags { items: ts.iter().map(|t| t.to_string()).collect() }
}

fn props(ps: &[(&str, &str)]) -> Props {
    Props { items: ps.iter().map(|(k, v)| (k.to_string(), v.to_string())).collect() }
}

fn par(words: &[&str]) -> Paragraph {
    Paragraph { items: words.iter().map(|w| ParagraphItem::Text(w.to_string())).collect(), tags: tags(&[]), props: props(&[]) }
}

fn heading(level: u8, title: &str) -> Heading {
    Heading { level, items: vec![title.to_string()], tags: tags(&[]), props: props(&[]) }
}

fn pre(level: u8, title: &str, words: &[&str]) -> PreSection {
    PreSection { heading: heading(level, title), items: vec![SectionItem::Paragraph(par(words))] }
}

fn titles(items: &[SectionItem]) -> Vec<String> {
    items
        .iter()
        .filter_map(|i| match i {
            SectionItem::Section(s) => Some(s.heading.items.join(" ")),
            SectionItem::Paragraph(_) => None,
        })
        .collect()
}

fn child(s: &Section, i: usize) -> &Section {
    match &s.items[i] {
        SectionItem::Section(c) => c,
        other => panic!("not a section: {:?}", other),
    }
}

#[test]
fn tags_insert_keeps_members_unique() {
    let mut t = Tags::new();
    t.insert("a".to_string());
    t.insert("b".to_string());
    t.insert("a".to_string());
    assert_eq!(t, tags(&["a", "b"]));
    assert!(t.contains(&"b".to_string()));
    assert!(!t.contains(&"c".to_string()));
}

#[test]
fn props_insert_replaces_a_value() {
    let mut p = Props::new();
    p.insert("k".to_string(), "v".to_string());
    p.insert("j".to_string(), "w".to_string());
    p.insert("k".to_string(), "x".to_string());
    assert_eq!(p, props(&[("k", "x"), ("j", "w")]));
}

#[test]
fn emphasis_levels_map_to_strengths() {
    assert_eq!(classify_emphasis(1), (EmStrength::Light, EmType::Emphasis));
    assert_eq!(classify_emphasis(2), (EmStrength::Medium, EmType::Emphasis));
    assert_eq!(classify_emphasis(3), (EmStrength::Strong, EmType::Emphasis));
    assert_eq!(classify_emphasis(-1), (EmStrength::Medium, EmType::Deemphasis));
    assert_eq!(classify_emphasis(5), (EmStrength::Light, EmType::Emphasis));
    assert_eq!(script_tag_set(1), tags(&["super"]));
    assert_eq!(script_tag_set(-1), tags(&["sub"]));
    assert_eq!(script_tag_set(0), tags(&[]));
}

#[test]
fn finish_text_piece_flushes_one_node() {
    let mut s = "x".to_string();
    let mut pis = Vec::new();
    let mut lis = Vec::new();
    finish_text_piece(2, 1, false, &mut s, &mut pis, &mut lis);
    assert!(s.is_empty());
    assert!(lis.is_empty());
    assert_eq!(
        pis,
        vec![ParagraphItem::Em(Emphasis {
            strength: EmStrength::Medium,
            etype: EmType::Emphasis,
            text: "x".to_string(),
            tags: tags(&["super"]),
            props: props(&[]),
        })]
    );
    finish_text_piece(2, 1, false, &mut s, &mut pis, &mut lis);
    assert_eq!(pis.len(), 1);
    s.push_str("y");
    finish_text_piece(0, -1, false, &mut s, &mut pis, &mut lis);
    assert_eq!(
        pis[1],
        ParagraphItem::MText(TextWithMeta { text: "y".to_string(), tags: tags(&["sub"]), props: props(&[]) })
    );
    s.push_str("z");
    finish_text_piece(0, 1, true, &mut s, &mut pis, &mut lis);
    assert_eq!(lis, vec![LinkItem::String("z".to_string())]);
    assert_eq!(pis.len(), 2);
}

#[test]
fn section_tree_nests_by_local_minimum() {
    let pres = vec![
        pre(0, "", &["intro"]),
        pre(1, "a", &["1"]),
        pre(4, "b", &["2"]),
        pre(3, "c", &["3"]),
        pre(1, "d", &["4"]),
    ];
    let tree = pre_sections_to_sections(pres);
    assert_eq!(tree.items.len(), 3);
    assert_eq!(titles(&tree.items), vec!["a", "d"]);
    let a = child(&tree, 1);
    assert_eq!(titles(&a.items), vec!["b", "c"]);
    assert_eq!(child(a, 1).heading.level, 4);
    assert_eq!(child(a, 2).heading.level, 3);
}

#[test]
fn empty_pre_sections_give_a_blank_section() {
    let tree = pre_sections_to_sections(vec![]);
    assert!(tree.items.is_empty());
    assert_eq!(tree.heading, Heading::new());
}

#[test]
fn downgrade_turns_levels_into_depths() {
    let quote = Section { kind: SectionKind::Quote, heading: heading(2, "q"), items: vec![], tags: tags(&[]), props: props(&[]) };
    let inner = Section { kind: SectionKind::Real, heading: heading(0, "z"), items: vec![], tags: tags(&[]), props: props(&[]) };
    let s = Section {
        kind: SectionKind::Real,
        heading: heading(3, "h"),
        items: vec![SectionItem::Section(quote), SectionItem::Section(inner), SectionItem::Paragraph(par(&["p"]))],
        tags: tags(&[]),
        props: props(&[]),
    };
    let d = downgraded_section(s);
    assert_eq!(d.heading.level, 2);
    assert_eq!(child(&d, 0).heading.level, 2);
    assert_eq!(child(&d, 1).heading.level, 0);
    assert_eq!(d.items[2], SectionItem::Paragraph(par(&["p"])));
}

#[test]
fn populate_appends_after_existing_items() {
    let mut doc = Doc::new();
    doc.items.push(DocItem::Paragraph(par(&["first"])));
    let mega = Section {
        kind: SectionKind::Real,
        heading: Heading::new(),
        items: vec![SectionItem::Paragraph(par(&["p"])), SectionItem::Section(Section {
            kind: SectionKind::Real,
            heading: heading(1, "h"),
            items: vec![],
            tags: tags(&[]),
            props: props(&[]),
        })],
        tags: tags(&[]),
        props: props(&[]),
    };
    populate_doc(&mut doc, mega);
    assert_eq!(doc.items.len(), 3);
    match &doc.items[2] {
        DocItem::Section(s) => assert_eq!(s.heading.level, 0),
        other => panic!("not a section: {:?}", other),
    }
}

#[test]
fn prune_drops_empty_content() {
    let empty = Section { kind: SectionKind::Quote, heading: Heading::new(), items: vec![SectionItem::Paragraph(par(&[]))], tags: tags(&[]), props: props(&[]) };
    let outer = Section {
        kind: SectionKind::Quote,
        heading: Heading::new(),
        items: vec![SectionItem::Section(empty), SectionItem::Paragraph(par(&[]))],
        tags: tags(&["blockquote"]),
        props: props(&[]),
    };
    assert_eq!(prune(outer), None);
    let kept = Section {
        kind: SectionKind::Quote,
        heading: Heading::new(),
        items: vec![SectionItem::Paragraph(par(&[])), SectionItem::Paragraph(par(&["x"]))],
        tags: tags(&["blockquote"]),
        props: props(&[]),
    };
    let pruned = prune(kept).unwrap();
    assert_eq!(pruned.items, vec![SectionItem::Paragraph(par(&["x"]))]);
    assert_eq!(pruned.tags, tags(&["blockquote"]));
}

#[test]
fn quote_kinds_are_capitalised() {
    assert_eq!(quote_kind_name(QuoteKind::Note), "Note");
    assert_eq!(quote_kind_name(QuoteKind::Important), "Important");
    assert_eq!(quote_kind_name(QuoteKind::Caution), "Caution");
}

#[test]
fn lines_split_into_words() {
    let w = line_words_of("  tags a  b \n\nlink x\ty $ z");
    assert_eq!(
        w,
        vec![
            vec!["tags".to_string(), "a".to_string(), "b".to_string()],
            vec![],
            vec!["link".to_string(), "x".to_string(), "y".to_string(), "$".to_string(), "z".to_string()],
        ]
    );
    assert_eq!(line_words_of(""), vec![Vec::<String>::new()]);
}

#[test]
fn words_join_with_single_spaces() {
    let w: Vec<String> = ["a", "b", "c", "d"].iter().map(|s| s.to_string()).collect();
    assert_eq!(join_words(&w, 1, 4), "b c d");
    assert_eq!(join_words(&w, 2, 2), "");
}

#[test]
fn metadata_adds_to_existing_tags_and_props() {
    let mut doc = Doc::new();
    doc.tags.insert("x".to_string());
    apply_metadata(&mut doc, "tags a x\nprop k v\nprop k w\nprop lonely\nend\nunknown words\n");
    assert_eq!(doc.tags, tags(&["x", "a"]));
    assert_eq!(doc.props, props(&[("k", "w")]));
    assert!(doc.items.is_empty());
}

#[test]
fn metadata_link_without_dollar_is_ignored() {
    let mut doc = Doc::new();
    apply_metadata(&mut doc, "nav\nnav n\nlink a b\nlink c $ d e\nend\nend\n");
    match &doc.items[0] {
        DocItem::Nav(n) => {
            assert_eq!(n.description, "");
            assert_eq!(n.subs.len(), 1);
            assert_eq!(n.subs[0].description, "n");
            assert_eq!(n.subs[0].links.len(), 1);
            assert_eq!(n.subs[0].links[0].url, "d e");
            assert_eq!(n.subs[0].links[0].items, vec![LinkItem::String("c".to_string())]);
        },
        other => panic!("not a nav: {:?}", other),
    }
}

#[test]
fn unclosed_nav_yields_nothing() {
    let mut doc = Doc::new();
    apply_metadata(&mut doc, "nav\nnav a a a\nend\n");
    assert!(doc.items.is_empty());
}

#[test]
fn inline_html_closing_tags() {
    assert!(closing_tag("</a>"));
    assert!(!closing_tag("<a>"));
    assert!(!closing_tag("<"));
}

#[test]
fn marker_in_nested_list_marks_only_that_list() {
    let events = vec![
        MdEvent::StartList(Some(1)),
        MdEvent::StartItem,
        MdEvent::Text("a".to_string()),
        MdEvent::StartList(None),
        MdEvent::StartItem,
        MdEvent::TaskListMarker(true),
        MdEvent::Text("b".to_string()),
        MdEvent::EndItem,
        MdEvent::EndList,
        MdEvent::EndItem,
        MdEvent::EndList,
    ];
    let doc = build_doc(events);
    let mut inner_par = par(&["b"]);
    inner_par.tags = tags(&["checked"]);
    let inner = List { ltype: ListType::Checked, items: vec![inner_par], tags: tags(&[]), props: props(&[]) };
    let mut item = par(&["a"]);
    item.items.push(ParagraphItem::List(inner));
    let outer = List { ltype: ListType::Distinct, items: vec![item], tags: tags(&[]), props: props(&[]) };
    let expected_par = Paragraph { items: vec![ParagraphItem::List(outer)], tags: tags(&[]), props: props(&[]) };
    assert_eq!(doc.items, vec![DocItem::Paragraph(expected_par)]);
}

#[test]
fn nested_quotes_from_events() {
    let events = vec![
        MdEvent::StartBlockQuote(Some(QuoteKind::Warning)),
        MdEvent::StartParagraph,
        MdEvent::Text("w".to_string()),
        MdEvent::EndParagraph,
        MdEvent::StartBlockQuote(Some(QuoteKind::Tip)),
        MdEvent::StartParagraph,
        MdEvent::Text("t".to_string()),
        MdEvent::EndParagraph,
        MdEvent::EndBlockQuote,
        MdEvent::EndBlockQuote,
    ];
    let doc = build_doc(events);
    let outer = match &doc.items[0] {
        DocItem::Section(s) => s,
        other => panic!("not a section: {:?}", other),
    };
    let inner = child(outer, 1);
    assert_eq!(outer.props, props(&[("blockquote-type", "Warning")]));
    assert_eq!(inner.props, props(&[("blockquote-type", "Tip")]));
    assert_eq!(outer.heading.level + 1, inner.heading.level);
    assert_eq!(inner.kind, SectionKind::Quote);
}

#[test]
fn pulldown_events_convert() {
    let e = md_event(Event::Start(Tag::Heading { level: HeadingLevel::H3, id: Some(CowStr::Borrowed("x")), classes: vec![], attrs: vec![] }));
    assert_eq!(e, MdEvent::StartHeading { level: 3, id: Some("x".to_string()), classes: vec![], attrs: vec![] });
    assert_eq!(md_event(Event::Text(CowStr::Borrowed("hello"))), MdEvent::Text("hello".to_string()));
    assert_eq!(md_event(Event::TaskListMarker(true)), MdEvent::TaskListMarker(true));
}

#[test]
fn builder_steps_one_event_at_a_time() {
    let mut b = md_to_incodoc::builder::DocBuilder::new();
    for e in [
        MdEvent::StartParagraph,
        MdEvent::Text("a ".to_string()),
        MdEvent::StartStrong,
        MdEvent::Text("b".to_string()),
        MdEvent::EndStrong,
        MdEvent::EndParagraph,
    ] {
        b.step(e);
    }
    let doc = b.finish();
    let expected = Paragraph {
        items: vec![
            ParagraphItem::Text("a ".to_string()),
            ParagraphItem::Em(Emphasis { strength: EmStrength::Medium, etype: EmType::Emphasis, text: "b".to_string(), tags: tags(&[]), props: props(&[]) }),
        ],
        tags: tags(&[]),
        props: props(&[]),
    };
    assert_eq!(doc.items, vec![DocItem::Paragraph(expected)]);
}
