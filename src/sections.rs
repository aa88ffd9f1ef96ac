//! Nests the flat list of (heading, content) pairs gathered in one pass into
//! a tree of sections, and renumbers heading levels from 1-based source
//! levels to 0-based depths.
use vstd::prelude::*;
use crate::model::{Doc, DocItem, Heading, Props, Section, SectionItem, SectionKind, Tags};

verus! {

/// A heading with the content that follows it up to the next heading.
#[derive(Debug, PartialEq, Eq)]
pub struct PreSection {
    pub heading: Heading,
    pub items: Vec<SectionItem>,
}

/// The smallest heading level in `s`, or 255 if `s` is empty.
pub open spec fn min_level(s: Seq<PreSection>) -> u8
    decreases s.len(),
{
    if s.len() == 0 {
        255
    } else {
        let m = min_level(s.drop_last());
        if s.last().heading.level < m {
            s.last().heading.level
        } else {
            m
        }
    }
}

/// Splits `s` into runs: a new run starts at the first element and at each
/// element of level `m`; any other element joins the run before it.
pub open spec fn runs(s: Seq<PreSection>, m: u8) -> Seq<Seq<PreSection>>
    decreases s.len(),
{
    if s.len() == 0 {
        Seq::empty()
    } else {
        let r = runs(s.drop_last(), m);
        if r.len() == 0 || s.last().heading.level == m {
            r.push(seq![s.last()])
        } else {
            r.update(r.len() - 1, r.last().push(s.last()))
        }
    }
}

/// A section with a blank heading and nothing in it.
pub open spec fn is_blank_section(r: Section) -> bool {
    &&& r.kind == SectionKind::Real
    &&& r.heading.level == 0
    &&& r.heading.items@.len() == 0
    &&& r.heading.tags.items@.len() == 0
    &&& r.heading.props.items@.len() == 0
    &&& r.items@.len() == 0
    &&& r.tags.items@.len() == 0
    &&& r.props.items@.len() == 0
}

/// `r` is the tree built from `pres`: the first element gives the heading and
/// the leading items; the rest is split into runs at the smallest level among
/// them, and each run becomes one child section, in order.
pub open spec fn is_tree_of(r: Section, pres: Seq<PreSection>) -> bool
    decreases pres.len(),
{
    if pres.len() == 0 {
        is_blank_section(r)
    } else {
        let rest = pres.drop_first();
        let rs = runs(rest, min_level(rest));
        let k = pres[0].items@.len();
        &&& r.kind == SectionKind::Real
        &&& r.heading == pres[0].heading
        &&& r.tags.items@.len() == 0
        &&& r.props.items@.len() == 0
        &&& r.items@.len() == k + rs.len()
        &&& r.items@.subrange(0, k as int) == pres[0].items@
        &&& forall|j: int|
            0 <= j < rs.len() ==> {
                &&& r.items@[k + j] is Section
                &&& (#[trigger] rs[j]).len() < pres.len()
                &&& is_tree_of(r.items@[k + j]->Section_0, rs[j])
            }
    }
}

/// Every run is non-empty and no longer than the whole; there are runs
/// exactly when there are elements.
pub proof fn lemma_runs_shape(s: Seq<PreSection>, m: u8)
    ensures
        (runs(s, m).len() == 0) == (s.len() == 0),
        forall|j: int|
            0 <= j < runs(s, m).len() ==> 0 < (#[trigger] runs(s, m)[j]).len() <= s.len(),
        runs(s, m).len() <= s.len(),
    decreases s.len(),
{
    if s.len() > 0 {
        lemma_runs_shape(s.drop_last(), m);
    }
}

/// With no heading, building the tree changes nothing: the one pre-section's
/// items become the tree's items, and no nested section is made.
pub proof fn lemma_single_pre_section(r: Section, pres: Seq<PreSection>)
    requires
        pres.len() == 1,
        is_tree_of(r, pres),
    ensures
        r.items@ == pres[0].items@,
{
    assert(runs(pres.drop_first(), min_level(pres.drop_first())).len() == 0);
    assert(r.items@ =~= r.items@.subrange(0, pres[0].items@.len() as int));
}

/// The views of a list of vectors.
pub open spec fn vec_views(b: Seq<Vec<PreSection>>) -> Seq<Seq<PreSection>> {
    b.map_values(|v: Vec<PreSection>| v@)
}

fn blank_section() -> (r: Section)
    ensures
        is_blank_section(r),
{
    Section {
        kind: SectionKind::Real,
        heading: Heading::new(),
        items: Vec::new(),
        tags: Tags::new(),
        props: Props::new(),
    }
}

/// Builds the section tree out of the pre-sections, in document order.
pub fn pre_sections_to_sections(input: Vec<PreSection>) -> (r: Section)
    ensures
        is_tree_of(r, input@),
    decreases input@.len(),
{
    let mut pres = input;
    if pres.len() == 0 {
        return blank_section();
    }
    let ghost all = pres@;
    assert(all.len() <= usize::MAX);
    let mut min: u8 = 255;
    let mut i: usize = 1;
    while i < pres.len()
        invariant
            pres@ == all,
            1 <= i <= all.len(),
            min == min_level(all.subrange(1, i as int)),
        decreases all.len() - i,
    {
        assert(all.subrange(1, i + 1).drop_last() == all.subrange(1, i as int));
        if pres[i].heading.level < min {
            min = pres[i].heading.level;
        }
        i = i + 1;
    }
    assert(all.subrange(1, all.len() as int) == all.drop_first());
    let first = pres.remove(0);
    let ghost rest = pres@;
    let mut buckets: Vec<Vec<PreSection>> = Vec::new();
    let mut bucket: Vec<PreSection> = Vec::new();
    let mut n: usize = 0;
    while pres.len() > 0
        invariant
            all.len() >= 1,
            all.len() <= usize::MAX,
            rest == all.drop_first(),
            0 <= n <= rest.len(),
            n + pres@.len() == rest.len(),
            pres@ == rest.subrange(n as int, rest.len() as int),
            (bucket@.len() == 0) == (n == 0),
            runs(rest.take(n as int), min) == (if n == 0 {
                vec_views(buckets@)
            } else {
                vec_views(buckets@).push(bucket@)
            }),
        decreases pres@.len(),
    {
        let pre = pres.remove(0);
        let ghost s = rest.take(n + 1);
        assert(s.drop_last() == rest.take(n as int));
        assert(s.last() == pre);
        let ghost r0 = runs(rest.take(n as int), min);
        if bucket.len() > 0 && pre.heading.level == min {
            let mut done: Vec<PreSection> = Vec::new();
            std::mem::swap(&mut done, &mut bucket);
            let ghost pb = buckets@;
            buckets.push(done);
            assert(vec_views(buckets@) =~= vec_views(pb).push(done@));
            bucket.push(pre);
            assert(bucket@ =~= seq![pre]);
            assert(runs(s, min) == r0.push(seq![pre]));
        } else if bucket.len() == 0 {
            bucket.push(pre);
            assert(bucket@ =~= seq![pre]);
            assert(runs(s, min) == r0.push(seq![pre]));
        } else {
            let ghost ob = bucket@;
            bucket.push(pre);
            assert(runs(s, min) == r0.update(r0.len() - 1, r0.last().push(pre)));
            assert(r0.last() == ob);
        }
        n = n + 1;
        assert(runs(rest.take(n as int), min) =~= vec_views(buckets@).push(bucket@));
    }
    proof {
        assert(rest.take(n as int) == rest);
        lemma_runs_shape(rest, min);
    }
    if bucket.len() > 0 {
        buckets.push(bucket);
    }
    let ghost rs = runs(rest, min);
    assert(vec_views(buckets@) =~= rs);
    let ghost k = first.items@.len();
    let mut items = first.items;
    let mut j: usize = 0;
    let ghost all_buckets = buckets@;
    while buckets.len() > 0
        invariant
            rs == runs(rest, min),
            rs.len() <= rest.len(),
            all == input@,
            all.len() >= 1,
            all.len() <= usize::MAX,
            rest == all.drop_first(),
            all_buckets.len() == rs.len(),
            j + buckets@.len() == all_buckets.len(),
            forall|t: int| 0 <= t < rs.len() ==> 0 < (#[trigger] rs[t]).len() <= rest.len(),
            vec_views(all_buckets) == rs,
            0 <= j <= rs.len(),
            buckets@ == all_buckets.subrange(j as int, all_buckets.len() as int),
            items@.len() == k + j,
            items@.subrange(0, k as int) == first.items@,
            forall|t: int|
                0 <= t < j ==> {
                    &&& (#[trigger] items@[k + t]) is Section
                    &&& is_tree_of(items@[k + t]->Section_0, rs[t])
                },
        decreases buckets@.len(),
    {
        let b = buckets.remove(0);
        assert(b@ == rs[j as int]);
        assert(b@.len() < all.len());
        let child = pre_sections_to_sections(b);
        let ghost before = items@;
        items.push(SectionItem::Section(child));
        assert(items@.subrange(0, k as int) == before.subrange(0, k as int));
        j = j + 1;
    }
    let r = Section { kind: SectionKind::Real, heading: first.heading, items, tags: Tags::new(), props: Props::new() };
    assert(r.items@.subrange(0, k as int) == all[0].items@);
    r
}

/// The level that a heading of `kind` at source level `level` gets as a depth:
/// one less, but not below zero, for a real section; quotes and footnotes
/// keep theirs.
pub open spec fn depth_level(kind: SectionKind, level: u8) -> u8 {
    if kind == SectionKind::Real && level > 0 {
        (level - 1) as u8
    } else {
        level
    }
}

/// `r` is `s` with every real heading level below it turned into a depth.
pub open spec fn is_downgraded(r: Section, s: Section) -> bool
    decreases s,
{
    &&& r.kind == s.kind
    &&& r.heading.level == depth_level(s.kind, s.heading.level)
    &&& r.heading.items == s.heading.items
    &&& r.heading.tags == s.heading.tags
    &&& r.heading.props == s.heading.props
    &&& r.tags == s.tags
    &&& r.props == s.props
    &&& r.items@.len() == s.items@.len()
    &&& forall|i: int|
        0 <= i < s.items@.len() ==> match (#[trigger] r.items@[i], s.items@[i]) {
            (SectionItem::Paragraph(a), SectionItem::Paragraph(b)) => a == b,
            (SectionItem::Section(a), SectionItem::Section(b)) => {
                &&& decreases_to!(s => b)
                &&& is_downgraded(a, b)
            },
            _ => false,
        }
}

/// Turns the source levels of the real headings in `section` and below it
/// into depths.
pub fn downgraded_section(section: Section) -> (r: Section)
    ensures
        is_downgraded(r, section),
    decreases section,
{
    let ghost orig = section;
    let Section { kind, heading, items: mut rest, tags, props } = section;
    let mut heading = heading;
    if kind == SectionKind::Real && heading.level > 0 {
        heading.level = heading.level - 1;
    }
    let mut items: Vec<SectionItem> = Vec::new();
    let ghost all = rest@;
    let total = rest.len();
    assert(all.len() == total);
    let mut i: usize = 0;
    while rest.len() > 0
        invariant
            orig == section,
            all == orig.items@,
            all.len() <= usize::MAX,
            i + rest@.len() == all.len(),
            rest@ == all.subrange(i as int, all.len() as int),
            items@.len() == i,
            forall|t: int|
                0 <= t < i ==> match (#[trigger] items@[t], all[t]) {
                    (SectionItem::Paragraph(a), SectionItem::Paragraph(b)) => a == b,
                    (SectionItem::Section(a), SectionItem::Section(b)) => {
                        &&& decreases_to!(orig => b)
                        &&& is_downgraded(a, b)
                    },
                    _ => false,
                },
        decreases rest@.len(),
    {
        let item = rest.remove(0);
        assert(item == all[i as int]);
        match item {
            SectionItem::Paragraph(p) => {
                items.push(SectionItem::Paragraph(p));
            },
            SectionItem::Section(sub) => {
                assert(decreases_to!(orig => orig.items));
                assert(decreases_to!(orig.items => orig.items@));
                assert(decreases_to!(orig.items@ => orig.items@[i as int]));
                assert(decreases_to!(orig => sub));
                let d = downgraded_section(sub);
                items.push(SectionItem::Section(d));
            },
        }
        i = i + 1;
    }
    Section { kind, heading, items, tags, props }
}

/// `d` is the document item that section item `s` becomes at the top.
pub open spec fn is_doc_item_of(d: DocItem, s: SectionItem) -> bool {
    match (d, s) {
        (DocItem::Paragraph(a), SectionItem::Paragraph(b)) => a == b,
        (DocItem::Section(a), SectionItem::Section(b)) => is_downgraded(a, b),
        _ => false,
    }
}

/// Appends the items of the outermost section to the document's items,
/// turning heading levels into depths.
pub fn populate_doc(doc: &mut Doc, mega: Section)
    ensures
        final(doc).tags == old(doc).tags,
        final(doc).props == old(doc).props,
        final(doc).items@.len() == old(doc).items@.len() + mega.items@.len(),
        final(doc).items@.subrange(0, old(doc).items@.len() as int) == old(doc).items@,
        forall|i: int|
            0 <= i < mega.items@.len() ==> is_doc_item_of(
                #[trigger] final(doc).items@[old(doc).items@.len() + i],
                mega.items@[i],
            ),
{
    let ghost n0 = doc.items@.len();
    let ghost all = mega.items@;
    let mut rest = mega.items;
    let total = rest.len();
    assert(all.len() == total);
    let mut i: usize = 0;
    while rest.len() > 0
        invariant
            doc.tags == old(doc).tags,
            doc.props == old(doc).props,
            n0 == old(doc).items@.len(),
            all.len() <= usize::MAX,
            i + rest@.len() == all.len(),
            rest@ == all.subrange(i as int, all.len() as int),
            doc.items@.len() == n0 + i,
            doc.items@.subrange(0, n0 as int) == old(doc).items@,
            forall|t: int| 0 <= t < i ==> is_doc_item_of(#[trigger] doc.items@[n0 + t], all[t]),
        decreases rest@.len(),
    {
        let item = rest.remove(0);
        assert(item == all[i as int]);
        let ghost before = doc.items@;
        match item {
            SectionItem::Section(section) => {
                doc.items.push(DocItem::Section(downgraded_section(section)));
            },
            SectionItem::Paragraph(par) => {
                doc.items.push(DocItem::Paragraph(par));
            },
        }
        assert(doc.items@.subrange(0, n0 as int) == before.subrange(0, n0 as int));
        i = i + 1;
    }
}

/// When every element has level `m`, each element is a run of its own.
pub proof fn lemma_runs_all_at_min(s: Seq<PreSection>, m: u8)
    requires
        forall|i: int| 0 <= i < s.len() ==> #[trigger] s[i].heading.level == m,
    ensures
        runs(s, m).len() == s.len(),
        forall|j: int| 0 <= j < s.len() ==> #[trigger] runs(s, m)[j] == seq![s[j]],
    decreases s.len(),
{
    if s.len() > 0 {
        lemma_runs_all_at_min(s.drop_last(), m);
        assert(s.last().heading.level == m);
        assert forall|j: int| 0 <= j < s.len() implies #[trigger] runs(s, m)[j] == seq![s[j]] by {
            if j < s.len() - 1 {
                assert(s.drop_last()[j] == s[j]);
            }
        }
    }
}

/// When every element has level `l`, the smallest level is `l`.
pub proof fn lemma_min_level_all(s: Seq<PreSection>, l: u8)
    requires
        s.len() > 0,
        forall|i: int| 0 <= i < s.len() ==> #[trigger] s[i].heading.level == l,
    ensures
        min_level(s) == l,
    decreases s.len(),
{
    if s.len() > 1 {
        lemma_min_level_all(s.drop_last(), l);
        assert(s.last().heading.level == l);
    } else {
        assert(s.drop_last() =~= Seq::<PreSection>::empty());
        assert(min_level(Seq::<PreSection>::empty()) == 255);
        assert(s.last().heading.level == l);
    }
}

/// Headings that all have the same level become sibling sections at the
/// top, one for each heading, in order, each at that level less one and
/// with no nested section; `docs` are the document items made from the
/// tree's items.
pub proof fn lemma_same_level_headings_are_siblings(
    r: Section,
    pres: Seq<PreSection>,
    docs: Seq<DocItem>,
    l: u8,
)
    requires
        pres.len() >= 1,
        is_tree_of(r, pres),
        forall|i: int| 1 <= i < pres.len() ==> #[trigger] pres[i].heading.level == l,
        docs.len() == r.items@.len(),
        forall|i: int| 0 <= i < docs.len() ==> is_doc_item_of(#[trigger] docs[i], r.items@[i]),
    ensures
        docs.len() == pres[0].items@.len() + pres.len() - 1,
        forall|j: int|
            0 <= j < pres.len() - 1 ==> {
                let d = #[trigger] docs[pres[0].items@.len() + j];
                &&& d is Section
                &&& d->Section_0.kind == SectionKind::Real
                &&& d->Section_0.heading.level == depth_level(SectionKind::Real, l)
                &&& d->Section_0.heading.items == pres[j + 1].heading.items
                &&& d->Section_0.items@.len() == pres[j + 1].items@.len()
            },
{
    let rest = pres.drop_first();
    assert forall|i: int| 0 <= i < rest.len() implies #[trigger] rest[i].heading.level == l by {
        assert(rest[i] == pres[i + 1]);
    }
    lemma_runs_all_at_min(rest, l);
    if rest.len() > 0 {
        lemma_min_level_all(rest, l);
    }
    let k = pres[0].items@.len();
    assert forall|j: int| 0 <= j < pres.len() - 1 implies {
        let d = #[trigger] docs[k + j];
        &&& d is Section
        &&& d->Section_0.kind == SectionKind::Real
        &&& d->Section_0.heading.level == depth_level(SectionKind::Real, l)
        &&& d->Section_0.heading.items == pres[j + 1].heading.items
        &&& d->Section_0.items@.len() == pres[j + 1].items@.len()
    } by {
        let rs = runs(rest, min_level(rest));
        assert(rs[j] == seq![rest[j]]);
        let c = r.items@[k + j]->Section_0;
        assert(is_tree_of(c, rs[j]));
        let one = rs[j];
        assert(one.drop_first().len() == 0);
        assert(runs(one.drop_first(), min_level(one.drop_first())).len() == 0);
        assert(is_doc_item_of(docs[k + j], r.items@[k + j]));
    }
}

/// Levels may skip: after a heading `a`, a deeper heading `b` and then a
/// heading `c` between the two in depth (as with levels 1, 4, 3) both nest
/// as children of `a`, in order.
pub proof fn lemma_skipped_levels_nest(r: Section, pres: Seq<PreSection>)
    requires
        pres.len() == 4,
        is_tree_of(r, pres),
        pres[1].heading.level < pres[3].heading.level,
        pres[3].heading.level <= pres[2].heading.level,
    ensures
        r.items@.len() == pres[0].items@.len() + 1,
        r.items@[pres[0].items@.len() as int] is Section,
        ({
            let a = r.items@[pres[0].items@.len() as int]->Section_0;
            let ka = pres[1].items@.len() as int;
            &&& a.heading == pres[1].heading
            &&& a.items@.len() == ka + 2
            &&& a.items@[ka] is Section
            &&& a.items@[ka]->Section_0.heading == pres[2].heading
            &&& a.items@[ka + 1] is Section
            &&& a.items@[ka + 1]->Section_0.heading == pres[3].heading
        }),
{
    let rest = pres.drop_first();
    let (a, b, c) = (pres[1], pres[2], pres[3]);
    assert(rest =~= seq![a, b, c]);
    let m = a.heading.level;
    assert(rest.drop_last() =~= seq![a, b]);
    assert(rest.drop_last().drop_last() =~= seq![a]);
    assert(rest.drop_last().drop_last().drop_last() =~= Seq::<PreSection>::empty());
    assert(seq![a].drop_last() =~= Seq::<PreSection>::empty());
    assert(min_level(Seq::<PreSection>::empty()) == 255);
    assert(runs(Seq::<PreSection>::empty(), m).len() == 0);
    assert(seq![a].last() == a);
    assert(min_level(seq![a]) == m);
    assert(min_level(seq![a, b]) == m);
    assert(min_level(rest) == m);
    assert(runs(seq![a], m) =~= seq![seq![a]]);
    assert(seq![a, b].last() == b);
    assert(seq![a].push(b) =~= seq![a, b]);
    assert(runs(seq![a, b], m) == seq![seq![a]].update(0, seq![a].push(b)));
    assert(runs(seq![a, b], m) =~= seq![seq![a, b]]);
    assert(rest.last() == c);
    assert(seq![a, b].push(c) =~= seq![a, b, c]);
    assert(runs(rest, m) == seq![seq![a, b]].update(0, seq![a, b].push(c)));
    assert(runs(rest, m) =~= seq![seq![a, b, c]]);
    let k = pres[0].items@.len() as int;
    let sa = r.items@[k]->Section_0;
    assert(runs(rest, m)[0] == seq![a, b, c]);
    assert(is_tree_of(sa, seq![a, b, c]));
    let sub = seq![a, b, c];
    let rest2 = sub.drop_first();
    assert(rest2 =~= seq![b, c]);
    let m2 = c.heading.level;
    assert(rest2.drop_last() =~= seq![b]);
    assert(rest2.drop_last().drop_last() =~= Seq::<PreSection>::empty());
    assert(seq![b].drop_last() =~= Seq::<PreSection>::empty());
    assert(runs(Seq::<PreSection>::empty(), m2).len() == 0);
    assert(seq![b].last() == b);
    assert(min_level(seq![b]) == b.heading.level);
    assert(min_level(rest2) == m2);
    assert(runs(seq![b], m2) =~= seq![seq![b]]);
    assert(runs(rest2, m2) =~= seq![seq![b], seq![c]]);
    let ka = a.items@.len() as int;
    assert(runs(rest2, m2)[0] == seq![b]);
    assert(runs(rest2, m2)[1] == seq![c]);
    assert(is_tree_of(sa.items@[ka]->Section_0, seq![b]));
    assert(is_tree_of(sa.items@[ka + 1]->Section_0, seq![c]));
}

} // verus!
