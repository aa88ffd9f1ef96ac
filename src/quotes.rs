//! Block quotes and footnote definitions as anonymous nested sections.
//!
//! They bypass the heading-based tree: a stack holds the ones that are open,
//! innermost last; a closed one becomes an item of the one around it, and the
//! outermost one, once pruned of empty content, goes to the surrounding content.
use vstd::prelude::*;
use crate::model::{Section, SectionItem};

verus! {

/// The kinds of typed block quotes (admonitions).
#[derive(Clone, Copy, Debug, PartialEq, Eq, Structural)]
pub enum QuoteKind {
    Note,
    Tip,
    Important,
    Warning,
    Caution,
}

/// The capitalised keyword of a quote kind.
pub open spec fn quote_kind_word(k: QuoteKind) -> Seq<char> {
    match k {
        QuoteKind::Note => "Note"@,
        QuoteKind::Tip => "Tip"@,
        QuoteKind::Important => "Important"@,
        QuoteKind::Warning => "Warning"@,
        QuoteKind::Caution => "Caution"@,
    }
}

pub fn quote_kind_name(k: QuoteKind) -> (r: String)
    ensures
        r@ == quote_kind_word(k),
{
    match k {
        QuoteKind::Note => String::from_str("Note"),
        QuoteKind::Tip => String::from_str("Tip"),
        QuoteKind::Important => String::from_str("Important"),
        QuoteKind::Warning => String::from_str("Warning"),
        QuoteKind::Caution => String::from_str("Caution"),
    }
}

/// A section holds content worth keeping: a paragraph with items, or a
/// nested section that holds such content.
pub open spec fn has_content(s: Section) -> bool
    decreases s,
{
    exists|i: int|
        0 <= i < s.items@.len() && {
            ||| (#[trigger] s.items@[i] is Paragraph && s.items@[i]->Paragraph_0.items@.len() > 0)
            ||| (s.items@[i] is Section && has_content(s.items@[i]->Section_0))
        }
}

/// An item survives pruning.
pub open spec fn item_survives(x: SectionItem) -> bool {
    match x {
        SectionItem::Paragraph(p) => p.items@.len() > 0,
        SectionItem::Section(s) => has_content(s),
    }
}

/// The indices, in order, of the first `n` items that survive pruning.
pub open spec fn kept_indices(items: Seq<SectionItem>, n: int) -> Seq<int>
    decreases n,
{
    if n <= 0 {
        Seq::empty()
    } else {
        let k = kept_indices(items, n - 1);
        if item_survives(items[n - 1]) {
            k.push(n - 1)
        } else {
            k
        }
    }
}

/// `r` is `s` without its empty paragraphs and without the nested sections
/// that hold no content; the nested sections that stay are pruned too.
pub open spec fn is_pruned(r: Section, s: Section) -> bool
    decreases s,
{
    let ks = kept_indices(s.items@, s.items@.len() as int);
    &&& r.kind == s.kind
    &&& r.heading == s.heading
    &&& r.tags == s.tags
    &&& r.props == s.props
    &&& r.items@.len() == ks.len()
    &&& forall|j: int|
        0 <= j < ks.len() ==> {
            &&& 0 <= ks[j] < s.items@.len()
            &&& match #[trigger] r.items@[j] {
                SectionItem::Paragraph(a) => s.items@[ks[j]] == SectionItem::Paragraph(a),
                SectionItem::Section(a) => {
                    &&& s.items@[ks[j]] is Section
                    &&& is_pruned(a, s.items@[ks[j]]->Section_0)
                },
            }
        }
}

/// Drops empty paragraphs and sections without content from `s`; `None`
/// when nothing of `s` is left.
pub fn prune(s: Section) -> (r: Option<Section>)
    ensures
        r is Some == has_content(s),
        r is Some ==> is_pruned(r->0, s),
    decreases s,
{
    let ghost orig = s;
    let Section { kind, heading, items: mut rest, tags, props } = s;
    let ghost all = rest@;
    let total = rest.len();
    let mut items: Vec<SectionItem> = Vec::new();
    let mut i: usize = 0;
    while rest.len() > 0
        invariant
            orig == s,
            all == orig.items@,
            total == all.len(),
            i + rest@.len() == all.len(),
            rest@ == all.subrange(i as int, all.len() as int),
            items@.len() == kept_indices(all, i as int).len(),
            (items@.len() > 0) == (exists|t: int| 0 <= t < i && #[trigger] item_survives(all[t])),
            forall|j: int|
                0 <= j < items@.len() ==> {
                    let ks = kept_indices(all, i as int);
                    &&& 0 <= ks[j] < i
                    &&& match #[trigger] items@[j] {
                        SectionItem::Paragraph(a) => all[ks[j]] == SectionItem::Paragraph(a),
                        SectionItem::Section(a) => {
                            &&& all[ks[j]] is Section
                            &&& is_pruned(a, all[ks[j]]->Section_0)
                        },
                    }
                },
        decreases rest@.len(),
    {
        let item = rest.remove(0);
        assert(item == all[i as int]);
        let ghost items0 = items@;
        let ghost k0 = kept_indices(all, i as int);
        match item {
            SectionItem::Paragraph(p) => {
                if p.items.len() > 0 {
                    items.push(SectionItem::Paragraph(p));
                }
            },
            SectionItem::Section(sub) => {
                assert(decreases_to!(orig => orig.items));
                assert(decreases_to!(orig.items => orig.items@));
                assert(decreases_to!(orig.items@ => orig.items@[i as int]));
                assert(decreases_to!(orig => sub));
                match prune(sub) {
                    Some(kept) => {
                        items.push(SectionItem::Section(kept));
                    },
                    None => {},
                }
            },
        }
        proof {
            let k1 = kept_indices(all, i + 1);
            if item_survives(all[i as int]) {
                assert(k1 == k0.push(i as int));
                assert(items@.len() > 0);
            } else {
                assert(k1 == k0);
                assert(items@ == items0);
                if items@.len() > 0 {
                    let t = choose|t: int| 0 <= t < i && #[trigger] item_survives(all[t]);
                    assert(0 <= t < i + 1 && item_survives(all[t]));
                }
            }
            assert forall|j: int| 0 <= j < items@.len() implies {
                let ks = kept_indices(all, i + 1);
                &&& 0 <= ks[j] < i + 1
                &&& match #[trigger] items@[j] {
                    SectionItem::Paragraph(a) => all[ks[j]] == SectionItem::Paragraph(a),
                    SectionItem::Section(a) => {
                        &&& all[ks[j]] is Section
                        &&& is_pruned(a, all[ks[j]]->Section_0)
                    },
                }
            } by {
                if j < items0.len() {
                    assert(items@[j] == items0[j]);
                }
            }
        }
        i = i + 1;
    }
    assert(all.subrange(i as int, all.len() as int).len() == 0);
    if items.len() == 0 {
        proof {
            assert forall|t: int| 0 <= t < all.len() implies !item_survives(#[trigger] all[t]) by {}
        }
        None
    } else {
        proof {
            let t = choose|t: int| 0 <= t < i && #[trigger] item_survives(all[t]);
            assert(item_survives(orig.items@[t]));
        }
        Some(Section { kind, heading, items, tags, props })
    }
}

} // verus!
