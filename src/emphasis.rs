//! Turns buffered inline text into text, tagged text or emphasis nodes.
//!
//! The emphasis level is 0 for plain text, 1 for emphasis, 2 for strong text,
//! 3 for both, and -1 for struck-through text. The script level is 0 for
//! normal text, 1 for superscript and -1 for subscript.
use vstd::prelude::*;
use crate::model::{EmStrength, EmType, Emphasis, LinkItem, ParagraphItem, Props, Tags, TextWithMeta};

verus! {

/// The strength and polarity of text written at emphasis level `em`.
pub open spec fn em_kind(em: i128) -> (EmStrength, EmType) {
    if em == 2 {
        (EmStrength::Medium, EmType::Emphasis)
    } else if em == 3 {
        (EmStrength::Strong, EmType::Emphasis)
    } else if em == -1 {
        (EmStrength::Medium, EmType::Deemphasis)
    } else {
        (EmStrength::Light, EmType::Emphasis)
    }
}

/// Each emphasis level has its strength: single emphasis is light, strong
/// is medium, both together are strong, and struck-through text is a medium
/// de-emphasis.
pub proof fn lemma_emphasis_strengths()
    ensures
        em_kind(1i128) == (EmStrength::Light, EmType::Emphasis),
        em_kind(2i128) == (EmStrength::Medium, EmType::Emphasis),
        em_kind(3i128) == (EmStrength::Strong, EmType::Emphasis),
        em_kind(-1i128) == (EmStrength::Medium, EmType::Deemphasis),
{
}

/// The tags that text written at script level `sc` carries.
pub open spec fn script_tags(sc: i128) -> Set<Seq<char>> {
    if sc == 1 {
        set!["super"@]
    } else if sc == -1 {
        set!["sub"@]
    } else {
        Set::empty()
    }
}

/// `e` is the emphasis node for `text` at levels `em` and `sc`.
pub open spec fn is_em_piece(e: Emphasis, em: i128, sc: i128, text: Seq<char>) -> bool {
    &&& (e.strength, e.etype) == em_kind(em)
    &&& e.text@ == text
    &&& e.tags.wf()
    &&& e.tags.view() == script_tags(sc)
    &&& e.props.wf()
    &&& e.props.view() == Map::<Seq<char>, Seq<char>>::empty()
}

/// `p` is the paragraph item that `text` becomes at levels `em` and `sc`.
pub open spec fn is_par_piece(p: ParagraphItem, em: i128, sc: i128, text: Seq<char>) -> bool {
    if em == 0 && sc == 0 {
        p is Text && p->Text_0@ == text
    } else if em == 0 {
        &&& p is MText
        &&& p->MText_0.text@ == text
        &&& p->MText_0.tags.wf()
        &&& p->MText_0.tags.view() == script_tags(sc)
        &&& p->MText_0.props.view() == Map::<Seq<char>, Seq<char>>::empty()
    } else {
        p is Em && is_em_piece(p->Em_0, em, sc, text)
    }
}

/// `l` is the link item that `text` becomes at levels `em` and `sc`.
pub open spec fn is_link_piece(l: LinkItem, em: i128, sc: i128, text: Seq<char>) -> bool {
    if em == 0 {
        l is String && l->String_0@ == text
    } else {
        l is Em && is_em_piece(l->Em_0, em, sc, text)
    }
}

/// The strength and polarity for emphasis level `em`.
pub fn classify_emphasis(em: i128) -> (r: (EmStrength, EmType))
    ensures
        r == em_kind(em),
{
    if em == 2 {
        (EmStrength::Medium, EmType::Emphasis)
    } else if em == 3 {
        (EmStrength::Strong, EmType::Emphasis)
    } else if em == -1 {
        (EmStrength::Medium, EmType::Deemphasis)
    } else {
        (EmStrength::Light, EmType::Emphasis)
    }
}

/// The tags for script level `sc`.
pub fn script_tag_set(sc: i128) -> (r: Tags)
    ensures
        r.wf(),
        r.view() == script_tags(sc),
{
    let mut tags = Tags::new();
    if sc == 1 {
        tags.insert(String::from_str("super"));
    } else if sc == -1 {
        tags.insert(String::from_str("sub"));
    }
    assert(tags.view() =~= script_tags(sc));
    tags
}

/// Moves the buffered text, if there is any, into one finished node: into
/// the link's items while a link is open (`lcap`), else into the paragraph's.
pub fn finish_text_piece(
    em_lvl: i128,
    sc_lvl: i128,
    lcap: bool,
    string: &mut String,
    pis: &mut Vec<ParagraphItem>,
    lis: &mut Vec<LinkItem>,
)
    ensures
        old(string)@.len() == 0 ==> {
            &&& *final(string) == *old(string)
            &&& *final(pis) == *old(pis)
            &&& *final(lis) == *old(lis)
        },
        old(string)@.len() > 0 ==> {
            &&& final(string)@.len() == 0
            &&& lcap ==> {
                &&& *final(pis) == *old(pis)
                &&& final(lis)@ == old(lis)@.push(final(lis)@.last())
                &&& is_link_piece(final(lis)@.last(), em_lvl, sc_lvl, old(string)@)
            }
            &&& !lcap ==> {
                &&& *final(lis) == *old(lis)
                &&& final(pis)@ == old(pis)@.push(final(pis)@.last())
                &&& is_par_piece(final(pis)@.last(), em_lvl, sc_lvl, old(string)@)
            }
        },
{
    if string.as_str().is_empty() {
        return;
    }
    let text = string.clone();
    *string = String::new();
    if em_lvl == 0 && sc_lvl == 0 {
        if lcap {
            lis.push(LinkItem::String(text));
        } else {
            pis.push(ParagraphItem::Text(text));
        }
        return;
    }
    let (strength, etype) = classify_emphasis(em_lvl);
    let tags = script_tag_set(sc_lvl);
    if em_lvl == 0 {
        if lcap {
            lis.push(LinkItem::String(text));
        } else {
            pis.push(ParagraphItem::MText(TextWithMeta { text, tags, props: Props::new() }));
        }
    } else {
        let em = Emphasis { strength, etype, text, tags, props: Props::new() };
        if lcap {
            lis.push(LinkItem::Em(em));
        } else {
            pis.push(ParagraphItem::Em(em));
        }
    }
}

} // verus!
