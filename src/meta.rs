//! The metadata block: a small line-oriented language of commands.
//!
//! Each line is split into words at blanks; the first word selects the
//! command, and lines with any other first word are ignored:
//! - `tags w1 w2 ...` adds each word to the document's tags;
//! - `prop key value` sets a document property (a line without a value is ignored);
//! - `nav words...` opens a navigation node described by the words;
//! - `end` closes the open node and makes it a child of the one around it;
//! - `link words... $ words...` adds a link to the open node: the words before
//!   `$` are its text, those after it its target (a line without `$` is ignored).
//! Of the nodes at the outermost level only the first is kept, without its
//! description.
use vstd::prelude::*;
use crate::model::{Doc, DocItem, Link, LinkItem, Nav, Props, Tags};

verus! {

/// Blanks separate words on a line.
pub open spec fn is_blank(c: char) -> bool {
    c == ' ' || c == '\t' || c == '\r'
}

pub open spec fn is_word_char(c: char) -> bool {
    c != '\n' && !is_blank(c)
}

/// The lines of `s`, each as the list of its words.
pub open spec fn line_words(s: Seq<char>) -> Seq<Seq<Seq<char>>>
    decreases s.len(),
{
    if s.len() == 0 {
        seq![Seq::empty()]
    } else {
        let p = line_words(s.drop_last());
        let c = s.last();
        if c == '\n' {
            p.push(Seq::empty())
        } else if is_blank(c) {
            p
        } else if s.len() >= 2 && is_word_char(s[s.len() - 2]) {
            let l = p.last();
            p.update(p.len() - 1, l.update(l.len() - 1, l.last().push(c)))
        } else {
            p.update(p.len() - 1, p.last().push(seq![c]))
        }
    }
}

/// Words joined by single spaces.
pub open spec fn join(w: Seq<Seq<char>>) -> Seq<char>
    decreases w.len(),
{
    if w.len() == 0 {
        Seq::empty()
    } else if w.len() == 1 {
        w[0]
    } else {
        join(w.drop_last()) + seq![' '] + w.last()
    }
}

/// The index of the first `$` in `w` at `i` or after, or the length of `w`.
pub open spec fn dollar_from(w: Seq<Seq<char>>, i: int) -> int
    decreases w.len() - i,
{
    if i >= w.len() {
        w.len() as int
    } else if w[i] == "$"@ {
        i
    } else {
        dollar_from(w, i + 1)
    }
}

/// A navigation node as a value: its description, its links as
/// (text, target) pairs, and its children.
pub struct NavV {
    pub description: Seq<char>,
    pub links: Seq<(Seq<char>, Seq<char>)>,
    pub subs: Seq<NavV>,
}

/// The state of a metadata block after some of its lines: the tags and
/// properties so far, the open navigation nodes around the current one, and
/// the current one (at first, the outermost implicit node).
pub struct MetaV {
    pub tags: Set<Seq<char>>,
    pub props: Map<Seq<char>, Seq<char>>,
    pub stack: Seq<NavV>,
    pub cur: NavV,
}

pub open spec fn empty_nav(description: Seq<char>) -> NavV {
    NavV { description, links: Seq::empty(), subs: Seq::empty() }
}

/// What one line of words does to the state.
pub open spec fn meta_step(st: MetaV, w: Seq<Seq<char>>) -> MetaV {
    if w.len() == 0 {
        st
    } else if w[0] == "tags"@ {
        MetaV { tags: st.tags + w.drop_first().to_set(), ..st }
    } else if w[0] == "prop"@ {
        if w.len() >= 3 {
            MetaV { props: st.props.insert(w[1], w[2]), ..st }
        } else {
            st
        }
    } else if w[0] == "nav"@ {
        MetaV { stack: st.stack.push(st.cur), cur: empty_nav(join(w.drop_first())), ..st }
    } else if w[0] == "end"@ {
        if st.stack.len() > 0 {
            let p = st.stack.last();
            MetaV { stack: st.stack.drop_last(), cur: NavV { subs: p.subs.push(st.cur), ..p }, ..st }
        } else {
            st
        }
    } else if w[0] == "link"@ {
        let d = dollar_from(w, 1);
        if d < w.len() {
            let l = (join(w.subrange(1, d)), join(w.subrange(d + 1, w.len() as int)));
            MetaV { cur: NavV { links: st.cur.links.push(l), ..st.cur }, ..st }
        } else {
            st
        }
    } else {
        st
    }
}

/// The state after all of `lines`, from `st`.
pub open spec fn meta_run(st: MetaV, lines: Seq<Seq<Seq<char>>>) -> MetaV
    decreases lines.len(),
{
    if lines.len() == 0 {
        st
    } else {
        meta_step(meta_run(st, lines.drop_last()), lines.last())
    }
}

/// The outermost node: the bottom of the stack, or the current node when
/// none is open.
pub open spec fn meta_root(st: MetaV) -> NavV {
    if st.stack.len() > 0 {
        st.stack[0]
    } else {
        st.cur
    }
}

/// The navigation tree that a block yields: the first child of the
/// outermost node, with its description cleared.
pub open spec fn meta_nav(st: MetaV) -> Option<NavV> {
    let r = meta_root(st);
    if r.subs.len() > 0 {
        Some(NavV { description: Seq::empty(), ..r.subs[0] })
    } else {
        None
    }
}

/// `l` is a link with text `p.0` and target `p.1`.
pub open spec fn link_matches(l: Link, p: (Seq<char>, Seq<char>)) -> bool {
    &&& l.url@ == p.1
    &&& l.items@.len() == 1
    &&& l.items@[0] is String
    &&& l.items@[0]->String_0@ == p.0
    &&& l.tags.items@.len() == 0
    &&& l.props.items@.len() == 0
}

/// `n` holds the navigation node `v`.
pub open spec fn nav_matches(n: Nav, v: NavV) -> bool
    decreases n,
{
    &&& n.description@ == v.description
    &&& n.tags.items@.len() == 0
    &&& n.props.items@.len() == 0
    &&& n.links@.len() == v.links.len()
    &&& forall|i: int| 0 <= i < v.links.len() ==> link_matches(#[trigger] n.links@[i], v.links[i])
    &&& n.subs@.len() == v.subs.len()
    &&& forall|i: int| 0 <= i < v.subs.len() ==> nav_matches(#[trigger] n.subs@[i], v.subs[i])
}

/// The words of a line as character sequences.
pub open spec fn words_view(w: Seq<String>) -> Seq<Seq<char>> {
    w.map_values(|x: String| x@)
}

/// The lines of words as character sequences.
pub open spec fn lines_view(v: Seq<Vec<String>>) -> Seq<Seq<Seq<char>>> {
    v.map_values(|l: Vec<String>| words_view(l@))
}

/// Splits `s` into lines, and each line into its words.
pub fn line_words_of(s: &str) -> (r: Vec<Vec<String>>)
    ensures
        lines_view(r@) == line_words(s@),
{
    let n = s.unicode_len();
    let mut lines: Vec<Vec<String>> = Vec::new();
    let mut cur: Vec<String> = Vec::new();
    let mut in_word = false;
    let mut start: usize = 0;
    let mut i: usize = 0;
    assert(words_view(cur@) =~= Seq::<Seq<char>>::empty());
    assert(lines_view(lines@).push(words_view(cur@)) =~= seq![Seq::<Seq<char>>::empty()]);
    assert(s@.take(0) =~= Seq::<char>::empty());
    while i < n
        invariant
            n == s@.len(),
            0 <= start <= i <= n,
            in_word == (i > 0 && is_word_char(s@[i - 1])),
            in_word ==> line_words(s@.take(i as int)) == lines_view(lines@).push(
                words_view(cur@).push(s@.subrange(start as int, i as int)),
            ),
            !in_word ==> line_words(s@.take(i as int)) == lines_view(lines@).push(words_view(cur@)),
        decreases n - i,
    {
        let c = s.get_char(i);
        let ghost t = s@.take(i + 1);
        assert(t.drop_last() == s@.take(i as int));
        assert(t.last() == c);
        let ghost p = line_words(s@.take(i as int));
        if c == '\n' {
            if in_word {
                let ghost before = cur@;
                cur.push(s.substring_char(start, i).to_owned());
                assert(words_view(cur@) =~= words_view(before).push(s@.subrange(start as int, i as int)));
                in_word = false;
            }
            let mut done: Vec<String> = Vec::new();
            std::mem::swap(&mut done, &mut cur);
            let ghost before = lines@;
            lines.push(done);
            assert(lines_view(lines@) =~= lines_view(before).push(words_view(done@)));
            assert(words_view(done@) =~= p.last());
            assert(words_view(cur@) =~= Seq::<Seq<char>>::empty());
            assert(line_words(t) == p.push(Seq::empty()));
            assert(line_words(t) =~= lines_view(lines@).push(words_view(cur@)));
        } else if c == ' ' || c == '\t' || c == '\r' {
            if in_word {
                let ghost before = cur@;
                cur.push(s.substring_char(start, i).to_owned());
                assert(words_view(cur@) =~= words_view(before).push(s@.subrange(start as int, i as int)));
                in_word = false;
            }
            assert(line_words(t) =~= lines_view(lines@).push(words_view(cur@)));
        } else {
            if in_word {
                let ghost l = p.last();
                assert(l =~= words_view(cur@).push(s@.subrange(start as int, i as int)));
                assert(t[t.len() - 2] == s@[i - 1]);
                assert(line_words(t) == p.update(p.len() - 1, l.update(l.len() - 1, l.last().push(c))));
                assert(s@.subrange(start as int, i + 1) =~= s@.subrange(start as int, i as int).push(c));
                assert(l.update(l.len() - 1, l.last().push(c)) =~= words_view(cur@).push(
                    s@.subrange(start as int, i + 1),
                ));
                assert(s@.subrange(start as int, i + 1) =~= s@.subrange(start as int, i as int).push(c));
                assert(line_words(t) =~= lines_view(lines@).push(
                    words_view(cur@).push(s@.subrange(start as int, i + 1)),
                ));
            } else {
                start = i;
                in_word = true;
                assert(s@.subrange(start as int, i + 1) =~= seq![c]);
                assert(line_words(t) == p.update(p.len() - 1, p.last().push(seq![c])));
                assert(line_words(t) =~= lines_view(lines@).push(
                    words_view(cur@).push(s@.subrange(start as int, i + 1)),
                ));
            }
        }
        i = i + 1;
    }
    assert(s@.take(n as int) =~= s@);
    if in_word {
        let ghost before = cur@;
        cur.push(s.substring_char(start, n).to_owned());
        assert(words_view(cur@) =~= words_view(before).push(s@.subrange(start as int, n as int)));
    }
    let ghost before = lines@;
    lines.push(cur);
    assert(lines_view(lines@) =~= line_words(s@));
    lines
}

/// Joins `w[from..to]` with single spaces.
pub fn join_words(w: &Vec<String>, from: usize, to: usize) -> (r: String)
    requires
        from <= to <= w@.len(),
    ensures
        r@ == join(words_view(w@).subrange(from as int, to as int)),
{
    let mut r = String::new();
    let mut i: usize = from;
    while i < to
        invariant
            from <= i <= to <= w@.len(),
            r@ == join(words_view(w@).subrange(from as int, i as int)),
        decreases to - i,
    {
        let ghost sub = words_view(w@).subrange(from as int, i + 1);
        assert(sub.drop_last() == words_view(w@).subrange(from as int, i as int));
        if i > from {
            proof {
                reveal_strlit(" ");
            }
            r.append(" ");
        }
        r.append(w[i].as_str());
        assert(r@ == join(sub));
        i = i + 1;
    }
    r
}

/// The state before the first line of a block, given the document's tags
/// and properties.
pub open spec fn meta_start(tags: Set<Seq<char>>, props: Map<Seq<char>, Seq<char>>) -> MetaV {
    MetaV { tags, props, stack: Seq::empty(), cur: empty_nav(Seq::empty()) }
}

/// The state of a block being read.
struct MetaBuilder {
    tags: Tags,
    props: Props,
    stack: Vec<Nav>,
    cur: Nav,
}

/// `b` holds the state `st`.
spec fn builder_matches(b: MetaBuilder, st: MetaV) -> bool {
    &&& b.tags.wf()
    &&& b.tags.view() == st.tags
    &&& b.props.wf()
    &&& b.props.view() == st.props
    &&& b.stack@.len() == st.stack.len()
    &&& forall|i: int| 0 <= i < st.stack.len() ==> nav_matches(#[trigger] b.stack@[i], st.stack[i])
    &&& nav_matches(b.cur, st.cur)
}

fn word_is(w: &String, lit: &str) -> (r: bool)
    ensures
        r == (w@ == lit@),
{
    *w == String::from_str(lit)
}

/// Carries out the command on one line of words.
fn meta_line(b: &mut MetaBuilder, w: &Vec<String>, Ghost(st): Ghost<MetaV>)
    requires
        builder_matches(*old(b), st),
    ensures
        builder_matches(*final(b), meta_step(st, words_view(w@))),
{
    let ghost wv = words_view(w@);
    let n = w.len();
    if n == 0 {
        return;
    }
    if word_is(&w[0], "tags") {
        let mut j: usize = 1;
        assert(wv.subrange(1, 1).to_set() =~= Set::<Seq<char>>::empty());
        assert(st.tags + Set::<Seq<char>>::empty() =~= st.tags);
        while j < n
            invariant
                n == w@.len(),
                wv == words_view(w@),
                1 <= j <= n,
                builder_matches(*b, MetaV { tags: st.tags + wv.subrange(1, j as int).to_set(), ..st }),
            decreases n - j,
        {
            let ghost before = b.tags.view();
            b.tags.insert(w[j].clone());
            proof {
                assert(wv.subrange(1, j + 1) =~= wv.subrange(1, j as int).push(wv[j as int]));
                wv.subrange(1, j as int).lemma_push_to_set_commute(wv[j as int]);
                assert(b.tags.view() =~= st.tags + wv.subrange(1, j + 1).to_set());
            }
            j = j + 1;
        }
        assert(wv.subrange(1, n as int) =~= wv.drop_first());
    } else if word_is(&w[0], "prop") {
        if n >= 3 {
            b.props.insert(w[1].clone(), w[2].clone());
        }
    } else if word_is(&w[0], "nav") {
        let description = join_words(w, 1, n);
        assert(wv.subrange(1, n as int) =~= wv.drop_first());
        let mut fresh = Nav::new(description);
        std::mem::swap(&mut fresh, &mut b.cur);
        b.stack.push(fresh);
        let ghost st2 = meta_step(st, wv);
        assert(b.stack@.last() == fresh);
        assert forall|i: int| 0 <= i < st2.stack.len() implies nav_matches(#[trigger] b.stack@[i], st2.stack[i]) by {
            if i < st.stack.len() {
                assert(b.stack@[i] == old(b).stack@[i]);
            }
        }
    } else if word_is(&w[0], "end") {
        if b.stack.len() > 0 {
            let ghost st2 = meta_step(st, wv);
            let mut parent = b.stack.pop().unwrap();
            std::mem::swap(&mut parent, &mut b.cur);
            let ghost subs0 = b.cur.subs@;
            b.cur.subs.push(parent);
            assert(nav_matches(b.cur, st2.cur)) by {
                assert forall|i: int| 0 <= i < st2.cur.subs.len() implies nav_matches(
                    #[trigger] b.cur.subs@[i],
                    st2.cur.subs[i],
                ) by {
                    if i < subs0.len() {
                        assert(b.cur.subs@[i] == subs0[i]);
                    }
                }
            }
            assert forall|i: int| 0 <= i < st2.stack.len() implies nav_matches(#[trigger] b.stack@[i], st2.stack[i]) by {
                assert(b.stack@[i] == old(b).stack@[i]);
            }
        }
    } else if word_is(&w[0], "link") {
        let mut d: usize = 1;
        while d < n && !word_is(&w[d], "$")
            invariant
                n == w@.len(),
                wv == words_view(w@),
                1 <= d <= n,
                dollar_from(wv, 1) == dollar_from(wv, d as int),
            decreases n - d,
        {
            d = d + 1;
        }
        if d < n {
            let text = join_words(w, 1, d);
            let url = join_words(w, d + 1, n);
            let mut items: Vec<LinkItem> = Vec::new();
            items.push(LinkItem::String(text));
            let link = Link { items, url, tags: Tags::new(), props: Props::new() };
            let ghost links0 = b.cur.links@;
            b.cur.links.push(link);
            let ghost st2 = meta_step(st, wv);
            assert(nav_matches(b.cur, st2.cur)) by {
                assert forall|i: int| 0 <= i < st2.cur.links.len() implies link_matches(
                    #[trigger] b.cur.links@[i],
                    st2.cur.links[i],
                ) by {
                    if i < links0.len() {
                        assert(b.cur.links@[i] == links0[i]);
                    }
                }
            }
        }
    }
}

/// Runs the commands of a metadata block on `doc`: its tags and properties
/// take what the block sets, and the navigation tree that the block yields,
/// if any, is appended to its items.
pub fn apply_metadata(doc: &mut Doc, block: &str)
    requires
        old(doc).tags.wf(),
        old(doc).props.wf(),
    ensures
        ({
            let st = meta_run(meta_start(old(doc).tags.view(), old(doc).props.view()), line_words(block@));
            &&& final(doc).tags.wf()
            &&& final(doc).tags.view() == st.tags
            &&& final(doc).props.wf()
            &&& final(doc).props.view() == st.props
            &&& match meta_nav(st) {
                Some(v) => {
                    &&& final(doc).items@.len() == old(doc).items@.len() + 1
                    &&& final(doc).items@.drop_last() == old(doc).items@
                    &&& final(doc).items@.last() is Nav
                    &&& nav_matches(final(doc).items@.last()->Nav_0, v)
                },
                None => final(doc).items == old(doc).items,
            }
        }),
{
    let ghost start = meta_start(doc.tags.view(), doc.props.view());
    let mut tags = Tags::new();
    let mut props = Props::new();
    std::mem::swap(&mut tags, &mut doc.tags);
    std::mem::swap(&mut props, &mut doc.props);
    let mut b = MetaBuilder { tags, props, stack: Vec::new(), cur: Nav::new(String::new()) };
    let lines = line_words_of(block);
    let ghost lv = lines_view(lines@);
    let mut k: usize = 0;
    assert(lv.take(0) =~= Seq::<Seq<Seq<char>>>::empty());
    while k < lines.len()
        invariant
            lv == lines_view(lines@),
            0 <= k <= lines@.len(),
            builder_matches(b, meta_run(start, lv.take(k as int))),
            doc.items == old(doc).items,
        decreases lines@.len() - k,
    {
        assert(lv.take(k + 1).drop_last() =~= lv.take(k as int));
        meta_line(&mut b, &lines[k], Ghost(meta_run(start, lv.take(k as int))));
        k = k + 1;
    }
    assert(lv.take(k as int) =~= lv);
    let ghost st = meta_run(start, lv);
    let MetaBuilder { tags, props, stack, cur } = b;
    doc.tags = tags;
    doc.props = props;
    let mut stack = stack;
    let root = if stack.len() > 0 {
        stack.remove(0)
    } else {
        cur
    };
    assert(nav_matches(root, meta_root(st)));
    let mut subs = root.subs;
    if subs.len() > 0 {
        let mut first = subs.remove(0);
        let ghost v = meta_root(st).subs[0];
        assert(nav_matches(first, v));
        first.description = String::new();
        assert(nav_matches(first, NavV { description: Seq::empty(), ..v }));
        doc.items.push(DocItem::Nav(first));
    }
}

} // verus!
