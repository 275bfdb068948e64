//! Whitespace cleanup of an element tree.

use vstd::prelude::*;
use crate::element::{
    child_view, children_view, element_view, lemma_children_view, lemma_children_view_eq, ChildSpec,
    Element, ElementSpec, HtmlPart, HtmlPartWithLine, PartSpec,
};
use crate::text::{chars_of, string_of};

verus! {

/// Unicode's `White_Space` characters.
pub open spec fn is_white_space(c: char) -> bool {
    ||| '\u{9}' <= c <= '\u{D}'
    ||| c == ' '
    ||| c == '\u{85}'
    ||| c == '\u{A0}'
    ||| c == '\u{1680}'
    ||| '\u{2000}' <= c <= '\u{200A}'
    ||| c == '\u{2028}'
    ||| c == '\u{2029}'
    ||| c == '\u{202F}'
    ||| c == '\u{205F}'
    ||| c == '\u{3000}'
}

/// The characters trimmed off text: white space and newlines, but never the
/// non-breaking space.
pub open spec fn is_trimmed_char(c: char) -> bool {
    (is_white_space(c) || c == '\n') && c != '\u{A0}'
}

pub fn trimmed_char(c: char) -> (r: bool)
    ensures
        r == is_trimmed_char(c),
{
    let ws = ('\u{9}' <= c && c <= '\u{D}') || c == ' ' || c == '\u{85}' || c == '\u{A0}'
        || c == '\u{1680}' || ('\u{2000}' <= c && c <= '\u{200A}') || c == '\u{2028}' || c
        == '\u{2029}' || c == '\u{202F}' || c == '\u{205F}' || c == '\u{3000}';
    (ws || c == '\n') && c != '\u{A0}'
}

pub open spec fn trim_start(s: Seq<char>) -> Seq<char>
    decreases s.len(),
{
    if s.len() > 0 && is_trimmed_char(s[0]) {
        trim_start(s.drop_first())
    } else {
        s
    }
}

pub open spec fn trim_end(s: Seq<char>) -> Seq<char>
    decreases s.len(),
{
    if s.len() > 0 && is_trimmed_char(s.last()) {
        trim_end(s.drop_last())
    } else {
        s
    }
}

/// `s` without the trimmed characters at either end.
pub open spec fn trim(s: Seq<char>) -> Seq<char> {
    trim_end(trim_start(s))
}

/// `s` without the trimmed characters at either end.
pub fn trim_text(s: &str) -> (r: String)
    ensures
        r@ == trim(s@),
{
    let cs = chars_of(s);
    let n = cs.len();
    let mut i: usize = 0;
    assert(cs@.subrange(0, n as int) =~= cs@);
    while i < n && trimmed_char(cs[i])
        invariant
            n == cs@.len(),
            cs@ == s@,
            i <= n,
            trim_start(s@) == trim_start(cs@.subrange(i as int, n as int)),
        decreases n - i,
    {
        assert(cs@.subrange(i as int, n as int).drop_first() =~= cs@.subrange(i + 1, n as int));
        i = i + 1;
    }
    assert(trim_start(s@) == cs@.subrange(i as int, n as int));
    let mut j: usize = n;
    while j > i && trimmed_char(cs[j - 1])
        invariant
            i <= j <= n,
            n == cs@.len(),
            trim(s@) == trim_end(cs@.subrange(i as int, j as int)),
        decreases j,
    {
        assert(cs@.subrange(i as int, j as int).drop_last() =~= cs@.subrange(i as int, j - 1));
        j = j - 1;
    }
    string_of(cs.as_slice(), i, j)
}

/// What has been gathered while walking the children of an element.
pub struct CleanState {
    pub out: Seq<ChildSpec>,
    pub text: Seq<char>,
    pub line: Option<usize>,
}

/// The children after walking `cs`, before the last run of text is flushed.
pub open spec fn clean_walk(cs: Seq<ChildSpec>) -> CleanState
    decreases cs,
{
    if cs.len() == 0 {
        CleanState { out: Seq::empty(), text: Seq::empty(), line: None }
    } else {
        let st = clean_walk(cs.drop_last());
        let c = cs.last();
        match c.part {
            PartSpec::Text(t) => CleanState {
                out: st.out,
                text: st.text + t,
                line: if st.line is None { Some(c.line) } else { st.line },
            },
            PartSpec::Element(e) => {
                let t = trim(st.text);
                if t.len() > 0 {
                    CleanState {
                        out: st.out.push(ChildSpec { part: PartSpec::Text(t), line: st.line->0 }).push(
                            ChildSpec { part: PartSpec::Element(clean_spec(e)), line: c.line },
                        ),
                        text: Seq::empty(),
                        line: None,
                    }
                } else {
                    CleanState {
                        out: st.out.push(ChildSpec { part: PartSpec::Element(clean_spec(e)), line: c.line }),
                        text: t,
                        line: None,
                    }
                }
            },
        }
    }
}

/// The children once the last run of text is flushed.
pub open spec fn flush(st: CleanState) -> Seq<ChildSpec> {
    let t = trim(st.text);
    if t.len() > 0 {
        st.out.push(ChildSpec { part: PartSpec::Text(t), line: st.line->0 })
    } else {
        st.out
    }
}

/// The element with adjacent texts joined and trimmed, empty texts dropped,
/// at every depth.
pub open spec fn clean_spec(e: ElementSpec) -> ElementSpec
    decreases e,
{
    ElementSpec { children: flush(clean_walk(e.children)), ..e }
}

/// Text that needs no more trimming.
pub open spec fn text_is_clean(t: Seq<char>) -> bool {
    t.len() > 0 && trim(t) == t
}

/// No two adjacent texts and no text that trims to nothing, at every depth.
pub open spec fn is_clean(e: ElementSpec) -> bool
    decreases e,
{
    &&& forall|i: int|
        0 <= i < e.children.len() && #[trigger] e.children[i].part is Text ==> text_is_clean(
            e.children[i].part->Text_0,
        )
    &&& forall|i: int|
        0 <= i < e.children.len() - 1 ==> !(#[trigger] e.children[i].part is Text
            && e.children[i + 1].part is Text)
    &&& forall|i: int|
        0 <= i < e.children.len() && #[trigger] e.children[i].part is Element ==> is_clean(
            e.children[i].part->Element_0,
        )
}

impl Element {
    /// Joins adjacent texts, trims each run of text and drops the runs that
    /// trim to nothing, in this element and every element below it.
    pub fn clean_text(&mut self)
        ensures
            element_view(*final(self)) == clean_spec(element_view(*old(self))),
        decreases element_view(*old(self)),
    {
        let ghost orig = children_view(self.children@);
        proof {
            lemma_children_view(self.children@);
        }
        let mut pending: Vec<HtmlPartWithLine> = Vec::new();
        std::mem::swap(&mut self.children, &mut pending);
        let n = pending.len();
        let mut rev: Vec<HtmlPartWithLine> = Vec::new();
        while pending.len() > 0
            invariant
                n == orig.len(),
                pending@.len() + rev@.len() == n,
                forall|j: int| 0 <= j < pending@.len() ==> child_view(#[trigger] pending@[j]) == orig[j],
                forall|j: int| 0 <= j < rev@.len() ==> child_view(#[trigger] rev@[j]) == orig[n - 1 - j],
            decreases pending@.len(),
        {
            let c = pending.pop().unwrap();
            rev.push(c);
        }
        let mut out: Vec<HtmlPartWithLine> = Vec::new();
        let mut text = String::new();
        let mut line: Option<usize> = None;
        let mut k: usize = 0;
        assert(orig.subrange(0, 0) =~= Seq::<ChildSpec>::empty());
        assert forall|j: int| 0 <= j < orig.len() && (#[trigger] orig[j]).part is Element implies decreases_to!(element_view(*old(self)) => orig[j].part->Element_0) by {
            let ev = element_view(*old(self));
            assert(decreases_to!(ev => ev.children));
            assert(decreases_to!(ev.children => ev.children[j]));
            assert(decreases_to!(ev.children[j] => ev.children[j].part));
            assert(decreases_to!(ev.children[j].part => ev.children[j].part->Element_0));
        }
        proof {
            lemma_children_view_eq(out@, Seq::empty());
        }
        while k < n
            invariant
                n == orig.len(),
                k <= n,
                rev@.len() == n - k,
                forall|j: int| 0 <= j < rev@.len() ==> child_view(#[trigger] rev@[j]) == orig[n - 1 - j],
                clean_walk(orig.subrange(0, k as int)) == (CleanState {
                    out: children_view(out@),
                    text: text@,
                    line,
                }),
                text@.len() > 0 ==> line is Some,
                forall|j: int| 0 <= j < orig.len() ==> (#[trigger] orig[j]).part is Element
                    ==> decreases_to!(element_view(*old(self)) => orig[j].part->Element_0),
            decreases n - k,
        {
            let child = rev.pop().unwrap();
            let ghost before = clean_walk(orig.subrange(0, k as int));
            proof {
                lemma_children_view(out@);
                assert(orig.subrange(0, k + 1).drop_last() =~= orig.subrange(0, k as int));
                assert(child_view(child) == orig[k as int]);
            }
            let ghost out0 = out@;
            match child.part {
                HtmlPart::Text(t) => {
                    text.append(t.as_str());
                    if line.is_none() {
                        line = Some(child.line);
                    }
                },
                HtmlPart::Element(mut e) => {
                    let tr = trim_text(text.as_str());
                    if tr.unicode_len() > 0 {
                        out.push(HtmlPartWithLine { part: HtmlPart::Text(tr), line: line.unwrap() });
                        text = String::new();
                        line = None;
                    } else {
                        text = tr;
                        line = None;
                    }
                    e.clean_text();
                    out.push(HtmlPartWithLine { part: HtmlPart::Element(e), line: child.line });
                },
            }
            proof {
                let want = clean_walk(orig.subrange(0, k + 1)).out;
                lemma_children_view(out@);
                lemma_children_view_eq(out@, want);
            }
            k = k + 1;
        }
        proof {
            assert(orig.subrange(0, n as int) =~= orig);
            lemma_children_view(out@);
        }
        let tr = trim_text(text.as_str());
        if tr.unicode_len() > 0 {
            out.push(HtmlPartWithLine { part: HtmlPart::Text(tr), line: line.unwrap() });
        }
        proof {
            lemma_children_view(out@);
            lemma_children_view_eq(out@, flush(clean_walk(orig)));
        }
        self.children = out;
    }
}

proof fn lemma_trim_start_head(s: Seq<char>)
    ensures
        trim_start(s).len() == 0 || !is_trimmed_char(trim_start(s)[0]),
    decreases s.len(),
{
    if s.len() > 0 && is_trimmed_char(s[0]) {
        lemma_trim_start_head(s.drop_first());
    }
}

proof fn lemma_trim_end_prefix(s: Seq<char>)
    ensures
        trim_end(s).len() <= s.len(),
        trim_end(s) == s.subrange(0, trim_end(s).len() as int),
        trim_end(s).len() == 0 || !is_trimmed_char(trim_end(s).last()),
    decreases s.len(),
{
    if s.len() > 0 && is_trimmed_char(s.last()) {
        lemma_trim_end_prefix(s.drop_last());
        assert(s.drop_last().subrange(0, trim_end(s).len() as int) =~= s.subrange(
            0,
            trim_end(s).len() as int,
        ));
    } else {
        assert(s.subrange(0, s.len() as int) =~= s);
    }
}

/// Trimming twice trims no more than trimming once.
pub proof fn lemma_trim_idempotent(s: Seq<char>)
    ensures
        trim(trim(s)) == trim(s),
{
    let x = trim_start(s);
    let y = trim_end(x);
    lemma_trim_start_head(s);
    lemma_trim_end_prefix(x);
    if y.len() > 0 {
        assert(y[0] == x[0]);
    }
    assert(trim_start(y) == y);
    assert(trim_end(y) == y);
}

proof fn lemma_walk_clean(cs: Seq<ChildSpec>)
    ensures
        ({
            let st = clean_walk(cs);
            &&& forall|i: int|
                0 <= i < st.out.len() && #[trigger] st.out[i].part is Text ==> text_is_clean(
                    st.out[i].part->Text_0,
                )
            &&& forall|i: int|
                0 <= i < st.out.len() - 1 ==> !(#[trigger] st.out[i].part is Text
                    && st.out[i + 1].part is Text)
            &&& forall|i: int|
                0 <= i < st.out.len() && #[trigger] st.out[i].part is Element ==> is_clean(
                    st.out[i].part->Element_0,
                )
            &&& st.out.len() > 0 ==> st.out.last().part is Element
        }),
    decreases cs,
{
    if cs.len() > 0 {
        lemma_walk_clean(cs.drop_last());
        let st = clean_walk(cs.drop_last());
        let c = cs.last();
        assert(decreases_to!(cs => cs[cs.len() - 1]));
        match c.part {
            PartSpec::Text(t) => {},
            PartSpec::Element(e) => {
                lemma_clean_is_clean(e);
                lemma_trim_idempotent(st.text);
            },
        }
    }
}

/// After cleanup no two texts are adjacent and no text trims to nothing, at
/// every depth of the tree.
pub proof fn lemma_clean_is_clean(e: ElementSpec)
    ensures
        is_clean(clean_spec(e)),
    decreases e,
{
    lemma_walk_clean(e.children);
    let st = clean_walk(e.children);
    lemma_trim_idempotent(st.text);
}

} // verus!
