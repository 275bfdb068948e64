//! Splitting text into literal and expression segments.

use vstd::prelude::*;
use crate::error::TemplateError;
use crate::text::{chars_of, find_from, find_in, lemma_find_from_occurs, occurs_at, string_of};

verus! {

/// Part of the template that HTML would consider text.
#[derive(Debug)]
pub enum TextPart {
    /// Regular text.
    Literal(String),
    /// A template expression: the raw identifier between the delimiters.
    Expression(String),
}

/// What a text part holds, as characters.
pub enum PartView {
    Literal(Seq<char>),
    Expression(Seq<char>),
}

impl View for TextPart {
    type V = PartView;

    open spec fn view(&self) -> PartView {
        match self {
            TextPart::Literal(t) => PartView::Literal(t@),
            TextPart::Expression(e) => PartView::Expression(e@),
        }
    }
}

pub open spec fn parts_view(ps: Seq<TextPart>) -> Seq<PartView> {
    ps.map_values(|p: TextPart| p@)
}

/// A literal part for `t`, or nothing when `t` is empty.
pub open spec fn literal_if_nonempty(t: Seq<char>) -> Seq<PartView> {
    if t.len() == 0 {
        Seq::empty()
    } else {
        seq![PartView::Literal(t)]
    }
}

/// The parts of `s` from position `pos` on, with delimiters `open` and `close`;
/// `None` when an opening delimiter has no closing one after it.
pub open spec fn parse_from(s: Seq<char>, open: Seq<char>, close: Seq<char>, pos: int) -> Option<
    Seq<PartView>,
>
    decreases s.len() - pos,
{
    if pos < 0 || pos > s.len() || open.len() == 0 {
        None
    } else {
        match find_from(s, open, pos) {
            None => Some(literal_if_nonempty(s.subrange(pos, s.len() as int))),
            Some(i) => {
                let start = i + open.len();
                if i < pos || start > s.len() {
                    None
                } else {
                    match find_from(s, close, start) {
                        None => None,
                        Some(j) => {
                            if j < start || j + close.len() > s.len() {
                                None
                            } else {
                                match parse_from(s, open, close, j + close.len()) {
                                    None => None,
                                    Some(tail) => Some(
                                        literal_if_nonempty(s.subrange(pos, i)) + seq![
                                            PartView::Expression(s.subrange(start, j)),
                                        ] + tail,
                                    ),
                                }
                            }
                        },
                    }
                }
            },
        }
    }
}

/// The parts of the whole of `s`.
pub open spec fn parse_spec(s: Seq<char>, open: Seq<char>, close: Seq<char>) -> Option<
    Seq<PartView>,
> {
    parse_from(s, open, close, 0)
}

/// The text that a sequence of parts stands for, each expression written back
/// between its delimiters.
pub open spec fn render_parts(ps: Seq<PartView>, open: Seq<char>, close: Seq<char>) -> Seq<char>
    decreases ps.len(),
{
    if ps.len() == 0 {
        Seq::empty()
    } else {
        let head = match ps[0] {
            PartView::Literal(t) => t,
            PartView::Expression(e) => open + e + close,
        };
        head + render_parts(ps.drop_first(), open, close)
    }
}

proof fn lemma_render_concat(a: Seq<PartView>, b: Seq<PartView>, open: Seq<char>, close: Seq<char>)
    ensures
        render_parts(a + b, open, close) == render_parts(a, open, close) + render_parts(
            b,
            open,
            close,
        ),
    decreases a.len(),
{
    if a.len() == 0 {
        assert(a + b =~= b);
    } else {
        assert((a + b).drop_first() =~= a.drop_first() + b);
        lemma_render_concat(a.drop_first(), b, open, close);
    }
}

proof fn lemma_render_one(p: PartView, open: Seq<char>, close: Seq<char>)
    ensures
        render_parts(seq![p], open, close) == match p {
            PartView::Literal(t) => t,
            PartView::Expression(e) => open + e + close,
        },
{
    assert(seq![p].drop_first() =~= Seq::<PartView>::empty());
    assert(render_parts(Seq::<PartView>::empty(), open, close) =~= Seq::<char>::empty());
}

proof fn lemma_render_from(s: Seq<char>, open: Seq<char>, close: Seq<char>, pos: int)
    requires
        parse_from(s, open, close, pos) is Some,
    ensures
        render_parts(parse_from(s, open, close, pos)->0, open, close) == s.subrange(
            pos,
            s.len() as int,
        ),
    decreases s.len() - pos,
{
    lemma_find_from_occurs(s, open, pos);
    let rest = s.subrange(pos, s.len() as int);
    match find_from(s, open, pos) {
        None => {
            if rest.len() == 0 {
                assert(render_parts(Seq::<PartView>::empty(), open, close) =~= rest);
            } else {
                lemma_render_one(PartView::Literal(rest), open, close);
            }
        },
        Some(i) => {
            let start = i + open.len();
            lemma_find_from_occurs(s, close, start);
            let j = find_from(s, close, start)->0;
            let end = j + close.len();
            lemma_render_from(s, open, close, end);
            let lit = literal_if_nonempty(s.subrange(pos, i));
            let ex = seq![PartView::Expression(s.subrange(start, j))];
            let tail = parse_from(s, open, close, end)->0;
            lemma_render_concat(lit + ex, tail, open, close);
            lemma_render_concat(lit, ex, open, close);
            lemma_render_one(PartView::Expression(s.subrange(start, j)), open, close);
            if i == pos {
                assert(render_parts(lit, open, close) =~= Seq::<char>::empty());
            } else {
                lemma_render_one(PartView::Literal(s.subrange(pos, i)), open, close);
            }
            assert(s.subrange(i, start) == open);
            assert(s.subrange(j, end) == close);
            assert(rest =~= s.subrange(pos, i) + (open + s.subrange(start, j) + close)
                + s.subrange(end, s.len() as int));
        },
    }
}

/// Writing back each expression between its delimiters, the parts of a text
/// that parses give that text again, character for character.
pub proof fn lemma_parse_round_trip(s: Seq<char>, open: Seq<char>, close: Seq<char>)
    requires
        parse_spec(s, open, close) is Some,
    ensures
        render_parts(parse_spec(s, open, close)->0, open, close) == s,
{
    lemma_render_from(s, open, close, 0);
    assert(s.subrange(0, s.len() as int) =~= s);
}

impl TextPart {
    /// Splits `s` into literal and expression parts, expressions standing between
    /// `open` and `close`.
    pub fn parse(s: &str, open: &str, close: &str) -> (r: Result<Vec<TextPart>, TemplateError>)
        requires
            open@.len() > 0,
        ensures
            r matches Ok(ps) ==> parse_spec(s@, open@, close@) == Some(parts_view(ps@)),
            r is Err <==> parse_spec(s@, open@, close@) is None,
            r matches Err(e) ==> e == TemplateError::UnclosedExpression,
    {
        let cs = chars_of(s);
        let o = chars_of(open);
        let c = chars_of(close);
        let mut parts: Vec<TextPart> = Vec::new();
        let mut pos: usize = 0;
        loop
            invariant
                o@ == open@,
                c@ == close@,
                cs@ == s@,
                o@.len() > 0,
                pos <= cs@.len(),
                parse_spec(s@, open@, close@) == match parse_from(cs@, o@, c@, pos as int) {
                    None => None,
                    Some(t) => Some(parts_view(parts@) + t),
                },
            decreases cs@.len() - pos,
        {
            proof {
                lemma_find_from_occurs(cs@, o@, pos as int);
            }
            match find_in(cs.as_slice(), o.as_slice(), pos) {
                None => {
                    let ghost before = parts_view(parts@);
                    if pos < cs.len() {
                        parts.push(TextPart::Literal(string_of(cs.as_slice(), pos, cs.len())));
                    }
                    assert(parse_spec(s@, open@, close@) == Some(parts_view(parts@))) by {
                        assert(parts_view(parts@) =~= before + literal_if_nonempty(cs@.subrange(pos as int, cs@.len() as int)));
                    }
                    return Ok(parts);
                },
                Some(i) => {
                    assert(occurs_at(cs@, o@, i as int));
                    assert(i + o.len() <= cs.len());
                    let start = i + o.len();
                    proof {
                        lemma_find_from_occurs(cs@, c@, start as int);
                    }
                    match find_in(cs.as_slice(), c.as_slice(), start) {
                        None => {
                            return Err(TemplateError::UnclosedExpression);
                        },
                        Some(j) => {
                            assert(occurs_at(cs@, c@, j as int));
                            assert(j + c.len() <= cs.len());
                            let ghost before = parts_view(parts@);
                            if i > pos {
                                parts.push(TextPart::Literal(string_of(cs.as_slice(), pos, i)));
                            }
                            parts.push(TextPart::Expression(string_of(cs.as_slice(), start, j)));
                            let ghost tail = parse_from(cs@, o@, c@, (j + c.len()) as int);
                            assert(parts_view(parts@) =~= before + literal_if_nonempty(cs@.subrange(pos as int, i as int))
                                + seq![PartView::Expression(cs@.subrange(start as int, j as int))]);
                            proof {
                                if tail is Some {
                                    let t = tail->0;
                                    assert(before + (literal_if_nonempty(cs@.subrange(pos as int, i as int))
                                        + seq![PartView::Expression(cs@.subrange(start as int, j as int))] + t)
                                        =~= parts_view(parts@) + t);
                                }
                            }
                            pos = j + c.len();
                        },
                    }
                },
            }
        }
    }
}

} // verus!
