//! The element tree that a template is folded into.

use vstd::prelude::*;

verus! {

/// A child of an element: text or a nested element.
#[derive(Debug)]
pub enum HtmlPart {
    Text(String),
    Element(Element),
}

/// A child together with the source line it started on.
#[derive(Debug)]
pub struct HtmlPartWithLine {
    pub part: HtmlPart,
    pub line: usize,
}

/// An element of the template.
#[derive(Debug)]
pub struct Element {
    pub name: String,
    pub self_closing: bool,
    pub is_component: bool,
    pub open_attrs: Vec<(String, String)>,
    pub close_attrs: Vec<(String, String)>,
    pub children: Vec<HtmlPartWithLine>,
}

/// What a child holds, as characters.
pub enum PartSpec {
    Text(Seq<char>),
    Element(ElementSpec),
}

pub struct ChildSpec {
    pub part: PartSpec,
    pub line: usize,
}

/// What an element holds, as characters.
pub struct ElementSpec {
    pub name: Seq<char>,
    pub self_closing: bool,
    pub is_component: bool,
    pub open_attrs: Seq<(Seq<char>, Seq<char>)>,
    pub close_attrs: Seq<(Seq<char>, Seq<char>)>,
    pub children: Seq<ChildSpec>,
}

pub open spec fn attrs_view(a: Seq<(String, String)>) -> Seq<(Seq<char>, Seq<char>)> {
    a.map_values(|p: (String, String)| (p.0@, p.1@))
}

pub open spec fn element_view(e: Element) -> ElementSpec
    decreases e,
{
    ElementSpec {
        name: e.name@,
        self_closing: e.self_closing,
        is_component: e.is_component,
        open_attrs: attrs_view(e.open_attrs@),
        close_attrs: attrs_view(e.close_attrs@),
        children: children_view(e.children@),
    }
}

pub open spec fn children_view(cs: Seq<HtmlPartWithLine>) -> Seq<ChildSpec>
    decreases cs,
{
    if cs.len() == 0 {
        Seq::empty()
    } else {
        seq![child_view(cs[0])] + children_view(cs.drop_first())
    }
}

pub open spec fn child_view(c: HtmlPartWithLine) -> ChildSpec
    decreases c,
{
    ChildSpec {
        part: match c.part {
            HtmlPart::Text(t) => PartSpec::Text(t@),
            HtmlPart::Element(e) => PartSpec::Element(element_view(e)),
        },
        line: c.line,
    }
}

pub proof fn lemma_children_view(cs: Seq<HtmlPartWithLine>)
    ensures
        children_view(cs).len() == cs.len(),
        forall|i: int| 0 <= i < cs.len() ==> #[trigger] children_view(cs)[i] == child_view(cs[i]),
    decreases cs.len(),
{
    if cs.len() > 0 {
        lemma_children_view(cs.drop_first());
        assert forall|i: int| 0 <= i < cs.len() implies #[trigger] children_view(cs)[i] == child_view(
            cs[i],
        ) by {
            if i > 0 {
                assert(cs.drop_first()[i - 1] == cs[i]);
            }
        }
    }
}

pub proof fn lemma_children_view_eq(a: Seq<HtmlPartWithLine>, b: Seq<ChildSpec>)
    requires
        a.len() == b.len(),
        forall|i: int| 0 <= i < a.len() ==> child_view(#[trigger] a[i]) == b[i],
    ensures
        children_view(a) == b,
{
    lemma_children_view(a);
    assert(children_view(a) =~= b);
}

} // verus!
