//! Folding a stream of markup tokens into an element tree.

use vstd::prelude::*;
use crate::clean::{clean_spec, is_clean, lemma_clean_is_clean};
use crate::element::{
    attrs_view, child_view, children_view, element_view, lemma_children_view, ChildSpec, Element,
    ElementSpec, HtmlPart, HtmlPartWithLine, PartSpec,
};
use crate::error::TemplateError;
use crate::text::str_eq;

verus! {

/// A token of the markup, as the tokenizer reports it.
#[derive(Debug)]
pub enum HtmlToken {
    StartTag { name: String, attrs: Vec<(String, String)>, self_closing: bool },
    EndTag { name: String, attrs: Vec<(String, String)> },
    Characters(String),
    /// A comment, a doctype, a null character or the end of input.
    Ignored,
    /// Malformed markup.
    ParseError,
}

/// Builds the element tree from tokens.
#[derive(Debug)]
pub struct HtmlSink {
    /// Finished top-level parts.
    pub html_parts: Vec<HtmlPartWithLine>,
    /// Elements opened and not closed yet, innermost last.
    pub opened_elements: Vec<Element>,
}

/// The builder's state, as characters.
pub struct SinkSpec {
    pub parts: Seq<ChildSpec>,
    pub opened: Seq<ElementSpec>,
}

pub open spec fn opened_view(v: Seq<Element>) -> Seq<ElementSpec> {
    v.map_values(|e: Element| element_view(e))
}

pub open spec fn sink_view(s: HtmlSink) -> SinkSpec {
    SinkSpec { parts: children_view(s.html_parts@), opened: opened_view(s.opened_elements@) }
}

/// The state with `c` added to the innermost open element, or to the top
/// level when none is open.
pub open spec fn add_child(st: SinkSpec, c: ChildSpec) -> SinkSpec {
    if st.opened.len() > 0 {
        let last = st.opened.last();
        SinkSpec {
            parts: st.parts,
            opened: st.opened.drop_last().push(ElementSpec { children: last.children.push(c), ..last }),
        }
    } else {
        SinkSpec { parts: st.parts.push(c), opened: st.opened }
    }
}

/// The attributes without those called `name`.
pub open spec fn without_attr(attrs: Seq<(Seq<char>, Seq<char>)>, name: Seq<char>) -> Seq<(Seq<char>, Seq<char>)>
    decreases attrs.len(),
{
    if attrs.len() == 0 {
        Seq::empty()
    } else if attrs.last().0 == name {
        without_attr(attrs.drop_last(), name)
    } else {
        without_attr(attrs.drop_last(), name).push(attrs.last())
    }
}

/// The value of the first attribute called `name`.
pub open spec fn attr_value(attrs: Seq<(Seq<char>, Seq<char>)>, name: Seq<char>) -> Option<Seq<char>> {
    if exists|i: int| 0 <= i < attrs.len() && attrs[i].0 == name {
        let i = choose|i: int|
            0 <= i < attrs.len() && attrs[i].0 == name && forall|j: int| 0 <= j < i ==> attrs[j].0 != name;
        Some(attrs[i].1)
    } else {
        None
    }
}

/// The element a start tag opens; a component tag takes its name from its
/// `name` attribute, which it drops.
pub open spec fn opened_element(name: Seq<char>, attrs: Seq<(Seq<char>, Seq<char>)>, self_closing: bool, line: usize) -> Result<
    ElementSpec,
    TemplateError,
> {
    let plain = ElementSpec {
        name,
        self_closing,
        is_component: false,
        open_attrs: attrs,
        close_attrs: Seq::empty(),
        children: Seq::empty(),
    };
    if name == "comp"@ || name == "component"@ {
        match attr_value(attrs, "name"@) {
            None => Err(TemplateError::MissingComponentName { line }),
            Some(real_name) => Ok(
                ElementSpec {
                    name: real_name,
                    is_component: true,
                    open_attrs: without_attr(attrs, "name"@),
                    ..plain
                },
            ),
        }
    } else {
        Ok(plain)
    }
}

/// Whether a closing tag called `name` closes `e`: its own name, or for a
/// component either spelling of the alias.
pub open spec fn closes(e: ElementSpec, name: Seq<char>) -> bool {
    name == e.name || (e.is_component && (name == "comp"@ || name == "component"@))
}

/// The state after one token at the given line.
pub open spec fn sink_step(st: SinkSpec, t: HtmlToken, line: usize) -> Result<SinkSpec, TemplateError> {
    match t {
        HtmlToken::StartTag { name, attrs, self_closing } => match opened_element(
            name@,
            attrs_view(attrs@),
            self_closing,
            line,
        ) {
            Err(e) => Err(e),
            Ok(e) => if self_closing {
                Ok(add_child(st, ChildSpec { part: PartSpec::Element(e), line }))
            } else {
                Ok(SinkSpec { parts: st.parts, opened: st.opened.push(e) })
            },
        },
        HtmlToken::EndTag { name, attrs } => if st.opened.len() == 0 || !closes(st.opened.last(), name@) {
            Err(TemplateError::UnexpectedClosingTag { line })
        } else {
            let e = ElementSpec { close_attrs: attrs_view(attrs@), ..st.opened.last() };
            Ok(
                add_child(
                    SinkSpec { parts: st.parts, opened: st.opened.drop_last() },
                    ChildSpec { part: PartSpec::Element(e), line },
                ),
            )
        },
        HtmlToken::Characters(text) => Ok(add_child(st, ChildSpec { part: PartSpec::Text(text@), line })),
        HtmlToken::Ignored => Ok(st),
        HtmlToken::ParseError => Err(TemplateError::MalformedMarkup { line }),
    }
}

/// The root that wraps the top-level parts of a template.
pub open spec fn root_of(parts: Seq<ChildSpec>) -> ElementSpec {
    ElementSpec {
        name: Seq::empty(),
        self_closing: false,
        is_component: false,
        open_attrs: Seq::empty(),
        close_attrs: Seq::empty(),
        children: parts,
    }
}

proof fn lemma_children_push(cs: Seq<HtmlPartWithLine>, c: HtmlPartWithLine)
    ensures
        children_view(cs.push(c)) == children_view(cs).push(child_view(c)),
{
    lemma_children_view(cs);
    lemma_children_view(cs.push(c));
    assert(children_view(cs.push(c)) =~= children_view(cs).push(child_view(c)));
}

fn first_attr_value(attrs: &Vec<(String, String)>, name: &str) -> (r: Option<String>)
    ensures
        r matches Some(v) ==> attr_value(attrs_view(attrs@), name@) == Some(v@),
        r is None ==> attr_value(attrs_view(attrs@), name@) is None,
{
    let ghost av = attrs_view(attrs@);
    let mut i: usize = 0;
    while i < attrs.len()
        invariant
            i <= attrs@.len(),
            av == attrs_view(attrs@),
            forall|j: int| 0 <= j < i ==> av[j].0 != name@,
        decreases attrs.len() - i,
    {
        if str_eq(attrs[i].0.as_str(), name) {
            proof {
                let k = choose|k: int|
                    0 <= k < av.len() && av[k].0 == name@ && forall|j: int| 0 <= j < k ==> av[j].0 != name@;
                assert(0 <= i < av.len() && av[i as int].0 == name@ && forall|j: int| 0 <= j < i ==> av[j].0 != name@);
                if k < i {
                } else if k > i {
                    assert(av[i as int].0 != name@);
                }
            }
            return Some(attrs[i].1.clone());
        }
        i = i + 1;
    }
    None
}

fn drop_attr(attrs: Vec<(String, String)>, name: &str) -> (r: Vec<(String, String)>)
    ensures
        attrs_view(r@) == without_attr(attrs_view(attrs@), name@),
{
    let ghost av = attrs_view(attrs@);
    let mut r: Vec<(String, String)> = Vec::new();
    let mut i: usize = 0;
    assert(av.subrange(0, 0).len() == 0);
    assert(attrs_view(r@) =~= Seq::<(Seq<char>, Seq<char>)>::empty());
    while i < attrs.len()
        invariant
            i <= attrs@.len(),
            av == attrs_view(attrs@),
            attrs_view(r@) == without_attr(av.subrange(0, i as int), name@),
        decreases attrs.len() - i,
    {
        assert(av.subrange(0, i + 1).drop_last() =~= av.subrange(0, i as int));
        if !str_eq(attrs[i].0.as_str(), name) {
            let ghost before = attrs_view(r@);
            r.push((attrs[i].0.clone(), attrs[i].1.clone()));
            assert(attrs_view(r@) =~= before.push(av[i as int]));
        }
        i = i + 1;
    }
    assert(av.subrange(0, av.len() as int) =~= av);
    r
}

impl HtmlSink {
    /// A builder that has seen no token.
    pub fn new() -> (r: HtmlSink)
        ensures
            sink_view(r) == (SinkSpec { parts: Seq::empty(), opened: Seq::empty() }),
    {
        let r = HtmlSink { html_parts: Vec::new(), opened_elements: Vec::new() };
        proof {
            lemma_children_view(r.html_parts@);
        }
        assert(sink_view(r).parts =~= Seq::<ChildSpec>::empty());
        assert(sink_view(r).opened =~= Seq::<ElementSpec>::empty());
        r
    }

    fn add_child(&mut self, c: HtmlPartWithLine)
        ensures
            sink_view(*final(self)) == add_child(sink_view(*old(self)), child_view(c)),
    {
        let ghost st = sink_view(*self);
        match self.opened_elements.pop() {
            Some(mut container) => {
                let ghost ch = container.children@;
                container.children.push(c);
                proof {
                    lemma_children_push(ch, c);
                }
                self.opened_elements.push(container);
                assert(sink_view(*self).opened =~= add_child(st, child_view(c)).opened);
            },
            None => {
                let ghost ps = self.html_parts@;
                self.html_parts.push(c);
                proof {
                    lemma_children_push(ps, c);
                }
                assert(sink_view(*self).opened =~= add_child(st, child_view(c)).opened);
            },
        }
    }

    /// Takes in one token, read at the given line.
    pub fn process_token(&mut self, token: HtmlToken, line: usize) -> (r: Result<(), TemplateError>)
        ensures
            r is Ok ==> sink_step(sink_view(*old(self)), token, line) == Ok::<SinkSpec, TemplateError>(
                sink_view(*final(self)),
            ),
            r matches Err(e) ==> sink_step(sink_view(*old(self)), token, line) == Err::<SinkSpec, TemplateError>(e),
    {
        let ghost st = sink_view(*self);
        let ghost tok = token;
        match token {
            HtmlToken::StartTag { name, attrs, self_closing } => {
                let ghost av = attrs_view(attrs@);
                let mut element = Element {
                    name,
                    self_closing,
                    is_component: false,
                    open_attrs: attrs,
                    close_attrs: Vec::new(),
                    children: Vec::new(),
                };
                proof {
                    lemma_children_view(element.children@);
                    assert(attrs_view(element.close_attrs@) =~= Seq::<(Seq<char>, Seq<char>)>::empty());
                }
                if str_eq(element.name.as_str(), "comp") || str_eq(element.name.as_str(), "component") {
                    let real_name = match first_attr_value(&element.open_attrs, "name") {
                        Some(v) => v,
                        None => {
                            return Err(TemplateError::MissingComponentName { line });
                        },
                    };
                    let Element { name: _, self_closing, is_component: _, open_attrs, close_attrs, children } = element;
                    let open_attrs = drop_attr(open_attrs, "name");
                    element = Element { name: real_name, self_closing, is_component: true, open_attrs, close_attrs, children };
                }
                let ghost ev = element_view(element);
                assert(opened_element(tok->StartTag_name@, av, self_closing, line) == Ok::<ElementSpec, TemplateError>(ev));
                if self_closing {
                    self.add_child(HtmlPartWithLine { part: HtmlPart::Element(element), line });
                } else {
                    self.opened_elements.push(element);
                    assert(sink_view(*self).opened =~= st.opened.push(ev));
                }
                Ok(())
            },
            HtmlToken::EndTag { name, attrs } => {
                let element = match self.opened_elements.pop() {
                    Some(e) => e,
                    None => {
                        return Err(TemplateError::UnexpectedClosingTag { line });
                    },
                };
                assert(element_view(element) == st.opened.last());
                assert(opened_view(self.opened_elements@) =~= st.opened.drop_last());
                let ok = str_eq(name.as_str(), element.name.as_str()) || (element.is_component && (
                str_eq(name.as_str(), "comp") || str_eq(name.as_str(), "component")));
                if !ok {
                    return Err(TemplateError::UnexpectedClosingTag { line });
                }
                let Element { name: en, self_closing, is_component, open_attrs, close_attrs: _, children } = element;
                let closed = Element { name: en, self_closing, is_component, open_attrs, close_attrs: attrs, children };
                self.add_child(HtmlPartWithLine { part: HtmlPart::Element(closed), line });
                Ok(())
            },
            HtmlToken::Characters(text) => {
                self.add_child(HtmlPartWithLine { part: HtmlPart::Text(text), line });
                Ok(())
            },
            HtmlToken::Ignored => Ok(()),
            HtmlToken::ParseError => Err(TemplateError::MalformedMarkup { line }),
        }
    }

    /// The template's root, wrapping every top-level part, once whitespace is
    /// cleaned up; an element left open is an error.
    pub fn finish(self) -> (r: Result<Element, TemplateError>)
        ensures
            r matches Ok(e) ==> sink_view(self).opened.len() == 0 && element_view(e) == clean_spec(
                root_of(sink_view(self).parts),
            ),
            r matches Ok(e) ==> is_clean(element_view(e)),
            r matches Err(e) ==> sink_view(self).opened.len() > 0 && e == TemplateError::UnclosedElement,
    {
        if self.opened_elements.len() > 0 {
            return Err(TemplateError::UnclosedElement);
        }
        let mut root = Element {
            name: String::new(),
            self_closing: false,
            is_component: false,
            open_attrs: Vec::new(),
            close_attrs: Vec::new(),
            children: self.html_parts,
        };
        assert(attrs_view(root.open_attrs@) =~= Seq::<(Seq<char>, Seq<char>)>::empty());
        assert(attrs_view(root.close_attrs@) =~= Seq::<(Seq<char>, Seq<char>)>::empty());
        assert(element_view(root) == root_of(sink_view(self).parts));
        root.clean_text();
        proof {
            lemma_clean_is_clean(root_of(sink_view(self).parts));
        }
        Ok(root)
    }
}

} // verus!
