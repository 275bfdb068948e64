//! Extraction of translatable texts into a catalog template.

use vstd::prelude::*;
use crate::element::{
    child_view, children_view, element_view, lemma_children_view, ChildSpec, Element, ElementSpec,
    HtmlPart, PartSpec,
};
use crate::text::{chars_of, ends_with, find_in, occurs_at, push_char, starts_with, string_of, lemma_find_from_occurs};

verus! {

/// A text of a template that translators should see.
#[derive(Debug)]
pub struct Translatable {
    pub original: String,
    pub origin: (String, usize),
    pub context: String,
}

/// What Rust's `Debug` prints for a string: the string quoted and escaped.
pub uninterp spec fn debug_quoted(s: Seq<char>) -> Seq<char>;

/// Relies on `<str as Debug>::fmt`, through `format!("{:?}")`.
#[verifier::external_body]
fn debug_str(s: &str) -> (r: String)
    ensures
        r@ == debug_quoted(s@),
{
    format!("{:?}", s)
}

/// The decimal digits of `n`.
pub open spec fn decimal(n: nat) -> Seq<char>
    decreases n,
{
    if n < 10 {
        seq![(n + '0' as nat) as char]
    } else {
        decimal(n / 10).push(((n % 10) + '0' as nat) as char)
    }
}

pub fn decimal_code(n: usize) -> (r: String)
    ensures
        r@ == decimal(n as nat),
    decreases n,
{
    if n < 10 {
        let mut r = String::new();
        push_char(&mut r, ((n as u8) + 48u8) as char);
        assert(r@ =~= decimal(n as nat));
        r
    } else {
        let mut r = decimal_code(n / 10);
        push_char(&mut r, (((n % 10) as u8) + 48u8) as char);
        r
    }
}

/// `s` without repeated leading `pat`.
pub open spec fn trim_start_all(s: Seq<char>, pat: Seq<char>) -> Seq<char>
    decreases s.len(),
{
    if pat.len() > 0 && starts_with(s, pat) {
        trim_start_all(s.subrange(pat.len() as int, s.len() as int), pat)
    } else {
        s
    }
}

/// `s` without repeated trailing `pat`.
pub open spec fn trim_end_all(s: Seq<char>, pat: Seq<char>) -> Seq<char>
    decreases s.len(),
{
    if pat.len() > 0 && ends_with(s, pat) {
        trim_end_all(s.subrange(0, s.len() - pat.len()), pat)
    } else {
        s
    }
}

/// The part of `s` after its last `/`.
pub open spec fn last_segment(s: Seq<char>) -> Seq<char>
    decreases s.len(),
{
    if s.len() == 0 {
        s
    } else if s.last() == '/' {
        Seq::empty()
    } else {
        last_segment(s.drop_last()).push(s.last())
    }
}

/// The translation context of a template: its file name without `.html`.
pub open spec fn context_of(path: Seq<char>) -> Seq<char> {
    "in "@ + trim_end_all(last_segment(path), ".html"@)
}

/// Where a template's texts are said to come from: its path without `./`.
pub open spec fn origin_of(path: Seq<char>) -> Seq<char> {
    trim_start_all(path, "./"@)
}

fn trim_start_all_code(s: &Vec<char>, pat: &Vec<char>) -> (r: usize)
    ensures
        r <= s@.len(),
        trim_start_all(s@, pat@) == s@.subrange(r as int, s@.len() as int),
{
    let mut i: usize = 0;
    assert(s@.subrange(0, s@.len() as int) =~= s@);
    while pat.len() > 0 && crate::text::matches_at(s.as_slice(), pat.as_slice(), i)
        invariant
            i <= s@.len(),
            trim_start_all(s@, pat@) == trim_start_all(s@.subrange(i as int, s@.len() as int), pat@),
        decreases s@.len() - i,
    {
        let ghost rest = s@.subrange(i as int, s@.len() as int);
        assert(rest.subrange(0, pat@.len() as int) =~= s@.subrange(i as int, i + pat@.len()));
        assert(rest.subrange(pat@.len() as int, rest.len() as int) =~= s@.subrange(i + pat@.len(), s@.len() as int));
        assert(occurs_at(s@, pat@, i as int));
        assert(i + pat.len() <= s.len());
        i = i + pat.len();
    }
    let ghost rest = s@.subrange(i as int, s@.len() as int);
    assert(pat@.len() > 0 ==> !starts_with(rest, pat@)) by {
        if pat@.len() > 0 && starts_with(rest, pat@) {
            assert(rest.subrange(0, pat@.len() as int) =~= s@.subrange(i as int, i + pat@.len()));
        }
    }
    i
}

fn trim_end_all_code(s: &Vec<char>, pat: &Vec<char>) -> (r: usize)
    ensures
        r <= s@.len(),
        trim_end_all(s@, pat@) == s@.subrange(0, r as int),
{
    let mut j: usize = s.len();
    assert(s@.subrange(0, s@.len() as int) =~= s@);
    while pat.len() > 0 && j >= pat.len() && crate::text::matches_at(s.as_slice(), pat.as_slice(), j - pat.len())
        invariant
            j <= s@.len(),
            trim_end_all(s@, pat@) == trim_end_all(s@.subrange(0, j as int), pat@),
        decreases j,
    {
        let ghost pre = s@.subrange(0, j as int);
        assert(pre.subrange(pre.len() - pat@.len(), pre.len() as int) =~= s@.subrange(j - pat@.len(), j as int));
        assert(pre.subrange(0, pre.len() - pat@.len()) =~= s@.subrange(0, j - pat@.len()));
        j = j - pat.len();
    }
    let ghost pre = s@.subrange(0, j as int);
    assert(pat@.len() > 0 ==> !ends_with(pre, pat@)) by {
        if pat@.len() > 0 && ends_with(pre, pat@) {
            assert(pre.subrange(pre.len() - pat@.len(), pre.len() as int) =~= s@.subrange(j - pat@.len(), j as int));
        }
    }
    j
}

/// The translation context of the template at `path`.
pub fn translation_context(path: &str) -> (r: String)
    ensures
        r@ == context_of(path@),
{
    let cs = chars_of(path);
    let mut k: usize = cs.len();
    assert(cs@.subrange(0, cs@.len() as int) =~= cs@);
    while k > 0 && cs[k - 1] != '/'
        invariant
            k <= cs@.len(),
            last_segment(cs@) == last_segment(cs@.subrange(0, k as int)) + cs@.subrange(k as int, cs@.len() as int),
        decreases k,
    {
        assert(cs@.subrange(0, k as int).drop_last() =~= cs@.subrange(0, k - 1));
        assert(cs@.subrange(k - 1, cs@.len() as int) =~= seq![cs@[k - 1]] + cs@.subrange(k as int, cs@.len() as int));
        assert(last_segment(cs@.subrange(0, k as int)) + cs@.subrange(k as int, cs@.len() as int)
            =~= last_segment(cs@.subrange(0, k - 1)) + cs@.subrange(k - 1, cs@.len() as int));
        k = k - 1;
    }
    if k > 0 {
        assert(last_segment(cs@.subrange(0, k as int)) =~= Seq::<char>::empty());
    } else {
        assert(last_segment(cs@.subrange(0, 0)) =~= Seq::<char>::empty());
    }
    let seg = chars_of(string_of(cs.as_slice(), k, cs.len()).as_str());
    assert(seg@ =~= last_segment(cs@));
    let pat = chars_of(".html");
    let end = trim_end_all_code(&seg, &pat);
    let mut r = String::from_str("in ");
    r.append(string_of(seg.as_slice(), 0, end).as_str());
    r
}

/// Where the texts of the template at `path` are said to come from.
pub fn origin_path(path: &str) -> (r: String)
    ensures
        r@ == origin_of(path@),
{
    let cs = chars_of(path);
    let pat = chars_of("./");
    let start = trim_start_all_code(&cs, &pat);
    string_of(cs.as_slice(), start, cs.len())
}

/// The texts below an element, in document order, with their lines.
pub open spec fn texts_of(e: ElementSpec) -> Seq<(Seq<char>, usize)>
    decreases e,
{
    texts_of_children(e.children)
}

pub open spec fn texts_of_children(cs: Seq<ChildSpec>) -> Seq<(Seq<char>, usize)>
    decreases cs,
{
    if cs.len() == 0 {
        Seq::empty()
    } else {
        texts_of_children(cs.drop_last()) + match cs.last().part {
            PartSpec::Text(t) => seq![(t, cs.last().line)],
            PartSpec::Element(e) => texts_of(e),
        }
    }
}

pub open spec fn translatable_view(t: Translatable) -> (Seq<char>, Seq<char>, usize, Seq<char>) {
    (t.original@, t.origin.0@, t.origin.1, t.context@)
}

pub open spec fn translatables_view(v: Seq<Translatable>) -> Seq<(Seq<char>, Seq<char>, usize, Seq<char>)> {
    v.map_values(|t: Translatable| translatable_view(t))
}

/// The translatables for the given texts of the template at `path`.
pub open spec fn translatables_spec(texts: Seq<(Seq<char>, usize)>, path: Seq<char>) -> Seq<(Seq<char>, Seq<char>, usize, Seq<char>)> {
    texts.map_values(|t: (Seq<char>, usize)| (t.0, origin_of(path), t.1, context_of(path)))
}

impl Element {
    /// Every text below this element, in document order, as a translatable of
    /// the template at `path`.
    pub fn get_translatables(&self, path: &str) -> (r: Vec<Translatable>)
        ensures
            translatables_view(r@) == translatables_spec(texts_of(element_view(*self)), path@),
        decreases element_view(*self),
    {
        let ghost cv = children_view(self.children@);
        proof {
            lemma_children_view(self.children@);
        }
        let mut out: Vec<Translatable> = Vec::new();
        let mut i: usize = 0;
        assert(cv.subrange(0, 0).len() == 0);
        assert(translatables_view(out@) =~= translatables_spec(Seq::empty(), path@));
        while i < self.children.len()
            invariant
                i <= self.children@.len(),
                cv == children_view(self.children@),
                cv == element_view(*self).children,
                cv.len() == self.children@.len(),
                forall|j: int| 0 <= j < self.children@.len() ==> #[trigger] cv[j] == child_view(self.children@[j]),
                translatables_view(out@) == translatables_spec(texts_of_children(cv.subrange(0, i as int)), path@),
            decreases self.children.len() - i,
        {
            assert(cv.subrange(0, i + 1).drop_last() =~= cv.subrange(0, i as int));
            assert(cv.subrange(0, i + 1).last() == cv[i as int]);
            let ghost before = out@;
            match &self.children[i].part {
                HtmlPart::Text(t) => {
                    out.push(Translatable {
                        original: t.clone(),
                        origin: (origin_path(path), self.children[i].line),
                        context: translation_context(path),
                    });
                    assert(translatables_view(out@) =~= translatables_view(before).push((t@, origin_of(path@), self.children@[i as int].line, context_of(path@))));
                    assert(translatables_spec(texts_of_children(cv.subrange(0, i + 1)), path@) =~= translatables_spec(texts_of_children(cv.subrange(0, i as int)), path@).push((t@, origin_of(path@), self.children@[i as int].line, context_of(path@))));
                    assert(translatables_view(out@) =~= translatables_spec(texts_of_children(cv.subrange(0, i + 1)), path@));
                },
                HtmlPart::Element(e) => {
                    proof {
                        let ev = element_view(*self);
                        assert(decreases_to!(ev => ev.children));
                        assert(decreases_to!(ev.children => ev.children[i as int]));
                        assert(decreases_to!(ev.children[i as int] => ev.children[i as int].part));
                        assert(decreases_to!(ev.children[i as int].part => ev.children[i as int].part->Element_0));
                    }
                    let mut sub = e.get_translatables(path);
                    let ghost sv = sub@;
                    out.append(&mut sub);
                    assert(out@ == before + sv);
                    assert(translatables_view(out@) =~= translatables_view(before) + translatables_view(sv));
                    assert(translatables_spec(texts_of_children(cv.subrange(0, i + 1)), path@) =~= translatables_spec(texts_of_children(cv.subrange(0, i as int)), path@) + translatables_spec(texts_of(element_view(*e)), path@));
                    assert(translatables_view(out@) =~= translatables_spec(texts_of_children(cv.subrange(0, i + 1)), path@));
                },
            }
            i = i + 1;
        }
        assert(cv.subrange(0, cv.len() as int) =~= cv);
        out
    }
}

/// One entry of the catalog template, its context and source text already
/// quoted.
pub open spec fn pot_entry_spec(origin: Seq<char>, line: nat, context: Seq<char>, id: Seq<char>) -> Seq<char> {
    "#: "@ + origin + ":"@ + decimal(line) + "\nmsgctxt "@ + context + "\nmsgid "@ + id
        + "\nmsgstr \"\""@
}

/// One entry of the catalog template.
pub open spec fn pot_part(t: (Seq<char>, Seq<char>, usize, Seq<char>)) -> Seq<char> {
    pot_entry_spec(t.1, t.2 as nat, debug_quoted(t.3), debug_quoted(t.0))
}

/// The catalog-template entry for a text of `origin` at `line`, with its
/// context and source text given already quoted.
pub fn pot_entry(origin: &str, line: usize, context: &str, id: &str) -> (r: String)
    ensures
        r@ == pot_entry_spec(origin@, line as nat, context@, id@),
{
    let mut r = String::from_str("#: ");
    r.append(origin);
    r.append(":");
    r.append(decimal_code(line).as_str());
    r.append("\nmsgctxt ");
    r.append(context);
    r.append("\nmsgid ");
    r.append(id);
    r.append("\nmsgstr \"\"");
    r
}

impl Translatable {
    /// This text's entry in the catalog template.
    pub fn generate_pot_part(&self) -> (r: String)
        ensures
            r@ == pot_part(translatable_view(*self)),
    {
        let context = debug_str(self.context.as_str());
        let id = debug_str(self.original.as_str());
        pot_entry(self.origin.0.as_str(), self.origin.1, context.as_str(), id.as_str())
    }
}

/// `s` holds `pat` somewhere.
pub open spec fn contains(s: Seq<char>, pat: Seq<char>) -> bool {
    exists|i: int| occurs_at(s, pat, i)
}

/// The catalog template `data` with the entry of each translatable appended,
/// unless it holds that entry already.
pub open spec fn pot_merge(data: Seq<char>, ts: Seq<(Seq<char>, Seq<char>, usize, Seq<char>)>) -> Seq<char>
    decreases ts.len(),
{
    if ts.len() == 0 {
        data
    } else {
        let d = pot_merge(data, ts.drop_last());
        let p = pot_part(ts.last());
        if contains(d, p) {
            d
        } else {
            d + "\n"@ + p + "\n"@
        }
    }
}

/// Appends to the catalog template `data` the entry of each translatable that
/// it does not hold yet.
pub fn merge_pot(data: String, translatables: &Vec<Translatable>) -> (r: String)
    ensures
        r@ == pot_merge(data@, translatables_view(translatables@)),
{
    let ghost tv = translatables_view(translatables@);
    let mut d = data;
    let mut i: usize = 0;
    assert(tv.subrange(0, 0).len() == 0);
    while i < translatables.len()
        invariant
            i <= translatables@.len(),
            tv == translatables_view(translatables@),
            d@ == pot_merge(data@, tv.subrange(0, i as int)),
        decreases translatables.len() - i,
    {
        assert(tv.subrange(0, i + 1).drop_last() =~= tv.subrange(0, i as int));
        assert(tv.subrange(0, i + 1).last() == tv[i as int]);
        let part = translatables[i].generate_pot_part();
        let dc = chars_of(d.as_str());
        let pc = chars_of(part.as_str());
        proof {
            lemma_find_from_occurs(dc@, pc@, 0);
        }
        match find_in(dc.as_slice(), pc.as_slice(), 0) {
            Some(k) => {
                assert(occurs_at(dc@, pc@, k as int));
            },
            None => {
                assert(!contains(d@, part@));
                d.append("\n");
                d.append(part.as_str());
                d.append("\n");
            },
        }
        i = i + 1;
    }
    assert(tv.subrange(0, tv.len() as int) =~= tv);
    d
}

} // verus!
