//! Generation of virtual-DOM construction code from the element tree.

use vstd::prelude::*;
use crate::args::{
    args_ok,
    iter_record, is_iterator, is_iterator_id, is_optional, is_optional_id, opt_record, resolve,
    Args,
};
use crate::code::{
    indent_code, indent_lines, sort_dedup, sort_dedup_code, unindent, unindent_code,
    tabs, tabs_code,
    append_double_braces, double_braces, escaped_str_code, join, join_code, quoted, strings_view,
};
use crate::element::{
    attrs_view, child_view, children_view, element_view, lemma_children_view, ChildSpec, Element,
    ElementSpec, HtmlPart, HtmlPartWithLine, PartSpec,
};
use crate::error::TemplateError;
use crate::text::{chars_of, ends_with, starts_with, str_ends_with, str_eq, str_starts_with, string_of};
use crate::i18n::{catalog_view, translations_from, translations_view};
use crate::text_part::{parse_spec, parts_view, PartView, TextPart};

verus! {

/// Generated code, with the optional and iterator identifiers it left unresolved.
pub struct Gen {
    pub code: Seq<char>,
    pub opts: Seq<Seq<char>>,
    pub iters: Seq<Seq<char>>,
}

/// Generated code, with the optional and iterator identifiers it left unresolved.
#[derive(Debug)]
pub struct Rendered {
    pub code: String,
    pub opts: Vec<String>,
    pub iters: Vec<String>,
}

pub open spec fn gen_view(r: Rendered) -> Gen {
    Gen { code: r.code@, opts: strings_view(r.opts@), iters: strings_view(r.iters@) }
}

pub open spec fn gen_empty() -> Gen {
    Gen { code: Seq::empty(), opts: Seq::empty(), iters: Seq::empty() }
}

/// One piece of code after another, their identifiers in the same order.
pub open spec fn gen_cat(a: Gen, b: Gen) -> Gen {
    Gen { code: a.code + b.code, opts: a.opts + b.opts, iters: a.iters + b.iters }
}

/// The name under which a generated guard or loop binds the value of `id`.
pub open spec fn produced(id: Seq<char>) -> Seq<char> {
    "macro_produced_"@ + id
}

/// Code for one text part: a literal as a string literal, an expression as its
/// value (or, for an optional or iterator identifier, the name the enclosing
/// guard binds), each in braces.
pub open spec fn part_gen(a: Args, p: PartView) -> Result<Gen, TemplateError> {
    match p {
        PartView::Literal(t) => Ok(
            Gen { code: seq!['{'] + quoted(t) + seq!['}'], opts: Seq::empty(), iters: Seq::empty() },
        ),
        PartView::Expression(id) => match resolve(a, id) {
            Err(e) => Err(e),
            Ok(v) => Ok(
                Gen {
                    code: seq!['{'] + (if is_optional_id(id) || is_iterator_id(id) {
                        produced(id)
                    } else {
                        v
                    }) + seq!['}'],
                    opts: opt_record(id),
                    iters: iter_record(id),
                },
            ),
        },
    }
}

/// Code for a sequence of text parts, one after another.
pub open spec fn parts_gen(a: Args, ps: Seq<PartView>) -> Result<Gen, TemplateError>
    decreases ps.len(),
{
    if ps.len() == 0 {
        Ok(gen_empty())
    } else {
        match parts_gen(a, ps.drop_last()) {
            Err(e) => Err(e),
            Ok(g) => match part_gen(a, ps.last()) {
                Err(e) => Err(e),
                Ok(h) => Ok(gen_cat(g, h)),
            },
        }
    }
}

fn rendered_empty() -> (r: Rendered)
    ensures
        gen_view(r) == gen_empty(),
{
    let r = Rendered { code: String::new(), opts: Vec::new(), iters: Vec::new() };
    assert(gen_view(r).opts =~= Seq::<Seq<char>>::empty());
    assert(gen_view(r).iters =~= Seq::<Seq<char>>::empty());
    r
}

/// Appends `b` to `a`.
fn rendered_append(a: &mut Rendered, b: Rendered)
    ensures
        gen_view(*final(a)) == gen_cat(gen_view(*old(a)), gen_view(b)),
{
    let mut b = b;
    a.code.append(b.code.as_str());
    let ghost o = a.opts@;
    let ghost i = a.iters@;
    let ghost bo = b.opts@;
    let ghost bi = b.iters@;
    a.opts.append(&mut b.opts);
    a.iters.append(&mut b.iters);
    assert(strings_view(a.opts@) =~= strings_view(o) + strings_view(bo));
    assert(strings_view(a.iters@) =~= strings_view(i) + strings_view(bi));
}

/// Code for one text part.
pub fn text_part_to_code(part: &TextPart, args: &Args) -> (r: Result<Rendered, TemplateError>)
    ensures
        r matches Ok(g) ==> part_gen(*args, part@) == Ok::<Gen, TemplateError>(gen_view(g)),
        r matches Err(e) ==> part_gen(*args, part@) == Err::<Gen, TemplateError>(e),
{
    match part {
        TextPart::Literal(t) => {
            let mut r = rendered_empty();
            r.code.append("{");
            r.code.append(escaped_str_code(t.as_str()).as_str());
            r.code.append("}");
            proof {
                reveal_strlit("{");
                reveal_strlit("}");
                assert(r.code@ =~= seq!['{'] + quoted(t@) + seq!['}']);
            }
            Ok(r)
        },
        TextPart::Expression(id) => {
            let mut opts: Vec<String> = Vec::new();
            let mut iters: Vec<String> = Vec::new();
            let value = args.get_val(id.as_str(), &mut opts, &mut iters)?;
            let mut code = String::new();
            code.append("{");
            if is_optional(id.as_str()) || is_iterator(id.as_str()) {
                code.append("macro_produced_");
                code.append(id.as_str());
            } else {
                code.append(value.as_str());
            }
            code.append("}");
            proof {
                reveal_strlit("{");
                reveal_strlit("}");
                assert(strings_view(opts@) =~= opt_record(id@));
                assert(strings_view(iters@) =~= iter_record(id@));
            }
            let r = Rendered { code, opts, iters };
            assert(gen_view(r).code =~= part_gen(*args, part@)->Ok_0.code);
            Ok(r)
        },
    }
}

/// Code for a sequence of text parts, one after another.
pub fn parts_to_code(parts: &Vec<TextPart>, args: &Args) -> (r: Result<Rendered, TemplateError>)
    ensures
        r matches Ok(g) ==> parts_gen(*args, parts_view(parts@)) == Ok::<Gen, TemplateError>(gen_view(g)),
        r matches Err(e) ==> parts_gen(*args, parts_view(parts@)) == Err::<Gen, TemplateError>(e),
{
    let ghost ps = parts_view(parts@);
    let mut r = rendered_empty();
    let mut i: usize = 0;
    assert(ps.subrange(0, 0).len() == 0);
    while i < parts.len()
        invariant
            i <= parts@.len(),
            ps == parts_view(parts@),
            parts_gen(*args, ps.subrange(0, i as int)) == Ok::<Gen, TemplateError>(gen_view(r)),
        decreases parts.len() - i,
    {
        assert(ps.subrange(0, i + 1).drop_last() =~= ps.subrange(0, i as int));
        assert(ps.subrange(0, i + 1).last() == parts@[i as int]@);
        match text_part_to_code(&parts[i], args) {
            Ok(g) => rendered_append(&mut r, g),
            Err(e) => {
                proof {
                    lemma_parts_gen_err(*args, ps, (i + 1) as int);
                }
                return Err(e);
            },
        }
        i = i + 1;
    }
    assert(ps.subrange(0, ps.len() as int) =~= ps);
    Ok(r)
}

proof fn lemma_parts_gen_err(a: Args, ps: Seq<PartView>, k: int)
    requires
        0 <= k <= ps.len(),
        parts_gen(a, ps.subrange(0, k)) is Err,
    ensures
        parts_gen(a, ps) == parts_gen(a, ps.subrange(0, k)),
    decreases ps.len() - k,
{
    if k < ps.len() {
        assert(ps.subrange(0, k + 1).drop_last() =~= ps.subrange(0, k));
        lemma_parts_gen_err(a, ps, k + 1);
    } else {
        assert(ps.subrange(0, k) =~= ps);
    }
}

/// The string that opens a variable.
pub open spec fn open_bound(a: Args) -> Seq<char> {
    a.config.variable_bounds.0@
}

/// The string that closes a variable.
pub open spec fn close_bound(a: Args) -> Seq<char> {
    a.config.variable_bounds.1@
}

/// Attributes that steer generation and are never emitted.
pub open spec fn is_directive(name: Seq<char>) -> bool {
    name == "opt"@ || name == "iter"@ || name == "present-if"@
}

/// A value that is itself a string or character literal.
pub open spec fn is_quoted_value(v: Seq<char>) -> bool {
    v.len() >= 2 && ((v[0] == '"' && v.last() == '"') || (v[0] == '\'' && v.last() == '\''))
}

/// A format string with its arguments, while an attribute value is walked.
pub struct FmtState {
    pub fmt: Seq<char>,
    pub args: Seq<Seq<char>>,
    pub opts: Seq<Seq<char>>,
    pub iters: Seq<Seq<char>>,
}

/// The format string and arguments for a mixed attribute value: literals and
/// quoted values go into the format string with their braces doubled, other
/// values become `{}` and an argument.
pub open spec fn fmt_walk(a: Args, ps: Seq<PartView>) -> Result<FmtState, TemplateError>
    decreases ps.len(),
{
    if ps.len() == 0 {
        Ok(FmtState { fmt: Seq::empty(), args: Seq::empty(), opts: Seq::empty(), iters: Seq::empty() })
    } else {
        match fmt_walk(a, ps.drop_last()) {
            Err(e) => Err(e),
            Ok(st) => match ps.last() {
                PartView::Literal(t) => Ok(FmtState { fmt: st.fmt + double_braces(t), ..st }),
                PartView::Expression(id) => match resolve(a, id) {
                    Err(e) => Err(e),
                    Ok(v) => {
                        let o = st.opts + opt_record(id);
                        let i = st.iters + iter_record(id);
                        if is_quoted_value(v) {
                            Ok(
                                FmtState {
                                    fmt: st.fmt + double_braces(v.subrange(1, v.len() - 1)),
                                    args: st.args,
                                    opts: o,
                                    iters: i,
                                },
                            )
                        } else {
                            match part_gen(a, PartView::Expression(id)) {
                                Err(e) => Err(e),
                                Ok(g) => Ok(
                                    FmtState {
                                        fmt: st.fmt + "{}"@,
                                        args: st.args.push(g.code),
                                        opts: o + g.opts,
                                        iters: i + g.iters,
                                    },
                                ),
                            }
                        }
                    },
                },
            },
        }
    }
}

/// Code for one attribute, or nothing for a directive or an empty value.
pub open spec fn attr_gen(a: Args, name: Seq<char>, value: Seq<char>) -> Result<
    Option<Gen>,
    TemplateError,
> {
    if is_directive(name) {
        Ok(None)
    } else {
        match parse_spec(value, open_bound(a), close_bound(a)) {
            None => Err(TemplateError::UnclosedExpression),
            Some(ps) => if ps.len() == 0 {
                Ok(None)
            } else if ps.len() == 1 {
                match ps[0] {
                    PartView::Literal(t) => if t == "true"@ || t == "false"@ {
                        Ok(
                            Some(
                                Gen {
                                    code: name + seq!['=', '{'] + t + seq!['}'],
                                    opts: Seq::empty(),
                                    iters: Seq::empty(),
                                },
                            ),
                        )
                    } else {
                        match part_gen(a, ps[0]) {
                            Err(e) => Err(e),
                            Ok(g) => Ok(Some(Gen { code: name + seq!['='] + g.code, ..g })),
                        }
                    },
                    PartView::Expression(_) => match part_gen(a, ps[0]) {
                        Err(e) => Err(e),
                        Ok(g) => Ok(Some(Gen { code: name + seq!['='] + g.code, ..g })),
                    },
                }
            } else {
                match fmt_walk(a, ps) {
                    Err(e) => Err(e),
                    Ok(st) => Ok(
                        Some(
                            Gen {
                                code: name + "={format!("@ + quoted(st.fmt) + ", "@ + join(
                                    st.args,
                                    ", "@,
                                ) + ")}"@,
                                opts: st.opts,
                                iters: st.iters,
                            },
                        ),
                    ),
                }
            },
        }
    }
}

proof fn lemma_fmt_walk_err(a: Args, ps: Seq<PartView>, k: int)
    requires
        0 <= k <= ps.len(),
        fmt_walk(a, ps.subrange(0, k)) is Err,
    ensures
        fmt_walk(a, ps) == fmt_walk(a, ps.subrange(0, k)),
    decreases ps.len() - k,
{
    if k < ps.len() {
        assert(ps.subrange(0, k + 1).drop_last() =~= ps.subrange(0, k));
        lemma_fmt_walk_err(a, ps, k + 1);
    } else {
        assert(ps.subrange(0, k) =~= ps);
    }
}

/// Code for one attribute, or nothing for a directive (`opt`, `iter`,
/// `present-if`) or an empty value.
pub fn attr_to_code(name: &str, value: &str, args: &Args) -> (r: Result<Option<Rendered>, TemplateError>)
    requires
        args_ok(*args),
    ensures
        r matches Ok(o) ==> attr_gen(*args, name@, value@) == Ok::<Option<Gen>, TemplateError>(
            match o {
                Some(g) => Some(gen_view(g)),
                None => None,
            },
        ),
        r matches Err(e) ==> attr_gen(*args, name@, value@) == Err::<Option<Gen>, TemplateError>(e),
{
    if str_eq(name, "opt") || str_eq(name, "iter") || str_eq(name, "present-if") {
        return Ok(None);
    }
    let parts = TextPart::parse(
        value,
        args.config.variable_bounds.0.as_str(),
        args.config.variable_bounds.1.as_str(),
    )?;
    let ghost ps = parts_view(parts@);
    if parts.len() == 0 {
        return Ok(None);
    }
    if parts.len() == 1 {
        assert(ps[0] == parts@[0]@);
        if let TextPart::Literal(t) = &parts[0] {
            if str_eq(t.as_str(), "true") || str_eq(t.as_str(), "false") {
                let mut code = String::from_str(name);
                code.append("={");
                code.append(t.as_str());
                code.append("}");
                proof {
                    reveal_strlit("={");
                    reveal_strlit("}");
                }
                let r = rendered_empty();
                let r = Rendered { code, ..r };
                assert(gen_view(r).code =~= name@ + seq!['=', '{'] + t@ + seq!['}']);
                return Ok(Some(r));
            }
        }
        let g = text_part_to_code(&parts[0], args)?;
        let mut code = String::from_str(name);
        code.append("=");
        code.append(g.code.as_str());
        proof {
            reveal_strlit("=");
        }
        let r = Rendered { code, ..g };
        assert(gen_view(r).code =~= name@ + seq!['='] + gen_view(g).code);
        return Ok(Some(r));
    }
    let mut fmt = String::new();
    let mut fargs: Vec<String> = Vec::new();
    let mut opts: Vec<String> = Vec::new();
    let mut iters: Vec<String> = Vec::new();
    let mut i: usize = 0;
    assert(ps.subrange(0, 0).len() == 0);
    assert(strings_view(fargs@) =~= Seq::<Seq<char>>::empty());
    assert(strings_view(opts@) =~= Seq::<Seq<char>>::empty());
    assert(strings_view(iters@) =~= Seq::<Seq<char>>::empty());
    while i < parts.len()
        invariant
            i <= parts@.len(),
            ps == parts_view(parts@),
            parts@.len() >= 2,
            !is_directive(name@),
            parse_spec(value@, open_bound(*args), close_bound(*args)) == Some(ps),
            fmt_walk(*args, ps.subrange(0, i as int)) == Ok::<FmtState, TemplateError>(
                FmtState {
                    fmt: fmt@,
                    args: strings_view(fargs@),
                    opts: strings_view(opts@),
                    iters: strings_view(iters@),
                },
            ),
        decreases parts.len() - i,
    {
        assert(ps.subrange(0, i + 1).drop_last() =~= ps.subrange(0, i as int));
        assert(ps.subrange(0, i + 1).last() == parts@[i as int]@);
        match &parts[i] {
            TextPart::Literal(t) => {
                let tc = chars_of(t.as_str());
                append_double_braces(&mut fmt, tc.as_slice(), 0, tc.len());
                assert(tc@.subrange(0, tc@.len() as int) =~= t@);
            },
            TextPart::Expression(id) => {
                let ghost o0 = strings_view(opts@);
                let ghost i0 = strings_view(iters@);
                let value = match args.get_val(id.as_str(), &mut opts, &mut iters) {
                    Ok(v) => v,
                    Err(e) => {
                        proof {
                            assert(fmt_walk(*args, ps.subrange(0, i + 1)) == Err::<FmtState, TemplateError>(e));
                            lemma_fmt_walk_err(*args, ps, (i + 1) as int);
                        }
                        return Err(e);
                    },
                };
                let vc = chars_of(value.as_str());
                let n = vc.len();
                if n >= 2 && ((vc[0] == '"' && vc[n - 1] == '"') || (vc[0] == '\'' && vc[n - 1]
                    == '\'')) {
                    assert(is_quoted_value(value@));
                    append_double_braces(&mut fmt, vc.as_slice(), 1, n - 1);
                } else {
                    assert(!is_quoted_value(value@));
                    fmt.append("{}");
                    let g = match text_part_to_code(&parts[i], args) {
                        Ok(g) => g,
                        Err(e) => {
                            proof {
                                lemma_fmt_walk_err(*args, ps, (i + 1) as int);
                            }
                            return Err(e);
                        },
                    };
                    let ghost fa = strings_view(fargs@);
                    let ghost o1 = strings_view(opts@);
                    let ghost i1 = strings_view(iters@);
                    let ghost gv = gen_view(g);
                    let Rendered { code: gcode, opts: mut gopts, iters: mut giters } = g;
                    fargs.push(gcode);
                    opts.append(&mut gopts);
                    iters.append(&mut giters);
                    assert(strings_view(fargs@) =~= fa.push(gv.code));
                    assert(strings_view(opts@) =~= o1 + gv.opts);
                    assert(strings_view(iters@) =~= i1 + gv.iters);
                }
            },
        }
        i = i + 1;
    }
    assert(ps.subrange(0, ps.len() as int) =~= ps);
    let mut code = String::from_str(name);
    code.append("={format!(");
    code.append(escaped_str_code(fmt.as_str()).as_str());
    code.append(", ");
    code.append(join_code(&fargs, ", ").as_str());
    code.append(")}");
    let r = Rendered { code, opts, iters };
    assert(gen_view(r).code =~= name@ + "={format!("@ + quoted(fmt@) + ", "@ + join(strings_view(fargs@), ", "@) + ")}"@);
    Ok(Some(r))
}

/// Every translation is a single literal.
pub open spec fn all_single_literal(tr: Seq<(Seq<char>, Seq<PartView>)>) -> bool {
    forall|i: int| 0 <= i < tr.len() ==> (#[trigger] tr[i]).1.len() == 1 && tr[i].1[0] is Literal
}

/// The pattern of the arm for translation `i`: the source locale is the
/// fallback arm.
pub open spec fn arm_label(tr: Seq<(Seq<char>, Seq<PartView>)>, i: int) -> Seq<char> {
    if i == 0 {
        "_"@
    } else {
        quoted(tr[i].0)
    }
}

/// Match arms yielding string literals, for translations `hi - 1` down to `lo`.
pub open spec fn literal_arms(tr: Seq<(Seq<char>, Seq<PartView>)>, lo: int, hi: int, depth: nat) -> Seq<
    char,
>
    decreases hi - lo,
{
    if lo >= hi {
        Seq::empty()
    } else {
        literal_arms(tr, lo + 1, hi, depth) + tabs(depth) + "    "@ + arm_label(tr, lo) + " => "@
            + quoted(tr[lo].1[0]->Literal_0) + ",\n"@
    }
}

/// Match arms yielding markup, for translations `hi - 1` down to `lo`.
pub open spec fn markup_arms(
    a: Args,
    tr: Seq<(Seq<char>, Seq<PartView>)>,
    lo: int,
    hi: int,
    depth: nat,
) -> Result<Gen, TemplateError>
    decreases hi - lo,
{
    if lo >= hi {
        Ok(gen_empty())
    } else {
        match markup_arms(a, tr, lo + 1, hi, depth) {
            Err(e) => Err(e),
            Ok(g) => match parts_gen(a, tr[lo].1) {
                Err(e) => Err(e),
                Ok(h) => Ok(
                    Gen {
                        code: g.code + tabs(depth) + "    "@ + arm_label(tr, lo)
                            + " => yew::html! { <> "@ + h.code + " </> },\n"@,
                        opts: g.opts + h.opts,
                        iters: g.iters + h.iters,
                    },
                ),
            },
        }
    }
}

/// The start of a match on the locale.
pub open spec fn match_head(a: Args, depth: nat) -> Seq<char> {
    "\n"@ + tabs(depth) + "{match "@ + a.config.locale_code@ + " {\n"@
}

/// Code for a text node: a lone expression as its value; otherwise its parts,
/// or a match on the locale when the catalog translates it.
pub open spec fn text_gen(a: Args, t: Seq<char>, depth: nat) -> Result<Gen, TemplateError> {
    match parse_spec(t, open_bound(a), close_bound(a)) {
        None => Err(TemplateError::UnclosedExpression),
        Some(ps) => if ps.len() == 1 && ps[0] is Expression {
            part_gen(a, ps[0])
        } else {
            match translations_from(
                catalog_view(a.catalog),
                t,
                a.context@,
                open_bound(a),
                close_bound(a),
            ) {
                None => Err(TemplateError::UnclosedExpression),
                Some(tr) => if tr.len() == 1 {
                    match parts_gen(a, tr[0].1) {
                        Err(e) => Err(e),
                        Ok(g) => Ok(Gen { code: "\n"@ + tabs(depth) + g.code, ..g }),
                    }
                } else if all_single_literal(tr) {
                    Ok(
                        Gen {
                            code: match_head(a, depth) + literal_arms(tr, 0, tr.len() as int, depth)
                                + tabs(depth) + "}}"@,
                            opts: Seq::empty(),
                            iters: Seq::empty(),
                        },
                    )
                } else {
                    match markup_arms(a, tr, 0, tr.len() as int, depth) {
                        Err(e) => Err(e),
                        Ok(g) => Ok(
                            Gen { code: match_head(a, depth) + g.code + tabs(depth) + "}}"@, ..g },
                        ),
                    }
                },
            }
        },
    }
}

proof fn lemma_markup_arms_err(a: Args, tr: Seq<(Seq<char>, Seq<PartView>)>, k: int, depth: nat)
    requires
        0 <= k <= tr.len(),
        markup_arms(a, tr, k, tr.len() as int, depth) is Err,
    ensures
        markup_arms(a, tr, 0, tr.len() as int, depth) == markup_arms(a, tr, k, tr.len() as int, depth),
    decreases k,
{
    if k > 0 {
        lemma_markup_arms_err(a, tr, k - 1, depth);
    }
}

/// Code for a text node at the given depth.
#[verifier::rlimit(50)]
pub fn text_to_code(text: &str, depth: usize, args: &Args) -> (r: Result<Rendered, TemplateError>)
    requires
        args_ok(*args),
    ensures
        r matches Ok(g) ==> text_gen(*args, text@, depth as nat) == Ok::<Gen, TemplateError>(gen_view(g)),
        r matches Err(e) ==> text_gen(*args, text@, depth as nat) == Err::<Gen, TemplateError>(e),
{
    let ob = args.config.variable_bounds.0.as_str();
    let cb = args.config.variable_bounds.1.as_str();
    let parts = TextPart::parse(text, ob, cb)?;
    let ghost ps = parts_view(parts@);
    if parts.len() == 1 {
        assert(ps[0] == parts@[0]@);
        if let TextPart::Expression(_) = &parts[0] {
            return text_part_to_code(&parts[0], args);
        }
    }
    let tr = args.catalog.translate_text(text, args.context.as_str(), ob, cb)?;
    let ghost trv = translations_view(tr@);
    let tabs_s = tabs_code(depth);
    if tr.len() == 1 {
        assert(trv[0].1 == parts_view(tr@[0].1@));
        let g = parts_to_code(&tr[0].1, args)?;
        let mut code = String::new();
        code.append("\n");
        code.append(tabs_s.as_str());
        code.append(g.code.as_str());
        let r = Rendered { code, ..g };
        return Ok(r);
    }
    let n = tr.len();
    let mut single = true;
    let mut k: usize = 0;
    while k < n
        invariant
            k <= n,
            n == tr@.len(),
            trv == translations_view(tr@),
            single == (forall|j: int| 0 <= j < k ==> (#[trigger] trv[j]).1.len() == 1 && trv[j].1[0] is Literal),
        decreases n - k,
    {
        assert(trv[k as int].1 == parts_view(tr@[k as int].1@));
        let is_lit = tr[k].1.len() == 1 && match &tr[k].1[0] {
            TextPart::Literal(_) => true,
            TextPart::Expression(_) => false,
        };
        if !is_lit {
            single = false;
        }
        k = k + 1;
    }
    let mut code = String::new();
    code.append("\n");
    code.append(tabs_s.as_str());
    code.append("{match ");
    code.append(args.config.locale_code.as_str());
    code.append(" {\n");
    if single {
        let mut i: usize = n;
        while i > 0
            invariant
                i <= n,
                n == tr@.len(),
                trv == translations_view(tr@),
                all_single_literal(trv),
                tabs_s@ == tabs(depth as nat),
                code@ == match_head(*args, depth as nat) + literal_arms(trv, i as int, n as int, depth as nat),
            decreases i,
        {
            let j = i - 1;
            assert(trv[j as int].1 == parts_view(tr@[j as int].1@));
            assert(trv[j as int].0 == tr@[j as int].0@);
            assert(trv[j as int].1.len() == 1 && trv[j as int].1[0] is Literal);
            let mut item = String::new();
            item.append(tabs_s.as_str());
            item.append("    ");
            if j == 0 {
                item.append("_");
            } else {
                item.append(escaped_str_code(tr[j].0.as_str()).as_str());
            }
            item.append(" => ");
            match &tr[j].1[0] {
                TextPart::Literal(t) => {
                    item.append(escaped_str_code(t.as_str()).as_str());
                },
                TextPart::Expression(_) => {},
            }
            item.append(",\n");
            assert(item@ =~= tabs(depth as nat) + "    "@ + arm_label(trv, j as int) + " => "@
                + quoted(trv[j as int].1[0]->Literal_0) + ",\n"@);
            let ghost c0 = code@;
            code.append(item.as_str());
            assert(code@ =~= c0 + tabs(depth as nat) + "    "@ + arm_label(trv, j as int) + " => "@
                + quoted(trv[j as int].1[0]->Literal_0) + ",\n"@);
            i = j;
        }
        code.append(tabs_s.as_str());
        code.append("}}");
        let r = rendered_empty();
        let r = Rendered { code, ..r };
        return Ok(r);
    }
    let mut arms = rendered_empty();
    let mut i: usize = n;
    while i > 0
        invariant
            i <= n,
            n == tr@.len(),
            trv == translations_view(tr@),
            tabs_s@ == tabs(depth as nat),
            markup_arms(*args, trv, i as int, n as int, depth as nat) == Ok::<Gen, TemplateError>(gen_view(arms)),
            n != 1,
            !all_single_literal(trv),
            parse_spec(text@, open_bound(*args), close_bound(*args)) == Some(ps),
            !(ps.len() == 1 && ps[0] is Expression),
            translations_from(catalog_view(args.catalog), text@, args.context@, open_bound(*args), close_bound(*args)) == Some(trv),
        decreases i,
    {
        let j = i - 1;
        assert(trv[j as int].1 == parts_view(tr@[j as int].1@));
        assert(trv[j as int].0 == tr@[j as int].0@);
        let h = match parts_to_code(&tr[j].1, args) {
            Ok(h) => h,
            Err(e) => {
                proof {
                    lemma_markup_arms_err(*args, trv, j as int, depth as nat);
                }
                return Err(e);
            },
        };
        let mut item = String::new();
        item.append(tabs_s.as_str());
        item.append("    ");
        if j == 0 {
            item.append("_");
        } else {
            item.append(escaped_str_code(tr[j].0.as_str()).as_str());
        }
        item.append(" => yew::html! { <> ");
        item.append(h.code.as_str());
        item.append(" </> },\n");
        assert(item@ =~= tabs(depth as nat) + "    "@ + arm_label(trv, j as int) + " => yew::html! { <> "@ + h.code@ + " </> },\n"@);
        let ghost hg = gen_view(h);
        let ghost old_g = gen_view(arms);
        let piece = Rendered { code: item, opts: h.opts, iters: h.iters };
        rendered_append(&mut arms, piece);
        assert(gen_view(arms).code =~= old_g.code + tabs(depth as nat) + "    "@ + arm_label(trv, j as int) + " => yew::html! { <> "@ + hg.code + " </> },\n"@);
        i = j;
    }
    code.append(arms.code.as_str());
    code.append(tabs_s.as_str());
    code.append("}}");
    let r = Rendered { code, opts: arms.opts, iters: arms.iters };
    Ok(r)
}

/// The value of the first attribute called `name`.
pub open spec fn first_attr(attrs: Seq<(Seq<char>, Seq<char>)>, name: Seq<char>) -> Option<Seq<char>>
    decreases attrs.len(),
{
    if attrs.len() == 0 {
        None
    } else if attrs[0].0 == name {
        Some(attrs[0].1)
    } else {
        first_attr(attrs.drop_first(), name)
    }
}

/// The code of each emitted attribute, with the identifiers they left unresolved.
pub struct AttrState {
    pub codes: Seq<Seq<char>>,
    pub opts: Seq<Seq<char>>,
    pub iters: Seq<Seq<char>>,
}

pub open spec fn attrs_walk(a: Args, attrs: Seq<(Seq<char>, Seq<char>)>) -> Result<AttrState, TemplateError>
    decreases attrs.len(),
{
    if attrs.len() == 0 {
        Ok(AttrState { codes: Seq::empty(), opts: Seq::empty(), iters: Seq::empty() })
    } else {
        match attrs_walk(a, attrs.drop_last()) {
            Err(e) => Err(e),
            Ok(st) => match attr_gen(a, attrs.last().0, attrs.last().1) {
                Err(e) => Err(e),
                Ok(None) => Ok(st),
                Ok(Some(g)) => Ok(
                    AttrState {
                        codes: st.codes.push(g.code),
                        opts: st.opts + g.opts,
                        iters: st.iters + g.iters,
                    },
                ),
            },
        }
    }
}

/// The attribute list as it follows a tag name.
pub open spec fn attrs_text(codes: Seq<Seq<char>>) -> Seq<char> {
    if codes.len() > 0 {
        " "@ + join(codes, " "@)
    } else {
        Seq::empty()
    }
}

/// The depth of an element's children.
pub open spec fn next_depth(depth: nat) -> nat {
    if depth < usize::MAX {
        depth + 1
    } else {
        depth
    }
}

/// The values bound to each identifier, in order.
pub open spec fn resolve_all(a: Args, ids: Seq<Seq<char>>) -> Result<Seq<Seq<char>>, TemplateError>
    decreases ids.len(),
{
    if ids.len() == 0 {
        Ok(Seq::empty())
    } else {
        match resolve_all(a, ids.drop_last()) {
            Err(e) => Err(e),
            Ok(vs) => match resolve(a, ids.last()) {
                Err(e) => Err(e),
                Ok(v) => Ok(vs.push(v)),
            },
        }
    }
}

/// The element's own markup around the code of its children.
pub open spec fn markup(e: ElementSpec, fo: Seq<char>, fc: Seq<char>, kids: Seq<char>, depth: nat) -> Result<
    Seq<char>,
    TemplateError,
> {
    if e.name == "virtual"@ {
        if fo.len() > 0 || fc.len() > 0 {
            Err(TemplateError::VirtualWithAttributes)
        } else {
            Ok(unindent(kids))
        }
    } else if e.self_closing {
        if e.name == "br"@ {
            Ok("<"@ + e.name + " "@ + fo + "/>"@)
        } else {
            Ok("\n"@ + tabs(depth) + "<"@ + e.name + fo + "/>"@)
        }
    } else {
        Ok(
            "\n"@ + tabs(depth) + "<"@ + e.name + fo + ">"@ + kids + "\n"@ + tabs(depth) + "</"@
                + e.name + fc + ">"@,
        )
    }
}

/// The patterns `Some(macro_produced_<id>)` of a guard.
pub open spec fn some_patterns(ids: Seq<Seq<char>>) -> Seq<char> {
    join(ids.map_values(|id: Seq<char>| "Some("@ + produced(id) + ")"@), ", "@)
}

/// The content under a guard that binds every optional identifier, rendering
/// nothing unless all of them are present.
pub open spec fn wrap_opt(a: Args, content: Seq<char>, ids: Seq<Seq<char>>, depth: nat) -> Result<
    Seq<char>,
    TemplateError,
> {
    match resolve_all(a, ids) {
        Err(e) => Err(e),
        Ok(vals) => Ok(
            "\n"@ + tabs(depth) + "if let ("@ + some_patterns(ids) + ") = ("@ + join(vals, ", "@)
                + ") { "@ + indent_lines(content, "    "@) + "\n"@ + tabs(depth) + "}"@,
        ),
    }
}

/// The cursor declarations of an iteration.
pub open spec fn cursor_decls(ids: Seq<Seq<char>>, vals: Seq<Seq<char>>) -> Seq<char> {
    join(
        Seq::new(ids.len(), |i: int| "let mut "@ + produced(ids[i]) + " = "@ + vals[i] + ";"@),
        Seq::empty(),
    )
}

/// The calls that advance each cursor.
pub open spec fn cursor_steps(ids: Seq<Seq<char>>) -> Seq<char> {
    join(ids.map_values(|id: Seq<char>| produced(id) + ".next()"@), ", "@)
}

/// The content repeated while every cursor yields a value, the fragments
/// collected in order.
pub open spec fn wrap_iter(a: Args, content: Seq<char>, ids: Seq<Seq<char>>, depth: nat) -> Result<
    Seq<char>,
    TemplateError,
> {
    match resolve_all(a, ids) {
        Err(e) => Err(e),
        Ok(vals) => {
            let t = tabs(depth);
            Ok(
                "\n"@ + t + "{{\n"@ + t + cursor_decls(ids, vals) + "\n"@ + t
                    + "let mut fragments = Vec::new();\n"@ + t + "while let ("@ + some_patterns(ids)
                    + ") = ("@ + cursor_steps(ids) + ") {\n"@ + t
                    + "    fragments.push(yew::html! { <> "@ + indent_lines(content, "        "@)
                    + " \n"@ + t + "    </> });\n"@ + t + "}\n"@ + t
                    + "fragments.into_iter().collect::<yew::Html>()\n"@ + t + "}}"@,
            )
        },
    }
}

/// The content under a condition on the variable named by a `present-if`
/// value, negated by a leading `!`.
pub open spec fn wrap_present(a: Args, content: Seq<char>, v: Seq<char>, depth: nat) -> Result<
    Seq<char>,
    TemplateError,
> {
    let neg = starts_with(v, "!"@);
    let w = if neg { v.drop_first() } else { v };
    let ob = open_bound(a);
    let cb = close_bound(a);
    if !(starts_with(w, ob) && ends_with(w, cb) && w.len() >= ob.len() + cb.len()) {
        Err(TemplateError::PresentIfNotVariable)
    } else {
        match resolve(a, w.subrange(ob.len() as int, w.len() - cb.len())) {
            Err(e) => Err(e),
            Ok(val) => Ok(
                "\n"@ + tabs(depth) + "if "@ + (if neg { "!"@ } else { Seq::empty() }) + "{"@ + val
                    + "} {"@ + tabs(depth) + indent_lines(content, "    "@) + "\n"@ + tabs(depth)
                    + "}"@,
            ),
        }
    }
}

/// The element's markup under its directives: iteration innermost, then the
/// optional guard, then the `present-if` condition.
pub open spec fn finish_element(
    a: Args,
    e: ElementSpec,
    depth: nat,
    content: Seq<char>,
    opts: Seq<Seq<char>>,
    iters: Seq<Seq<char>>,
) -> Result<Gen, TemplateError> {
    let opt = first_attr(e.open_attrs, "opt"@) is Some;
    let iter = first_attr(e.open_attrs, "iter"@) is Some;
    match (if iter { wrap_iter(a, content, iters, depth) } else { Ok(content) }) {
        Err(e) => Err(e),
        Ok(c2) => match (if opt { wrap_opt(a, c2, opts, depth) } else { Ok(c2) }) {
            Err(e) => Err(e),
            Ok(c3) => match (match first_attr(e.open_attrs, "present-if"@) {
                None => Ok(c3),
                Some(v) => wrap_present(a, c3, v, depth),
            }) {
                Err(e) => Err(e),
                Ok(c4) => Ok(
                    Gen {
                        code: c4,
                        opts: if opt { Seq::empty() } else { opts },
                        iters: if iter { Seq::empty() } else { iters },
                    },
                ),
            },
        },
    }
}

/// Code for an element and everything below it.
pub open spec fn element_gen(a: Args, e: ElementSpec, depth: nat) -> Result<Gen, TemplateError>
    decreases e,
{
    if e.self_closing && e.close_attrs.len() > 0 {
        Err(TemplateError::SelfClosingWithCloseAttrs)
    } else if e.self_closing && e.children.len() > 0 {
        Err(TemplateError::SelfClosingWithChildren)
    } else {
        match attrs_walk(a, e.open_attrs) {
            Err(x) => Err(x),
            Ok(oa) => match attrs_walk(a, e.close_attrs) {
                Err(x) => Err(x),
                Ok(ca) => match children_gen(a, e.children, next_depth(depth)) {
                    Err(x) => Err(x),
                    Ok(kids) => match markup(
                        e,
                        attrs_text(oa.codes),
                        attrs_text(ca.codes),
                        kids.code,
                        depth,
                    ) {
                        Err(x) => Err(x),
                        Ok(content) => finish_element(
                            a,
                            e,
                            depth,
                            content,
                            sort_dedup(oa.opts + ca.opts + kids.opts),
                            sort_dedup(oa.iters + ca.iters + kids.iters),
                        ),
                    },
                },
            },
        }
    }
}

/// Code for a sequence of children, one after another.
pub open spec fn children_gen(a: Args, cs: Seq<ChildSpec>, depth: nat) -> Result<Gen, TemplateError>
    decreases cs,
{
    if cs.len() == 0 {
        Ok(gen_empty())
    } else {
        match children_gen(a, cs.drop_last(), depth) {
            Err(x) => Err(x),
            Ok(g) => match (match cs.last().part {
                PartSpec::Text(t) => text_gen(a, t, depth),
                PartSpec::Element(e) => element_gen(a, e, depth),
            }) {
                Err(x) => Err(x),
                Ok(h) => Ok(gen_cat(g, h)),
            },
        }
    }
}

fn first_attr_code(attrs: &Vec<(String, String)>, name: &str) -> (r: Option<String>)
    ensures
        r matches Some(v) ==> first_attr(attrs_view(attrs@), name@) == Some(v@),
        r is None ==> first_attr(attrs_view(attrs@), name@) is None,
{
    let ghost av = attrs_view(attrs@);
    let mut i: usize = 0;
    assert(av.subrange(0, av.len() as int) =~= av);
    while i < attrs.len()
        invariant
            i <= attrs@.len(),
            av == attrs_view(attrs@),
            first_attr(av, name@) == first_attr(av.subrange(i as int, av.len() as int), name@),
        decreases attrs.len() - i,
    {
        assert(av.subrange(i as int, av.len() as int).drop_first() =~= av.subrange(i + 1, av.len() as int));
        if str_eq(attrs[i].0.as_str(), name) {
            return Some(attrs[i].1.clone());
        }
        i = i + 1;
    }
    None
}

/// The code of each emitted attribute, with the identifiers they left unresolved.
#[derive(Debug)]
pub struct AttrsRendered {
    pub codes: Vec<String>,
    pub opts: Vec<String>,
    pub iters: Vec<String>,
}

pub open spec fn attrs_rendered_view(r: AttrsRendered) -> AttrState {
    AttrState {
        codes: strings_view(r.codes@),
        opts: strings_view(r.opts@),
        iters: strings_view(r.iters@),
    }
}

proof fn lemma_attrs_walk_err(a: Args, v: Seq<(Seq<char>, Seq<char>)>, k: int)
    requires
        0 <= k <= v.len(),
        attrs_walk(a, v.subrange(0, k)) is Err,
    ensures
        attrs_walk(a, v) == attrs_walk(a, v.subrange(0, k)),
    decreases v.len() - k,
{
    if k < v.len() {
        assert(v.subrange(0, k + 1).drop_last() =~= v.subrange(0, k));
        lemma_attrs_walk_err(a, v, k + 1);
    } else {
        assert(v.subrange(0, k) =~= v);
    }
}

/// Code for each attribute of a list, in order.
pub fn attrs_to_code(attrs: &Vec<(String, String)>, args: &Args) -> (r: Result<AttrsRendered, TemplateError>)
    requires
        args_ok(*args),
    ensures
        r matches Ok(g) ==> attrs_walk(*args, attrs_view(attrs@)) == Ok::<AttrState, TemplateError>(attrs_rendered_view(g)),
        r matches Err(e) ==> attrs_walk(*args, attrs_view(attrs@)) == Err::<AttrState, TemplateError>(e),
{
    let ghost av = attrs_view(attrs@);
    let mut r = AttrsRendered { codes: Vec::new(), opts: Vec::new(), iters: Vec::new() };
    assert(attrs_rendered_view(r).codes =~= Seq::<Seq<char>>::empty());
    assert(attrs_rendered_view(r).opts =~= Seq::<Seq<char>>::empty());
    assert(attrs_rendered_view(r).iters =~= Seq::<Seq<char>>::empty());
    assert(av.subrange(0, 0).len() == 0);
    let mut i: usize = 0;
    while i < attrs.len()
        invariant
            i <= attrs@.len(),
            av == attrs_view(attrs@),
            args_ok(*args),
            attrs_walk(*args, av.subrange(0, i as int)) == Ok::<AttrState, TemplateError>(attrs_rendered_view(r)),
        decreases attrs.len() - i,
    {
        assert(av.subrange(0, i + 1).drop_last() =~= av.subrange(0, i as int));
        assert(av.subrange(0, i + 1).last() == av[i as int]);
        match attr_to_code(attrs[i].0.as_str(), attrs[i].1.as_str(), args) {
            Err(e) => {
                proof {
                    lemma_attrs_walk_err(*args, av, (i + 1) as int);
                }
                return Err(e);
            },
            Ok(None) => {},
            Ok(Some(g)) => {
                let ghost gv = gen_view(g);
                let ghost r0 = attrs_rendered_view(r);
                let Rendered { code, opts: mut go, iters: mut gi } = g;
                r.codes.push(code);
                r.opts.append(&mut go);
                r.iters.append(&mut gi);
                assert(attrs_rendered_view(r).codes =~= r0.codes.push(gv.code));
                assert(attrs_rendered_view(r).opts =~= r0.opts + gv.opts);
                assert(attrs_rendered_view(r).iters =~= r0.iters + gv.iters);
            },
        }
        i = i + 1;
    }
    assert(av.subrange(0, av.len() as int) =~= av);
    Ok(r)
}

fn attrs_text_code(codes: &Vec<String>) -> (r: String)
    ensures
        r@ == attrs_text(strings_view(codes@)),
{
    if codes.len() > 0 {
        let mut r = String::from_str(" ");
        r.append(join_code(codes, " ").as_str());
        r
    } else {
        String::new()
    }
}

proof fn lemma_resolve_all_err(a: Args, v: Seq<Seq<char>>, k: int)
    requires
        0 <= k <= v.len(),
        resolve_all(a, v.subrange(0, k)) is Err,
    ensures
        resolve_all(a, v) == resolve_all(a, v.subrange(0, k)),
    decreases v.len() - k,
{
    if k < v.len() {
        assert(v.subrange(0, k + 1).drop_last() =~= v.subrange(0, k));
        lemma_resolve_all_err(a, v, k + 1);
    } else {
        assert(v.subrange(0, k) =~= v);
    }
}

fn resolve_all_code(ids: &Vec<String>, args: &Args) -> (r: Result<Vec<String>, TemplateError>)
    ensures
        r matches Ok(v) ==> resolve_all(*args, strings_view(ids@)) == Ok::<Seq<Seq<char>>, TemplateError>(strings_view(v@)),
        r matches Err(e) ==> resolve_all(*args, strings_view(ids@)) == Err::<Seq<Seq<char>>, TemplateError>(e),
{
    let ghost sv = strings_view(ids@);
    let mut out: Vec<String> = Vec::new();
    let mut i: usize = 0;
    assert(sv.subrange(0, 0).len() == 0);
    assert(strings_view(out@) =~= Seq::<Seq<char>>::empty());
    while i < ids.len()
        invariant
            i <= ids@.len(),
            sv == strings_view(ids@),
            resolve_all(*args, sv.subrange(0, i as int)) == Ok::<Seq<Seq<char>>, TemplateError>(strings_view(out@)),
        decreases ids.len() - i,
    {
        assert(sv.subrange(0, i + 1).drop_last() =~= sv.subrange(0, i as int));
        assert(sv.subrange(0, i + 1).last() == ids@[i as int]@);
        let mut o: Vec<String> = Vec::new();
        let mut t: Vec<String> = Vec::new();
        match args.get_val(ids[i].as_str(), &mut o, &mut t) {
            Ok(v) => {
                let ghost before = strings_view(out@);
                out.push(v);
                assert(strings_view(out@) =~= before.push(v@));
            },
            Err(e) => {
                proof {
                    lemma_resolve_all_err(*args, sv, (i + 1) as int);
                }
                return Err(e);
            },
        }
        i = i + 1;
    }
    assert(sv.subrange(0, sv.len() as int) =~= sv);
    Ok(out)
}

fn some_patterns_code(ids: &Vec<String>) -> (r: String)
    ensures
        r@ == some_patterns(strings_view(ids@)),
{
    let mut items: Vec<String> = Vec::new();
    let mut i: usize = 0;
    while i < ids.len()
        invariant
            i <= ids@.len(),
            strings_view(items@) == strings_view(ids@).subrange(0, i as int).map_values(
                |id: Seq<char>| "Some("@ + produced(id) + ")"@,
            ),
        decreases ids.len() - i,
    {
        let mut item = String::from_str("Some(");
        item.append("macro_produced_");
        item.append(ids[i].as_str());
        item.append(")");
        assert(item@ =~= "Some("@ + produced(ids@[i as int]@) + ")"@);
        let ghost before = strings_view(items@);
        items.push(item);
        assert(strings_view(items@) =~= before.push(item@));
        assert(strings_view(ids@)[i as int] == ids@[i as int]@);
        assert(strings_view(items@) =~= strings_view(ids@).subrange(0, i + 1).map_values(
            |id: Seq<char>| "Some("@ + produced(id) + ")"@,
        ));
        i = i + 1;
    }
    assert(strings_view(ids@).subrange(0, ids@.len() as int) =~= strings_view(ids@));
    join_code(&items, ", ")
}

fn cursor_steps_code(ids: &Vec<String>) -> (r: String)
    ensures
        r@ == cursor_steps(strings_view(ids@)),
{
    let mut items: Vec<String> = Vec::new();
    let mut i: usize = 0;
    while i < ids.len()
        invariant
            i <= ids@.len(),
            strings_view(items@) == strings_view(ids@).subrange(0, i as int).map_values(
                |id: Seq<char>| produced(id) + ".next()"@,
            ),
        decreases ids.len() - i,
    {
        let mut item = String::from_str("macro_produced_");
        item.append(ids[i].as_str());
        item.append(".next()");
        assert(item@ =~= produced(ids@[i as int]@) + ".next()"@);
        let ghost before = strings_view(items@);
        items.push(item);
        assert(strings_view(items@) =~= before.push(item@));
        assert(strings_view(ids@)[i as int] == ids@[i as int]@);
        assert(strings_view(items@) =~= strings_view(ids@).subrange(0, i + 1).map_values(
            |id: Seq<char>| produced(id) + ".next()"@,
        ));
        i = i + 1;
    }
    assert(strings_view(ids@).subrange(0, ids@.len() as int) =~= strings_view(ids@));
    join_code(&items, ", ")
}

fn cursor_decls_code(ids: &Vec<String>, vals: &Vec<String>) -> (r: String)
    requires
        ids@.len() == vals@.len(),
    ensures
        r@ == cursor_decls(strings_view(ids@), strings_view(vals@)),
{
    let ghost want = Seq::new(
        ids@.len(),
        |i: int| "let mut "@ + produced(ids@[i]@) + " = "@ + vals@[i]@ + ";"@,
    );
    let mut items: Vec<String> = Vec::new();
    let mut i: usize = 0;
    while i < ids.len()
        invariant
            i <= ids@.len(),
            ids@.len() == vals@.len(),
            want.len() == ids@.len(),
            want == Seq::new(ids@.len(), |i: int| "let mut "@ + produced(ids@[i]@) + " = "@ + vals@[i]@ + ";"@),
            strings_view(items@) == want.subrange(0, i as int),
        decreases ids.len() - i,
    {
        let mut item = String::from_str("let mut ");
        item.append("macro_produced_");
        item.append(ids[i].as_str());
        item.append(" = ");
        item.append(vals[i].as_str());
        item.append(";");
        assert(item@ =~= want[i as int]);
        let ghost before = strings_view(items@);
        items.push(item);
        assert(strings_view(items@) =~= before.push(item@));
        assert(strings_view(items@) =~= want.subrange(0, i + 1));
        i = i + 1;
    }
    assert(want.subrange(0, want.len() as int) =~= want);
    assert(want =~= Seq::new(
        strings_view(ids@).len(),
        |i: int| "let mut "@ + produced(strings_view(ids@)[i]) + " = "@ + strings_view(vals@)[i] + ";"@,
    ));
    proof {
        reveal_strlit("");
    }
    assert(""@ =~= Seq::<char>::empty());
    join_code(&items, "")
}

fn markup_code(el: &Element, fo: &str, fc: &str, kids: &str, depth: usize) -> (r: Result<String, TemplateError>)
    ensures
        r matches Ok(c) ==> markup(element_view(*el), fo@, fc@, kids@, depth as nat) == Ok::<Seq<char>, TemplateError>(c@),
        r matches Err(e) ==> markup(element_view(*el), fo@, fc@, kids@, depth as nat) == Err::<Seq<char>, TemplateError>(e),
{
    let name = el.name.as_str();
    if str_eq(name, "virtual") {
        if fo.unicode_len() > 0 || fc.unicode_len() > 0 {
            return Err(TemplateError::VirtualWithAttributes);
        }
        return Ok(unindent_code(kids));
    }
    let t = tabs_code(depth);
    let mut c = String::new();
    if el.self_closing {
        if str_eq(name, "br") {
            c.append("<");
            c.append(name);
            c.append(" ");
            c.append(fo);
            c.append("/>");
            assert(c@ =~= "<"@ + name@ + " "@ + fo@ + "/>"@);
        } else {
            c.append("\n");
            c.append(t.as_str());
            c.append("<");
            c.append(name);
            c.append(fo);
            c.append("/>");
            assert(c@ =~= "\n"@ + tabs(depth as nat) + "<"@ + name@ + fo@ + "/>"@);
        }
    } else {
        c.append("\n");
        c.append(t.as_str());
        c.append("<");
        c.append(name);
        c.append(fo);
        c.append(">");
        c.append(kids);
        c.append("\n");
        c.append(t.as_str());
        c.append("</");
        c.append(name);
        c.append(fc);
        c.append(">");
        assert(c@ =~= "\n"@ + tabs(depth as nat) + "<"@ + name@ + fo@ + ">"@ + kids@ + "\n"@
            + tabs(depth as nat) + "</"@ + name@ + fc@ + ">"@);
    }
    Ok(c)
}

fn wrap_opt_code(content: &str, ids: &Vec<String>, depth: usize, args: &Args) -> (r: Result<String, TemplateError>)
    ensures
        r matches Ok(c) ==> wrap_opt(*args, content@, strings_view(ids@), depth as nat) == Ok::<Seq<char>, TemplateError>(c@),
        r matches Err(e) ==> wrap_opt(*args, content@, strings_view(ids@), depth as nat) == Err::<Seq<char>, TemplateError>(e),
{
    let vals = resolve_all_code(ids, args)?;
    let t = tabs_code(depth);
    let mut c = String::from_str("\n");
    c.append(t.as_str());
    c.append("if let (");
    c.append(some_patterns_code(ids).as_str());
    c.append(") = (");
    c.append(join_code(&vals, ", ").as_str());
    c.append(") { ");
    c.append(indent_code(content, "    ").as_str());
    c.append("\n");
    c.append(t.as_str());
    c.append("}");
    assert(c@ =~= "\n"@ + tabs(depth as nat) + "if let ("@ + some_patterns(strings_view(ids@)) + ") = ("@
        + join(strings_view(vals@), ", "@) + ") { "@ + indent_lines(content@, "    "@) + "\n"@
        + tabs(depth as nat) + "}"@);
    Ok(c)
}

proof fn lemma_resolve_all_len(a: Args, ids: Seq<Seq<char>>)
    ensures
        resolve_all(a, ids) matches Ok(v) ==> v.len() == ids.len(),
    decreases ids.len(),
{
    if ids.len() > 0 {
        lemma_resolve_all_len(a, ids.drop_last());
    }
}

fn wrap_iter_code(content: &str, ids: &Vec<String>, depth: usize, args: &Args) -> (r: Result<String, TemplateError>)
    ensures
        r matches Ok(c) ==> wrap_iter(*args, content@, strings_view(ids@), depth as nat) == Ok::<Seq<char>, TemplateError>(c@),
        r matches Err(e) ==> wrap_iter(*args, content@, strings_view(ids@), depth as nat) == Err::<Seq<char>, TemplateError>(e),
{
    let vals = resolve_all_code(ids, args)?;
    proof {
        lemma_resolve_all_len(*args, strings_view(ids@));
    }
    let t = tabs_code(depth);
    let ts = t.as_str();
    let mut c = String::from_str("\n");
    c.append(ts);
    c.append("{{\n");
    c.append(ts);
    c.append(cursor_decls_code(ids, &vals).as_str());
    c.append("\n");
    c.append(ts);
    c.append("let mut fragments = Vec::new();\n");
    c.append(ts);
    c.append("while let (");
    c.append(some_patterns_code(ids).as_str());
    c.append(") = (");
    c.append(cursor_steps_code(ids).as_str());
    c.append(") {\n");
    c.append(ts);
    c.append("    fragments.push(yew::html! { <> ");
    c.append(indent_code(content, "        ").as_str());
    c.append(" \n");
    c.append(ts);
    c.append("    </> });\n");
    c.append(ts);
    c.append("}\n");
    c.append(ts);
    c.append("fragments.into_iter().collect::<yew::Html>()\n");
    c.append(ts);
    c.append("}}");
    let ghost tt = tabs(depth as nat);
    let ghost idv = strings_view(ids@);
    assert(c@ =~= "\n"@ + tt + "{{\n"@ + tt + cursor_decls(idv, strings_view(vals@)) + "\n"@ + tt
        + "let mut fragments = Vec::new();\n"@ + tt + "while let ("@ + some_patterns(idv)
        + ") = ("@ + cursor_steps(idv) + ") {\n"@ + tt
        + "    fragments.push(yew::html! { <> "@ + indent_lines(content@, "        "@)
        + " \n"@ + tt + "    </> });\n"@ + tt + "}\n"@ + tt
        + "fragments.into_iter().collect::<yew::Html>()\n"@ + tt + "}}"@);
    Ok(c)
}

fn wrap_present_code(content: &str, v: &str, depth: usize, args: &Args) -> (r: Result<String, TemplateError>)
    ensures
        r matches Ok(c) ==> wrap_present(*args, content@, v@, depth as nat) == Ok::<Seq<char>, TemplateError>(c@),
        r matches Err(e) ==> wrap_present(*args, content@, v@, depth as nat) == Err::<Seq<char>, TemplateError>(e),
{
    let neg = str_starts_with(v, "!");
    let vc = chars_of(v);
    proof {
        reveal_strlit("!");
    }
    let w = if neg {
        string_of(vc.as_slice(), 1, vc.len())
    } else {
        string_of(vc.as_slice(), 0, vc.len())
    };
    assert(vc@.subrange(0, vc@.len() as int) =~= vc@);
    assert(neg ==> vc@.subrange(1, vc@.len() as int) =~= v@.drop_first());
    let ob = args.config.variable_bounds.0.as_str();
    let cb = args.config.variable_bounds.1.as_str();
    let wc = chars_of(w.as_str());
    let obl = ob.unicode_len();
    let cbl = cb.unicode_len();
    if !(str_starts_with(w.as_str(), ob) && str_ends_with(w.as_str(), cb) && wc.len() >= obl
        && wc.len() - obl >= cbl) {
        return Err(TemplateError::PresentIfNotVariable);
    }
    let ident = string_of(wc.as_slice(), obl, wc.len() - cbl);
    let mut o: Vec<String> = Vec::new();
    let mut it: Vec<String> = Vec::new();
    let val = args.get_val(ident.as_str(), &mut o, &mut it)?;
    let t = tabs_code(depth);
    let mut c = String::from_str("\n");
    c.append(t.as_str());
    c.append("if ");
    if neg {
        c.append("!");
    }
    c.append("{");
    c.append(val.as_str());
    c.append("} {");
    c.append(t.as_str());
    c.append(indent_code(content, "    ").as_str());
    c.append("\n");
    c.append(t.as_str());
    c.append("}");
    assert(c@ =~= "\n"@ + tabs(depth as nat) + "if "@ + (if neg { "!"@ } else { Seq::empty() }) + "{"@
        + val@ + "} {"@ + tabs(depth as nat) + indent_lines(content@, "    "@) + "\n"@
        + tabs(depth as nat) + "}"@);
    Ok(c)
}

/// Puts an element's markup under its directives.
fn finish_element_code(
    el: &Element,
    depth: usize,
    content: String,
    opts: Vec<String>,
    iters: Vec<String>,
    args: &Args,
) -> (r: Result<Rendered, TemplateError>)
    ensures
        r matches Ok(g) ==> finish_element(
            *args,
            element_view(*el),
            depth as nat,
            content@,
            strings_view(opts@),
            strings_view(iters@),
        ) == Ok::<Gen, TemplateError>(gen_view(g)),
        r matches Err(e) ==> finish_element(
            *args,
            element_view(*el),
            depth as nat,
            content@,
            strings_view(opts@),
            strings_view(iters@),
        ) == Err::<Gen, TemplateError>(e),
{
    let opt = first_attr_code(&el.open_attrs, "opt").is_some();
    let iter = first_attr_code(&el.open_attrs, "iter").is_some();
    let present_if = first_attr_code(&el.open_attrs, "present-if");
    let c2 = if iter {
        wrap_iter_code(content.as_str(), &iters, depth, args)?
    } else {
        content
    };
    let c3 = if opt {
        wrap_opt_code(c2.as_str(), &opts, depth, args)?
    } else {
        c2
    };
    let c4 = match present_if {
        None => c3,
        Some(v) => wrap_present_code(c3.as_str(), v.as_str(), depth, args)?,
    };
    let out_opts = if opt {
        Vec::new()
    } else {
        opts
    };
    let out_iters = if iter {
        Vec::new()
    } else {
        iters
    };
    let r = Rendered { code: c4, opts: out_opts, iters: out_iters };
    assert(opt ==> gen_view(r).opts =~= Seq::<Seq<char>>::empty());
    assert(iter ==> gen_view(r).iters =~= Seq::<Seq<char>>::empty());
    Ok(r)
}

proof fn lemma_children_gen_err(a: Args, cs: Seq<ChildSpec>, k: int, depth: nat)
    requires
        0 <= k <= cs.len(),
        children_gen(a, cs.subrange(0, k), depth) is Err,
    ensures
        children_gen(a, cs, depth) == children_gen(a, cs.subrange(0, k), depth),
    decreases cs.len() - k,
{
    if k < cs.len() {
        assert(cs.subrange(0, k + 1).drop_last() =~= cs.subrange(0, k));
        lemma_children_gen_err(a, cs, k + 1, depth);
    } else {
        assert(cs.subrange(0, k) =~= cs);
    }
}

/// Code for an element and everything below it, at the given depth.
pub fn element_to_code(el: &Element, depth: usize, args: &Args) -> (r: Result<Rendered, TemplateError>)
    requires
        args_ok(*args),
    ensures
        r matches Ok(g) ==> element_gen(*args, element_view(*el), depth as nat) == Ok::<Gen, TemplateError>(gen_view(g)),
        r matches Err(e) ==> element_gen(*args, element_view(*el), depth as nat) == Err::<Gen, TemplateError>(e),
    decreases element_view(*el), 1nat,
{
    let ghost ev = element_view(*el);
    if el.self_closing && el.close_attrs.len() > 0 {
        return Err(TemplateError::SelfClosingWithCloseAttrs);
    }
    proof {
        lemma_children_view(el.children@);
    }
    if el.self_closing && el.children.len() > 0 {
        return Err(TemplateError::SelfClosingWithChildren);
    }
    let oa = attrs_to_code(&el.open_attrs, args)?;
    let ca = attrs_to_code(&el.close_attrs, args)?;
    let child_depth = if depth < usize::MAX {
        depth + 1
    } else {
        depth
    };
    let kids = children_to_code(&el.children, child_depth, args)?;
    let fo = attrs_text_code(&oa.codes);
    let fc = attrs_text_code(&ca.codes);
    let content = markup_code(el, fo.as_str(), fc.as_str(), kids.code.as_str(), depth)?;
    let ghost kv = gen_view(kids);
    let ghost oav = attrs_rendered_view(oa);
    let ghost cav = attrs_rendered_view(ca);
    let AttrsRendered { codes: _, opts: mut oo, iters: mut oi } = oa;
    let AttrsRendered { codes: _, opts: mut co, iters: mut ci } = ca;
    let Rendered { code: _, opts: mut ko, iters: mut ki } = kids;
    oo.append(&mut co);
    oo.append(&mut ko);
    oi.append(&mut ci);
    oi.append(&mut ki);
    assert(strings_view(oo@) =~= oav.opts + cav.opts + kv.opts);
    assert(strings_view(oi@) =~= oav.iters + cav.iters + kv.iters);
    let opts = sort_dedup_code(&oo);
    let iters = sort_dedup_code(&oi);
    finish_element_code(el, depth, content, opts, iters, args)
}

/// Code for a sequence of children, one after another, at the given depth.
pub fn children_to_code(children: &Vec<HtmlPartWithLine>, depth: usize, args: &Args) -> (r: Result<
    Rendered,
    TemplateError,
>)
    requires
        args_ok(*args),
    ensures
        r matches Ok(g) ==> children_gen(*args, children_view(children@), depth as nat) == Ok::<Gen, TemplateError>(gen_view(g)),
        r matches Err(e) ==> children_gen(*args, children_view(children@), depth as nat) == Err::<Gen, TemplateError>(e),
    decreases children_view(children@), 0nat,
{
    let ghost cv = children_view(children@);
    proof {
        lemma_children_view(children@);
    }
    let mut r = rendered_empty();
    let mut i: usize = 0;
    assert(cv.subrange(0, 0).len() == 0);
    while i < children.len()
        invariant
            i <= children@.len(),
            cv == children_view(children@),
            cv.len() == children@.len(),
            forall|j: int| 0 <= j < children@.len() ==> #[trigger] cv[j] == child_view(children@[j]),
            args_ok(*args),
            children_gen(*args, cv.subrange(0, i as int), depth as nat) == Ok::<Gen, TemplateError>(gen_view(r)),
        decreases children.len() - i,
    {
        assert(cv.subrange(0, i + 1).drop_last() =~= cv.subrange(0, i as int));
        assert(cv.subrange(0, i + 1).last() == cv[i as int]);
        let h = match &children[i].part {
            HtmlPart::Text(t) => text_to_code(t.as_str(), depth, args),
            HtmlPart::Element(e) => {
                proof {
                    assert(decreases_to!(cv => cv[i as int]));
                    assert(decreases_to!(cv[i as int] => cv[i as int].part));
                    assert(decreases_to!(cv[i as int].part => cv[i as int].part->Element_0));
                }
                element_to_code(e, depth, args)
            },
        };
        match h {
            Ok(h) => rendered_append(&mut r, h),
            Err(e) => {
                proof {
                    lemma_children_gen_err(*args, cv, (i + 1) as int, depth as nat);
                }
                return Err(e);
            },
        }
        i = i + 1;
    }
    assert(cv.subrange(0, cv.len() as int) =~= cv);
    Ok(r)
}

/// The whole generated expression for a template's root element.
pub open spec fn generated(a: Args, root: ElementSpec) -> Result<Seq<char>, TemplateError> {
    match element_gen(a, root, 0) {
        Err(e) => Err(e),
        Ok(g) => Ok("yew::html! { "@ + g.code + " }"@),
    }
}

/// Generates the `yew::html!` invocation for a template's root element.
pub fn generate_code(root: &Element, args: &Args) -> (r: Result<String, TemplateError>)
    requires
        args_ok(*args),
    ensures
        r matches Ok(c) ==> generated(*args, element_view(*root)) == Ok::<Seq<char>, TemplateError>(c@),
        r matches Err(e) ==> generated(*args, element_view(*root)) == Err::<Seq<char>, TemplateError>(e),
{
    let g = element_to_code(root, 0, args)?;
    let mut c = String::from_str("yew::html! { ");
    c.append(g.code.as_str());
    c.append(" }");
    Ok(c)
}

} // verus!
