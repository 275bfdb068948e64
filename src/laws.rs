//! What the generated code guarantees, stated over the generator's spec
//! functions.

use vstd::prelude::*;
use crate::args::{args_ok, resolve, Args};
use crate::code::{indent_lines, insert_sorted, join, seq_lt, sort_dedup, tabs};
use crate::codegen::{
    attrs_text, attrs_walk, children_gen, close_bound, cursor_decls, cursor_steps, element_gen,
    first_attr, markup, next_depth, open_bound, resolve_all, some_patterns, wrap_iter, wrap_opt,
    wrap_present,
};
use crate::element::ElementSpec;
use crate::text::starts_with;

verus! {

/// The markup of an element before its directives, and the optional and
/// iterator identifiers collected below it, ordered and without repeats.
pub open spec fn inner_parts(a: Args, e: ElementSpec, depth: nat) -> (Seq<char>, Seq<Seq<char>>, Seq<Seq<char>>) {
    let oa = attrs_walk(a, e.open_attrs)->Ok_0;
    let ca = attrs_walk(a, e.close_attrs)->Ok_0;
    let kids = children_gen(a, e.children, next_depth(depth))->Ok_0;
    (
        markup(e, attrs_text(oa.codes), attrs_text(ca.codes), kids.code, depth)->Ok_0,
        sort_dedup(oa.opts + ca.opts + kids.opts),
        sort_dedup(oa.iters + ca.iters + kids.iters),
    )
}

/// An element marked `opt` renders under one guard that requires a value for
/// every optional identifier collected below it, binds each, and renders
/// nothing otherwise; it hands none of those identifiers up to its parent.
pub proof fn lemma_opt_guards_all(a: Args, e: ElementSpec, depth: nat)
    requires
        first_attr(e.open_attrs, "opt"@) is Some,
        first_attr(e.open_attrs, "iter"@) is None,
        first_attr(e.open_attrs, "present-if"@) is None,
        element_gen(a, e, depth) is Ok,
    ensures
        ({
            let (content, ids, _) = inner_parts(a, e, depth);
            let g = element_gen(a, e, depth)->Ok_0;
            &&& resolve_all(a, ids) is Ok
            &&& g.opts.len() == 0
            &&& g.code == "\n"@ + tabs(depth) + "if let ("@ + some_patterns(ids) + ") = ("@ + join(
                resolve_all(a, ids)->Ok_0,
                ", "@,
            ) + ") { "@ + indent_lines(content, "    "@) + "\n"@ + tabs(depth) + "}"@
        }),
{
}

/// An element marked `iter` renders its content once per step of a loop that
/// advances every iterator identifier collected below it in lockstep and stops
/// as soon as any of them is exhausted; it hands none of them up.
pub proof fn lemma_iter_lockstep(a: Args, e: ElementSpec, depth: nat)
    requires
        first_attr(e.open_attrs, "opt"@) is None,
        first_attr(e.open_attrs, "iter"@) is Some,
        first_attr(e.open_attrs, "present-if"@) is None,
        element_gen(a, e, depth) is Ok,
    ensures
        ({
            let (content, _, ids) = inner_parts(a, e, depth);
            let g = element_gen(a, e, depth)->Ok_0;
            let t = tabs(depth);
            &&& resolve_all(a, ids) is Ok
            &&& g.iters.len() == 0
            &&& g.code == "\n"@ + t + "{{\n"@ + t + cursor_decls(ids, resolve_all(a, ids)->Ok_0)
                + "\n"@ + t + "let mut fragments = Vec::new();\n"@ + t + "while let ("@
                + some_patterns(ids) + ") = ("@ + cursor_steps(ids) + ") {\n"@ + t
                + "    fragments.push(yew::html! { <> "@ + indent_lines(content, "        "@)
                + " \n"@ + t + "    </> });\n"@ + t + "}\n"@ + t
                + "fragments.into_iter().collect::<yew::Html>()\n"@ + t + "}}"@
        }),
{
}

/// Whatever the order of its attributes, an element with all three
/// directives renders as the `present-if` condition around the optional guard,
/// around the iteration loop, around its own markup.
pub proof fn lemma_directive_nesting(a: Args, e: ElementSpec, depth: nat)
    requires
        first_attr(e.open_attrs, "opt"@) is Some,
        first_attr(e.open_attrs, "iter"@) is Some,
        first_attr(e.open_attrs, "present-if"@) is Some,
        element_gen(a, e, depth) is Ok,
    ensures
        ({
            let (content, opts, iters) = inner_parts(a, e, depth);
            let looped = wrap_iter(a, content, iters, depth);
            let guarded = wrap_opt(a, looped->Ok_0, opts, depth);
            &&& looped is Ok
            &&& guarded is Ok
            &&& wrap_present(a, guarded->Ok_0, first_attr(e.open_attrs, "present-if"@)->0, depth)
                == Ok::<Seq<char>, crate::error::TemplateError>(element_gen(a, e, depth)->Ok_0.code)
        }),
{
}

/// `present-if` with a variable renders the content under a condition on the
/// variable's value, and with a leading `!` under its negation.
pub proof fn lemma_present_if(a: Args, content: Seq<char>, id: Seq<char>, depth: nat)
    requires
        args_ok(a),
        open_bound(a)[0] != '!',
        resolve(a, id) is Ok,
    ensures
        wrap_present(a, content, open_bound(a) + id + close_bound(a), depth) == Ok::<Seq<char>, crate::error::TemplateError>(
            "\n"@ + tabs(depth) + "if "@ + "{"@ + resolve(a, id)->Ok_0 + "} {"@ + tabs(depth)
                + indent_lines(content, "    "@) + "\n"@ + tabs(depth) + "}"@,
        ),
        wrap_present(a, content, "!"@ + open_bound(a) + id + close_bound(a), depth) == Ok::<Seq<char>, crate::error::TemplateError>(
            "\n"@ + tabs(depth) + "if "@ + "!"@ + "{"@ + resolve(a, id)->Ok_0 + "} {"@ + tabs(depth)
                + indent_lines(content, "    "@) + "\n"@ + tabs(depth) + "}"@,
        ),
{
    reveal_strlit("!");
    let ob = open_bound(a);
    let cb = close_bound(a);
    let w = ob + id + cb;
    let nw = "!"@ + ob + id + cb;
    assert(nw =~= "!"@ + w);
    assert(!starts_with(w, "!"@)) by {
        if starts_with(w, "!"@) {
            assert(w.subrange(0, 1)[0] == w[0]);
        }
    }
    assert(w.subrange(0, ob.len() as int) =~= ob);
    assert(w.subrange(w.len() - cb.len(), w.len() as int) =~= cb);
    assert(w.subrange(ob.len() as int, w.len() - cb.len()) =~= id);
    assert(nw.subrange(0, 1) =~= "!"@);
    assert(starts_with(nw, "!"@));
    assert(nw.drop_first() =~= w);
    assert(Seq::<char>::empty() + "{"@ =~= "{"@);
    assert("\n"@ + tabs(depth) + "if "@ + Seq::<char>::empty() =~= "\n"@ + tabs(depth) + "if "@);
}

proof fn lemma_lt_irreflexive(a: Seq<char>)
    ensures
        !seq_lt(a, a),
    decreases a.len(),
{
    if a.len() > 0 {
        lemma_lt_irreflexive(a.drop_first());
    }
}

proof fn lemma_lt_total(a: Seq<char>, b: Seq<char>)
    ensures
        a != b ==> seq_lt(a, b) || seq_lt(b, a),
        !(seq_lt(a, b) && seq_lt(b, a)),
    decreases a.len(),
{
    if a.len() > 0 && b.len() > 0 && a[0] == b[0] {
        lemma_lt_total(a.drop_first(), b.drop_first());
        if a.drop_first() == b.drop_first() {
            assert(a =~= seq![a[0]] + a.drop_first());
            assert(b =~= seq![b[0]] + b.drop_first());
        }
    } else if a.len() == 0 && b.len() == 0 {
        assert(a =~= b);
    }
}

proof fn lemma_lt_transitive(a: Seq<char>, b: Seq<char>, c: Seq<char>)
    requires
        seq_lt(a, b),
        seq_lt(b, c),
    ensures
        seq_lt(a, c),
    decreases a.len(),
{
    if a.len() > 0 && b.len() > 0 && c.len() > 0 && a[0] == b[0] && b[0] == c[0] {
        lemma_lt_transitive(a.drop_first(), b.drop_first(), c.drop_first());
    }
}

/// Each item comes before every later one.
pub open spec fn strictly_sorted(s: Seq<Seq<char>>) -> bool {
    forall|i: int, j: int| 0 <= i < j < s.len() ==> seq_lt(#[trigger] s[i], #[trigger] s[j])
}

proof fn lemma_insert_sorted(s: Seq<Seq<char>>, x: Seq<char>)
    requires
        strictly_sorted(s),
    ensures
        strictly_sorted(insert_sorted(s, x)),
        insert_sorted(s, x).to_set() == s.to_set().insert(x),
    decreases s.len(),
{
    if s.len() == 0 {
        assert(seq![x].to_set() =~= Set::<Seq<char>>::empty().insert(x)) by {
            assert(seq![x][0] == x);
        }
        assert(s.to_set() =~= Set::<Seq<char>>::empty());
    } else if s[0] == x {
        assert(s.to_set().insert(x) =~= s.to_set()) by {
            assert(s.contains(x));
        }
    } else if seq_lt(x, s[0]) {
        let r = seq![x] + s;
        assert forall|i: int, j: int| 0 <= i < j < r.len() implies seq_lt(#[trigger] r[i], #[trigger] r[j]) by {
            if i == 0 {
                if j > 1 {
                    lemma_lt_transitive(x, s[0], s[j - 1]);
                }
            } else {
                assert(r[i] == s[i - 1] && r[j] == s[j - 1]);
            }
        }
        assert(r.to_set() =~= s.to_set().insert(x)) by {
            assert forall|y: Seq<char>| r.contains(y) <==> s.to_set().insert(x).contains(y) by {
                if r.contains(y) {
                    let k = choose|k: int| 0 <= k < r.len() && r[k] == y;
                    if k > 0 {
                        assert(s[k - 1] == y);
                    }
                }
                if s.contains(y) {
                    let k = choose|k: int| 0 <= k < s.len() && s[k] == y;
                    assert(r[k + 1] == y);
                }
                if y == x {
                    assert(r[0] == y);
                }
            }
        }
    } else {
        let t = s.drop_first();
        assert forall|i: int, j: int| 0 <= i < j < t.len() implies seq_lt(#[trigger] t[i], #[trigger] t[j]) by {
            assert(t[i] == s[i + 1] && t[j] == s[j + 1]);
        }
        lemma_insert_sorted(t, x);
        lemma_lt_total(x, s[0]);
        let it = insert_sorted(t, x);
        let r = seq![s[0]] + it;
        assert forall|i: int, j: int| 0 <= i < j < r.len() implies seq_lt(#[trigger] r[i], #[trigger] r[j]) by {
            if i == 0 {
                assert(r[j] == it[j - 1]);
                assert(it.to_set().contains(it[j - 1]));
                if it[j - 1] == x {
                } else {
                    let k = choose|k: int| 0 <= k < t.len() && t[k] == it[j - 1];
                    assert(s[k + 1] == t[k]);
                }
            } else {
                assert(r[i] == it[i - 1] && r[j] == it[j - 1]);
            }
        }
        assert(r.to_set() =~= s.to_set().insert(x)) by {
            assert forall|y: Seq<char>| r.contains(y) <==> s.to_set().insert(x).contains(y) by {
                if r.contains(y) {
                    let k = choose|k: int| 0 <= k < r.len() && r[k] == y;
                    if k > 0 {
                        assert(it.to_set().contains(y));
                        if y != x {
                            let m = choose|m: int| 0 <= m < t.len() && t[m] == y;
                            assert(s[m + 1] == y);
                        }
                    } else {
                        assert(s[0] == y);
                    }
                }
                if s.contains(y) {
                    let k = choose|k: int| 0 <= k < s.len() && s[k] == y;
                    if k == 0 {
                        assert(r[0] == y);
                    } else {
                        assert(t[k - 1] == y);
                        assert(t.to_set().contains(y));
                        assert(it.to_set().contains(y));
                        let m = choose|m: int| 0 <= m < it.len() && it[m] == y;
                        assert(r[m + 1] == y);
                    }
                }
                if y == x {
                    assert(it.to_set().contains(x));
                    let m = choose|m: int| 0 <= m < it.len() && it[m] == x;
                    assert(r[m + 1] == x);
                }
            }
        }
    }
}

proof fn lemma_sort_dedup(s: Seq<Seq<char>>)
    ensures
        strictly_sorted(sort_dedup(s)),
        sort_dedup(s).to_set() == s.to_set(),
    decreases s.len(),
{
    if s.len() == 0 {
        assert(sort_dedup(s).to_set() =~= s.to_set());
    } else {
        lemma_sort_dedup(s.drop_last());
        lemma_insert_sorted(sort_dedup(s.drop_last()), s.last());
        assert(s.to_set() =~= s.drop_last().to_set().insert(s.last())) by {
            assert(s =~= s.drop_last().push(s.last()));
            assert forall|y: Seq<char>| s.contains(y) <==> s.drop_last().to_set().insert(s.last()).contains(y) by {
                if s.contains(y) {
                    let k = choose|k: int| 0 <= k < s.len() && s[k] == y;
                    if k < s.len() - 1 {
                        assert(s.drop_last()[k] == y);
                    }
                }
                if s.drop_last().contains(y) {
                    let k = choose|k: int| 0 <= k < s.len() - 1 && s.drop_last()[k] == y;
                    assert(s[k] == y);
                }
            }
        }
    }
}

proof fn lemma_sorted_unique(a: Seq<Seq<char>>, b: Seq<Seq<char>>)
    requires
        strictly_sorted(a),
        strictly_sorted(b),
        a.to_set() == b.to_set(),
    ensures
        a == b,
    decreases a.len(),
{
    if a.len() == 0 {
        if b.len() > 0 {
            assert(b.to_set().contains(b[0]));
        }
        assert(a =~= b);
    } else {
        assert(a.to_set().contains(a[0]));
        assert(b.len() > 0);
        assert(b.to_set().contains(b[0]));
        let ka = choose|k: int| 0 <= k < b.len() && b[k] == a[0];
        let kb = choose|k: int| 0 <= k < a.len() && a[k] == b[0];
        if a[0] != b[0] {
            assert(ka > 0 && kb > 0);
            assert(seq_lt(b[0], b[ka]));
            assert(seq_lt(a[0], a[kb]));
            lemma_lt_total(a[0], b[0]);
        }
        let ta = a.drop_first();
        let tb = b.drop_first();
        assert forall|i: int, j: int| 0 <= i < j < ta.len() implies seq_lt(#[trigger] ta[i], #[trigger] ta[j]) by {
            assert(ta[i] == a[i + 1] && ta[j] == a[j + 1]);
        }
        assert forall|i: int, j: int| 0 <= i < j < tb.len() implies seq_lt(#[trigger] tb[i], #[trigger] tb[j]) by {
            assert(tb[i] == b[i + 1] && tb[j] == b[j + 1]);
        }
        assert(ta.to_set() =~= tb.to_set()) by {
            assert forall|y: Seq<char>| ta.contains(y) implies tb.contains(y) by {
                let k = choose|k: int| 0 <= k < ta.len() && ta[k] == y;
                assert(a[k + 1] == y);
                lemma_lt_irreflexive(y);
                assert(a.to_set().contains(y));
                let m = choose|m: int| 0 <= m < b.len() && b[m] == y;
                if m == 0 {
                    assert(seq_lt(a[0], a[k + 1]));
                }
                assert(tb[m - 1] == y);
            }
            assert forall|y: Seq<char>| tb.contains(y) implies ta.contains(y) by {
                let k = choose|k: int| 0 <= k < tb.len() && tb[k] == y;
                assert(b[k + 1] == y);
                lemma_lt_irreflexive(y);
                assert(b.to_set().contains(y));
                let m = choose|m: int| 0 <= m < a.len() && a[m] == y;
                if m == 0 {
                    assert(seq_lt(b[0], b[k + 1]));
                }
                assert(ta[m - 1] == y);
            }
        }
        lemma_sorted_unique(ta, tb);
        assert(a =~= seq![a[0]] + ta);
        assert(b =~= seq![b[0]] + tb);
    }
}

/// The identifiers a guard or a loop binds come in code-point order, each once,
/// whatever order they were collected in and however often: two collections
/// of the same identifiers give the same list, so generating code twice from
/// one template and one set of bindings gives the same text.
pub proof fn lemma_collection_order_irrelevant(s1: Seq<Seq<char>>, s2: Seq<Seq<char>>)
    requires
        s1.to_set() == s2.to_set(),
    ensures
        sort_dedup(s1) == sort_dedup(s2),
        strictly_sorted(sort_dedup(s1)),
{
    lemma_sort_dedup(s1);
    lemma_sort_dedup(s2);
    lemma_sorted_unique(sort_dedup(s1), sort_dedup(s2));
}

} // verus!
