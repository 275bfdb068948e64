//! Building blocks of generated code: escaping, indentation, joining and
//! ordering of identifier lists.

use vstd::prelude::*;
use crate::text::{chars_of, matches_at, occurs_at, push_char};

verus! {

/// `c` as it stands inside a quoted string literal of generated code.
pub open spec fn escape_char(c: char) -> Seq<char> {
    if c == '\\' {
        seq!['\\', '\\']
    } else if c == '"' {
        seq!['\\', '"']
    } else {
        seq![c]
    }
}

/// `s` with every backslash and double quote escaped by a backslash.
pub open spec fn escape(s: Seq<char>) -> Seq<char>
    decreases s.len(),
{
    if s.len() == 0 {
        Seq::empty()
    } else {
        escape(s.drop_last()) + escape_char(s.last())
    }
}

/// `s` as a quoted string literal of generated code.
pub open spec fn quoted(s: Seq<char>) -> Seq<char> {
    seq!['"'] + escape(s) + seq!['"']
}

/// Embeds an outside string into generated code as a string literal, so that
/// no character of it can end the literal early.
pub fn escaped_str_code(t: &str) -> (r: String)
    ensures
        r@ == quoted(t@),
{
    let cs = chars_of(t);
    let mut r = String::new();
    push_char(&mut r, '"');
    let mut i: usize = 0;
    while i < cs.len()
        invariant
            i <= cs@.len(),
            cs@ == t@,
            r@ == seq!['"'] + escape(cs@.subrange(0, i as int)),
        decreases cs.len() - i,
    {
        let c = cs[i];
        if c == '\\' {
            push_char(&mut r, '\\');
            push_char(&mut r, '\\');
        } else if c == '"' {
            push_char(&mut r, '\\');
            push_char(&mut r, '"');
        } else {
            push_char(&mut r, c);
        }
        assert(cs@.subrange(0, i + 1).drop_last() =~= cs@.subrange(0, i as int));
        i = i + 1;
        assert(r@ =~= seq!['"'] + escape(cs@.subrange(0, i as int)));
    }
    push_char(&mut r, '"');
    assert(cs@.subrange(0, cs@.len() as int) =~= cs@);
    r
}

/// `c` as it stands inside a format string of generated code.
pub open spec fn brace_char(c: char) -> Seq<char> {
    if c == '{' {
        seq!['{', '{']
    } else if c == '}' {
        seq!['}', '}']
    } else {
        seq![c]
    }
}

/// `s` with every brace doubled.
pub open spec fn double_braces(s: Seq<char>) -> Seq<char>
    decreases s.len(),
{
    if s.len() == 0 {
        Seq::empty()
    } else {
        double_braces(s.drop_last()) + brace_char(s.last())
    }
}

/// Appends `s[from..to]` to `out` with every brace doubled.
pub fn append_double_braces(out: &mut String, s: &[char], from: usize, to: usize)
    requires
        from <= to <= s@.len(),
    ensures
        final(out)@ == old(out)@ + double_braces(s@.subrange(from as int, to as int)),
{
    let mut i: usize = from;
    assert(s@.subrange(from as int, from as int) =~= Seq::<char>::empty());
    while i < to
        invariant
            from <= i <= to <= s@.len(),
            out@ == old(out)@ + double_braces(s@.subrange(from as int, i as int)),
        decreases to - i,
    {
        let c = s[i];
        if c == '{' {
            push_char(out, '{');
            push_char(out, '{');
        } else if c == '}' {
            push_char(out, '}');
            push_char(out, '}');
        } else {
            push_char(out, c);
        }
        assert(s@.subrange(from as int, i + 1).drop_last() =~= s@.subrange(from as int, i as int));
        i = i + 1;
        assert(out@ =~= old(out)@ + double_braces(s@.subrange(from as int, i as int)));
    }
}

/// Four spaces for each level of depth.
pub open spec fn tabs(depth: nat) -> Seq<char>
    decreases depth,
{
    if depth == 0 {
        Seq::empty()
    } else {
        tabs((depth - 1) as nat) + "    "@
    }
}

pub fn tabs_code(depth: usize) -> (r: String)
    ensures
        r@ == tabs(depth as nat),
{
    let mut r = String::new();
    let mut i: usize = 0;
    while i < depth
        invariant
            i <= depth,
            r@ == tabs(i as nat),
        decreases depth - i,
    {
        r.append("    ");
        i = i + 1;
    }
    r
}

/// `s` with every newline followed by `indent`.
pub open spec fn indent_lines(s: Seq<char>, indent: Seq<char>) -> Seq<char>
    decreases s.len(),
{
    if s.len() == 0 {
        Seq::empty()
    } else {
        indent_lines(s.drop_last(), indent) + if s.last() == '\n' {
            seq!['\n'] + indent
        } else {
            seq![s.last()]
        }
    }
}

pub fn indent_code(s: &str, indent: &str) -> (r: String)
    ensures
        r@ == indent_lines(s@, indent@),
{
    let cs = chars_of(s);
    let mut r = String::new();
    let mut i: usize = 0;
    while i < cs.len()
        invariant
            i <= cs@.len(),
            cs@ == s@,
            r@ == indent_lines(cs@.subrange(0, i as int), indent@),
        decreases cs.len() - i,
    {
        let c = cs[i];
        push_char(&mut r, c);
        if c == '\n' {
            r.append(indent);
        }
        assert(cs@.subrange(0, i + 1).drop_last() =~= cs@.subrange(0, i as int));
        i = i + 1;
        assert(r@ =~= indent_lines(cs@.subrange(0, i as int), indent@));
    }
    assert(cs@.subrange(0, cs@.len() as int) =~= cs@);
    r
}

/// A newline followed by four spaces.
pub open spec fn indented_newline() -> Seq<char> {
    seq!['\n', ' ', ' ', ' ', ' ']
}

/// `s` from position `i` on, with each newline followed by four spaces taken
/// back to a bare newline, scanning left to right.
pub open spec fn unindent_from(s: Seq<char>, i: int) -> Seq<char>
    decreases s.len() - i,
{
    if i < 0 || i >= s.len() {
        Seq::empty()
    } else if occurs_at(s, indented_newline(), i) {
        seq!['\n'] + unindent_from(s, i + 5)
    } else {
        seq![s[i]] + unindent_from(s, i + 1)
    }
}

pub open spec fn unindent(s: Seq<char>) -> Seq<char> {
    unindent_from(s, 0)
}

pub fn unindent_code(s: &str) -> (r: String)
    ensures
        r@ == unindent(s@),
{
    let cs = chars_of(s);
    let pat: Vec<char> = vec!['\n', ' ', ' ', ' ', ' '];
    assert(pat@ =~= indented_newline());
    let mut r = String::new();
    let mut i: usize = 0;
    while i < cs.len()
        invariant
            i <= cs@.len(),
            cs@ == s@,
            pat@ == indented_newline(),
            r@ + unindent_from(cs@, i as int) == unindent(cs@),
        decreases cs.len() - i,
    {
        if matches_at(cs.as_slice(), pat.as_slice(), i) {
            push_char(&mut r, '\n');
            assert(r@ + unindent_from(cs@, i + 5) =~= unindent(cs@));
            i = i + 5;
        } else {
            push_char(&mut r, cs[i]);
            assert(r@ + unindent_from(cs@, i + 1) =~= unindent(cs@));
            i = i + 1;
        }
    }
    assert(r@ =~= unindent(cs@));
    r
}

/// The items joined with `sep` between each two.
pub open spec fn join(items: Seq<Seq<char>>, sep: Seq<char>) -> Seq<char>
    decreases items.len(),
{
    if items.len() == 0 {
        Seq::empty()
    } else if items.len() == 1 {
        items[0]
    } else {
        join(items.drop_last(), sep) + sep + items.last()
    }
}

pub fn join_code(items: &Vec<String>, sep: &str) -> (r: String)
    ensures
        r@ == join(items@.map_values(|s: String| s@), sep@),
{
    let ghost v = items@.map_values(|s: String| s@);
    let mut r = String::new();
    let mut i: usize = 0;
    while i < items.len()
        invariant
            i <= items@.len(),
            v == items@.map_values(|s: String| s@),
            r@ == join(v.subrange(0, i as int), sep@),
        decreases items.len() - i,
    {
        if i > 0 {
            r.append(sep);
        }
        r.append(items[i].as_str());
        assert(v.subrange(0, i + 1).drop_last() =~= v.subrange(0, i as int));
        i = i + 1;
    }
    assert(v.subrange(0, items@.len() as int) =~= v);
    r
}

/// Code-point order of strings, a proper prefix first.
pub open spec fn seq_lt(a: Seq<char>, b: Seq<char>) -> bool
    decreases a.len(),
{
    if b.len() == 0 {
        false
    } else if a.len() == 0 {
        true
    } else if a[0] != b[0] {
        a[0] < b[0]
    } else {
        seq_lt(a.drop_first(), b.drop_first())
    }
}

pub fn str_lt(a: &str, b: &str) -> (r: bool)
    ensures
        r == seq_lt(a@, b@),
{
    let x = chars_of(a);
    let y = chars_of(b);
    let mut i: usize = 0;
    assert(x@.subrange(0, x@.len() as int) =~= x@);
    assert(y@.subrange(0, y@.len() as int) =~= y@);
    while i < x.len() && i < y.len() && x[i] == y[i]
        invariant
            i <= x@.len(),
            i <= y@.len(),
            x@ == a@,
            y@ == b@,
            seq_lt(a@, b@) == seq_lt(x@.subrange(i as int, x@.len() as int), y@.subrange(i as int, y@.len() as int)),
        decreases x.len() - i,
    {
        assert(x@.subrange(i as int, x@.len() as int).drop_first() =~= x@.subrange(i + 1, x@.len() as int));
        assert(y@.subrange(i as int, y@.len() as int).drop_first() =~= y@.subrange(i + 1, y@.len() as int));
        i = i + 1;
    }
    proof {
        assert(x@.subrange(0, x@.len() as int) =~= x@);
        assert(y@.subrange(0, y@.len() as int) =~= y@);
    }
    if i == y.len() {
        false
    } else if i == x.len() {
        true
    } else {
        x[i] < y[i]
    }
}

/// `x` put into place in the ordered list `s`, unless `s` holds it already.
pub open spec fn insert_sorted(s: Seq<Seq<char>>, x: Seq<char>) -> Seq<Seq<char>>
    decreases s.len(),
{
    if s.len() == 0 {
        seq![x]
    } else if s[0] == x {
        s
    } else if seq_lt(x, s[0]) {
        seq![x] + s
    } else {
        seq![s[0]] + insert_sorted(s.drop_first(), x)
    }
}

/// The items in code-point order, each once.
pub open spec fn sort_dedup(s: Seq<Seq<char>>) -> Seq<Seq<char>>
    decreases s.len(),
{
    if s.len() == 0 {
        Seq::empty()
    } else {
        insert_sorted(sort_dedup(s.drop_last()), s.last())
    }
}

pub open spec fn strings_view(v: Seq<String>) -> Seq<Seq<char>> {
    v.map_values(|s: String| s@)
}

fn insert_sorted_code(v: &mut Vec<String>, x: String)
    ensures
        strings_view(final(v)@) == insert_sorted(strings_view(old(v)@), x@),
{
    let ghost s = strings_view(v@);
    let mut i: usize = 0;
    assert(s.subrange(0, s.len() as int) =~= s);
    assert(s.subrange(0, 0) + s =~= s);
    while i < v.len()
        invariant
            i <= v@.len(),
            v@ == old(v)@,
            s == strings_view(v@),
            insert_sorted(s, x@) == s.subrange(0, i as int) + insert_sorted(s.subrange(i as int, s.len() as int), x@),
            forall|j: int| 0 <= j < i ==> s[j] != x@,
        decreases v.len() - i,
    {
        let ghost rest = s.subrange(i as int, s.len() as int);
        assert(rest[0] == s[i as int]);
        assert(s[i as int] == v@[i as int]@);
        if v[i] == x {
            assert(insert_sorted(rest, x@) == rest);
            assert(s.subrange(0, i as int) + rest =~= s);
            return;
        }
        if str_lt(x.as_str(), v[i].as_str()) {
            v.insert(i, x);
            assert(strings_view(v@) =~= s.subrange(0, i as int) + (seq![x@] + rest));
            return;
        }
        assert(rest.drop_first() =~= s.subrange(i + 1, s.len() as int));
        assert(s.subrange(0, i as int) + (seq![rest[0]] + insert_sorted(rest.drop_first(), x@))
            =~= s.subrange(0, i + 1) + insert_sorted(s.subrange(i + 1, s.len() as int), x@));
        i = i + 1;
    }
    v.push(x);
    assert(strings_view(v@) =~= s.subrange(0, i as int) + seq![x@]);
}

/// The identifiers in code-point order, each once.
pub fn sort_dedup_code(v: &Vec<String>) -> (r: Vec<String>)
    ensures
        strings_view(r@) == sort_dedup(strings_view(v@)),
{
    let ghost s = strings_view(v@);
    let mut r: Vec<String> = Vec::new();
    let mut i: usize = 0;
    assert(strings_view(r@) =~= Seq::<Seq<char>>::empty());
    while i < v.len()
        invariant
            i <= v@.len(),
            s == strings_view(v@),
            strings_view(r@) == sort_dedup(s.subrange(0, i as int)),
        decreases v.len() - i,
    {
        insert_sorted_code(&mut r, v[i].clone());
        assert(s.subrange(0, i + 1).drop_last() =~= s.subrange(0, i as int));
        i = i + 1;
    }
    assert(s.subrange(0, v@.len() as int) =~= s);
    r
}

} // verus!
