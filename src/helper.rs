//! Helpers: code snippets with numbered placeholders `[0]`, `[1]`, ...

use vstd::prelude::*;
use crate::code::strings_view;
use crate::text::{chars_of, find_from, find_in, lemma_find_from_occurs, occurs_at, string_of};

verus! {

/// A snippet of code with the placeholders taken out: `glue` is the code
/// around them, `args` says which argument goes at which position of `glue`.
#[derive(Debug)]
pub struct Helper {
    pub glue: String,
    pub args: Vec<(usize, usize)>,
}

pub open spec fn is_digit(c: char) -> bool {
    '0' <= c <= '9'
}

/// Decimal value of a string of digits.
pub open spec fn digits_value(s: Seq<char>) -> nat
    decreases s.len(),
{
    if s.len() == 0 {
        0
    } else {
        digits_value(s.drop_last()) * 10 + (s.last() as nat - '0' as nat) as nat
    }
}

/// The placeholders of `s` from position `from` on, as (argument, start, end)
/// with `s[start..end]` the digits between the brackets; a bracketed text that
/// is not all digits is skipped; `None` for empty brackets or a number too
/// large for `usize`.
pub open spec fn helper_scan(s: Seq<char>, from: int) -> Option<Seq<(nat, int, int)>>
    decreases s.len() - from,
{
    if from < 0 || from > s.len() {
        Some(Seq::empty())
    } else {
        match find_from(s, seq!['['], from) {
            None => Some(Seq::empty()),
            Some(i) => match find_from(s, seq![']'], i + 1) {
                None => Some(Seq::empty()),
                Some(j) => if j <= from || j > s.len() || i + 1 > j {
                    Some(Seq::empty())
                } else {
                    let arg = s.subrange(i + 1, j);
                    match helper_scan(s, j) {
                        None => None,
                        Some(rest) => if forall|k: int| 0 <= k < arg.len() ==> is_digit(#[trigger] arg[k]) {
                            if arg.len() == 0 || digits_value(arg) > usize::MAX {
                                None
                            } else {
                                Some(seq![(digits_value(arg), i + 1, j)] + rest)
                            }
                        } else {
                            Some(rest)
                        },
                    }
                },
            },
        }
    }
}

/// The largest argument number, or 0.
pub open spec fn max_arg(list: Seq<(nat, int, int)>) -> nat
    decreases list.len(),
{
    if list.len() == 0 {
        0
    } else {
        let m = max_arg(list.drop_last());
        if list.last().0 > m {
            list.last().0
        } else {
            m
        }
    }
}

/// Argument `n` has a placeholder.
pub open spec fn has_arg(list: Seq<(nat, int, int)>, n: nat) -> bool {
    exists|k: int| 0 <= k < list.len() && list[k].0 == n
}

/// Every argument from 0 to the largest has a placeholder.
pub open spec fn complete(list: Seq<(nat, int, int)>) -> bool {
    forall|n: nat| n <= max_arg(list) ==> #[trigger] has_arg(list, n)
}

/// The glue before the last segment, the argument positions, and where the
/// next segment starts, after the first placeholders of `list`.
pub struct BuildState {
    pub glue: Seq<char>,
    pub args: Seq<(nat, nat)>,
    pub from: int,
}

pub open spec fn helper_build(s: Seq<char>, list: Seq<(nat, int, int)>) -> BuildState
    decreases list.len(),
{
    if list.len() == 0 {
        BuildState { glue: Seq::empty(), args: Seq::empty(), from: 0 }
    } else {
        let st = helper_build(s, list.drop_last());
        let (a, start, end) = list.last();
        let glue = st.glue + s.subrange(st.from, start - 1);
        BuildState { glue, args: st.args.push((a, glue.len())), from: end + 1 }
    }
}

/// The helper a snippet parses to, with its number of arguments; `None` where
/// a placeholder is empty or too large, or an argument below the largest has
/// no placeholder.
pub open spec fn helper_parse(s: Seq<char>) -> Option<(nat, Seq<char>, Seq<(nat, nat)>)> {
    match helper_scan(s, 0) {
        None => None,
        Some(list) => if !complete(list) || max_arg(list) >= usize::MAX {
            None
        } else {
            let st = helper_build(s, list);
            Some((max_arg(list) + 1, st.glue + s.subrange(st.from, s.len() as int), st.args))
        },
    }
}

pub open spec fn helper_args_view(v: Seq<(usize, usize)>) -> Seq<(nat, nat)> {
    v.map_values(|p: (usize, usize)| (p.0 as nat, p.1 as nat))
}

/// `v` inserted into `s` at position `i`.
pub open spec fn insert_at(s: Seq<char>, i: nat, v: Seq<char>) -> Seq<char> {
    s.subrange(0, i as int) + v + s.subrange(i as int, s.len() as int)
}

/// The code of a helper applied to values, each value put at its position,
/// the last position first.
pub open spec fn helper_apply(glue: Seq<char>, args: Seq<(nat, nat)>, values: Seq<Seq<char>>) -> Seq<char>
    decreases args.len(),
{
    if args.len() == 0 {
        glue
    } else {
        helper_apply(
            insert_at(glue, args.last().1, values[args.last().0 as int]),
            args.drop_last(),
            values,
        )
    }
}

/// The positions never decrease and stay within `len`.
pub open spec fn positions_ok(args: Seq<(nat, nat)>, len: nat) -> bool {
    &&& forall|i: int, j: int| 0 <= i <= j < args.len() ==> (#[trigger] args[i]).1 <= (#[trigger] args[j]).1
    &&& forall|i: int| 0 <= i < args.len() ==> (#[trigger] args[i]).1 <= len
}

pub open spec fn scan_view(v: Seq<(usize, usize, usize)>) -> Seq<(nat, int, int)> {
    v.map_values(|t: (usize, usize, usize)| (t.0 as nat, t.1 as int, t.2 as int))
}

proof fn lemma_scan_props(s: Seq<char>, from: int)
    requires
        0 <= from <= s.len(),
        helper_scan(s, from) is Some,
    ensures
        ({
            let l = helper_scan(s, from)->0;
            &&& forall|k: int| 0 <= k < l.len() ==> from + 1 <= (#[trigger] l[k]).1 <= l[k].2 < s.len()
            &&& forall|k: int| 0 <= k < l.len() - 1 ==> (#[trigger] l[k]).2 + 2 <= l[k + 1].1
        }),
    decreases s.len() - from,
{
    lemma_find_from_occurs(s, seq!['['], from);
    match find_from(s, seq!['['], from) {
        None => {},
        Some(i) => {
            lemma_find_from_occurs(s, seq![']'], i + 1);
            match find_from(s, seq![']'], i + 1) {
                None => {},
                Some(j) => {
                    if j <= from || j > s.len() || i + 1 > j {
                    } else {
                        assert(s.subrange(j, j + 1)[0] == ']');
                        assert(j < s.len());
                        lemma_scan_props(s, j);
                        let rest = helper_scan(s, j)->0;
                        if rest.len() > 0 {
                            lemma_scan_first_open(s, j);
                        }
                    }
                },
            }
        },
    }
}

proof fn lemma_scan_first_open(s: Seq<char>, from: int)
    requires
        0 <= from < s.len(),
        s[from] == ']',
        helper_scan(s, from) matches Some(l) && l.len() > 0,
    ensures
        helper_scan(s, from)->0[0].1 >= from + 2,
    decreases s.len() - from,
{
    lemma_find_from_occurs(s, seq!['['], from);
    let i = find_from(s, seq!['['], from)->0;
    assert(s.subrange(i, i + 1)[0] == '[');
    assert(i != from);
    lemma_find_from_occurs(s, seq![']'], i + 1);
    let j = find_from(s, seq![']'], i + 1)->0;
    let arg = s.subrange(i + 1, j);
    if forall|k: int| 0 <= k < arg.len() ==> is_digit(#[trigger] arg[k]) {
    } else {
        assert(s.subrange(j, j + 1)[0] == ']');
        lemma_scan_props(s, j);
        lemma_scan_first_open(s, j);
    }
}

proof fn lemma_digits_prefix(s: Seq<char>, k: int)
    requires
        0 <= k <= s.len(),
    ensures
        digits_value(s.subrange(0, k)) <= digits_value(s),
    decreases s.len() - k,
{
    if k < s.len() {
        lemma_digits_prefix(s, k + 1);
        assert(s.subrange(0, k + 1).drop_last() =~= s.subrange(0, k));
    } else {
        assert(s.subrange(0, k) =~= s);
    }
}

/// The value of `cs[from..to]`, all digits, or `None` beyond `usize`.
fn digits_code(cs: &[char], from: usize, to: usize) -> (r: Option<usize>)
    requires
        from <= to <= cs@.len(),
        forall|k: int| from <= k < to ==> is_digit(#[trigger] cs@[k]),
    ensures
        r matches Some(v) ==> v as nat == digits_value(cs@.subrange(from as int, to as int)),
        r is None <==> digits_value(cs@.subrange(from as int, to as int)) > usize::MAX,
{
    let ghost arg = cs@.subrange(from as int, to as int);
    let mut v: usize = 0;
    let mut i: usize = from;
    assert(cs@.subrange(from as int, from as int) =~= Seq::<char>::empty());
    while i < to
        invariant
            from <= i <= to <= cs@.len(),
            arg == cs@.subrange(from as int, to as int),
            forall|k: int| from <= k < to ==> is_digit(#[trigger] cs@[k]),
            v as nat == digits_value(cs@.subrange(from as int, i as int)),
        decreases to - i,
    {
        let d = (cs[i] as u32 - '0' as u32) as usize;
        assert(cs@.subrange(from as int, i + 1).drop_last() =~= cs@.subrange(from as int, i as int));
        assert(cs@.subrange(from as int, i + 1) =~= arg.subrange(0, i + 1 - from));
        match v.checked_mul(10) {
            None => {
                proof {
                    lemma_digits_prefix(arg, i + 1 - from);
                }
                return None;
            },
            Some(m) => match m.checked_add(d) {
                None => {
                    proof {
                        lemma_digits_prefix(arg, i + 1 - from);
                    }
                    return None;
                },
                Some(w) => {
                    v = w;
                },
            },
        }
        i = i + 1;
    }
    Some(v)
}

proof fn lemma_complete_missing(list: Seq<(nat, int, int)>, n: nat)
    requires
        n <= max_arg(list),
        !has_arg(list, n),
    ensures
        !complete(list),
{
}

/// The placeholders of `value`, in order.
fn scan_code(cs: &Vec<char>) -> (r: Option<Vec<(usize, usize, usize)>>)
    ensures
        r matches Some(l) ==> helper_scan(cs@, 0) == Some(scan_view(l@)),
        r is None <==> helper_scan(cs@, 0) is None,
{
        let ob: Vec<char> = vec!['['];
        let cb: Vec<char> = vec![']'];
        assert(ob@ =~= seq!['[']);
        assert(cb@ =~= seq![']']);
        let ghost s = cs@;
        let mut list: Vec<(usize, usize, usize)> = Vec::new();
        let mut from: usize = 0;
        assert(scan_view(list@) =~= Seq::<(nat, int, int)>::empty());
        loop
            invariant
                s == cs@,
                ob@ == seq!['['],
                cb@ == seq![']'],
                from <= cs@.len(),
                helper_scan(s, 0) == match helper_scan(s, from as int) {
                    None => None,
                    Some(rest) => Some(scan_view(list@) + rest),
                },
            ensures
                helper_scan(s, 0) == Some(scan_view(list@)),
            decreases cs@.len() - from,
        {
            proof {
                lemma_find_from_occurs(s, ob@, from as int);
            }
            let i = match find_in(cs.as_slice(), ob.as_slice(), from) {
                None => {
                    assert(helper_scan(s, from as int) == Some(Seq::<(nat, int, int)>::empty()));
                    assert(scan_view(list@) + Seq::<(nat, int, int)>::empty() =~= scan_view(list@));
                    break;
                },
                Some(i) => i,
            };
            assert(occurs_at(s, ob@, i as int));
            assert(i + 1 <= cs.len());
            proof {
                lemma_find_from_occurs(s, cb@, i + 1);
            }
            let j = match find_in(cs.as_slice(), cb.as_slice(), i + 1) {
                None => {
                    assert(helper_scan(s, from as int) == Some(Seq::<(nat, int, int)>::empty()));
                    assert(scan_view(list@) + Seq::<(nat, int, int)>::empty() =~= scan_view(list@));
                    break;
                },
                Some(j) => j,
            };
            assert(occurs_at(s, cb@, j as int));
            let mut all_digits = true;
            let mut k: usize = i + 1;
            while k < j
                invariant
                    i + 1 <= k <= j,
                    j < cs@.len(),
                    all_digits == (forall|m: int| i + 1 <= m < k ==> is_digit(#[trigger] cs@[m])),
                decreases j - k,
            {
                if !('0' <= cs[k] && cs[k] <= '9') {
                    all_digits = false;
                }
                k = k + 1;
            }
            let ghost arg = s.subrange(i + 1, j as int);
            assert(all_digits == (forall|m: int| 0 <= m < arg.len() ==> is_digit(#[trigger] arg[m]))) by {
                if !all_digits {
                    let m = choose|m: int| i + 1 <= m < j && !is_digit(#[trigger] cs@[m]);
                    assert(arg[m - i - 1] == cs@[m]);
                }
            }
            if all_digits {
                if j == i + 1 {
                    return None;
                }
                match digits_code(cs.as_slice(), i + 1, j) {
                    None => {
                        return None;
                    },
                    Some(v) => {
                        let ghost before = scan_view(list@);
                        list.push((v, i + 1, j));
                        assert(scan_view(list@) =~= before.push((v as nat, i + 1, j as int)));
                        proof {
                            match helper_scan(s, j as int) {
                                None => {},
                                Some(rest) => {
                                    assert(before + (seq![(v as nat, i + 1, j as int)] + rest) =~= scan_view(list@) + rest);
                                },
                            }
                        }
                    },
                }
            }
            from = j;
        }
        Some(list)
}

/// The largest argument, when every argument up to it has a placeholder.
fn complete_code(list: &Vec<(usize, usize, usize)>) -> (r: Option<usize>)
    ensures
        r matches Some(m) ==> complete(scan_view(list@)) && m as nat == max_arg(scan_view(list@)),
        r is None ==> !complete(scan_view(list@)),
{
        let ghost lv = scan_view(list@);
        let mut max: usize = 0;
        let mut k: usize = 0;
        assert(lv.subrange(0, 0).len() == 0);
        while k < list.len()
            invariant
                k <= list@.len(),
                lv == scan_view(list@),
                max as nat == max_arg(lv.subrange(0, k as int)),
            decreases list.len() - k,
        {
            assert(lv.subrange(0, k + 1).drop_last() =~= lv.subrange(0, k as int));
            if list[k].0 > max {
                max = list[k].0;
            }
            k = k + 1;
        }
        assert(lv.subrange(0, lv.len() as int) =~= lv);
        let mut n: usize = 0;
        loop
            invariant
                n <= max,
                lv == scan_view(list@),
                max as nat == max_arg(lv),
                forall|m: nat| m < n ==> #[trigger] has_arg(lv, m),
            ensures
                forall|m: nat| m <= max ==> #[trigger] has_arg(lv, m),
            decreases max - n,
        {
            let mut found = false;
            let mut k: usize = 0;
            while k < list.len()
                invariant
                    k <= list@.len(),
                    lv == scan_view(list@),
                    !found ==> forall|q: int| 0 <= q < k ==> (#[trigger] lv[q]).0 != n,
                    found ==> has_arg(lv, n as nat),
                decreases list.len() - k,
            {
                if list[k].0 == n {
                    found = true;
                    assert(lv[k as int].0 == n);
                }
                k = k + 1;
            }
            if !found {
                proof {
                    lemma_complete_missing(lv, n as nat);
                }
                return None;
            }
            if n == max {
                break;
            }
            n = n + 1;
        }
        assert(complete(lv));
        Some(max)
}

/// The glue and argument positions of the placeholders of `cs`.
#[verifier::rlimit(50)]
fn build_code(cs: &Vec<char>, list: &Vec<(usize, usize, usize)>) -> (r: (String, Vec<(usize, usize)>))
    requires
        helper_scan(cs@, 0) == Some(scan_view(list@)),
    ensures
        ({
            let st = helper_build(cs@, scan_view(list@));
            &&& r.0@ == st.glue + cs@.subrange(st.from, cs@.len() as int)
            &&& r.1@.len() == list@.len()
            &&& helper_args_view(r.1@) == st.args
            &&& positions_ok(helper_args_view(r.1@), r.0@.len())
            &&& forall|q: int| 0 <= q < r.1@.len() ==> (#[trigger] r.1@[q]).0 as nat <= max_arg(scan_view(list@))
        }),
{
    let ghost s = cs@;
    let ghost lv = scan_view(list@);
    proof {
        lemma_scan_props(s, 0);
        assert forall|q: int| 0 <= q < lv.len() implies 1 <= (#[trigger] lv[q]).1 <= lv[q].2 < s.len() by {
            assert(lv == helper_scan(s, 0)->0);
        }
        assert forall|q: int| 0 <= q < lv.len() - 1 implies (#[trigger] lv[q]).2 + 2 <= lv[q + 1].1 by {
            assert(lv == helper_scan(s, 0)->0);
        }
    }
        let mut glue = String::new();
        let mut glue_len: usize = 0;
        let mut args: Vec<(usize, usize)> = Vec::new();
        let mut from: usize = 0;
        let mut k: usize = 0;
        assert(lv.subrange(0, 0).len() == 0);
        assert(helper_args_view(args@) =~= Seq::<(nat, nat)>::empty());
        while k < list.len()
            invariant
                k <= list@.len(),
                lv == scan_view(list@),
                s == cs@,
                forall|q: int| 0 <= q < lv.len() ==> 1 <= (#[trigger] lv[q]).1 <= lv[q].2 < s.len(),
                forall|q: int| 0 <= q < lv.len() - 1 ==> (#[trigger] lv[q]).2 + 2 <= lv[q + 1].1,
                k == 0 ==> from == 0,
                k > 0 ==> from == lv[k - 1].2 + 1,
                from <= s.len(),
                glue_len == glue@.len(),
                glue_len <= from,
                helper_build(s, lv.subrange(0, k as int)) == (BuildState {
                    glue: glue@,
                    args: helper_args_view(args@),
                    from: from as int,
                }),
                args@.len() == k,
                positions_ok(helper_args_view(args@), glue_len as nat),
                forall|q: int| 0 <= q < args@.len() ==> (#[trigger] args@[q]).0 as nat <= max_arg(lv),
            decreases list.len() - k,
        {
            assert(lv.subrange(0, k + 1).drop_last() =~= lv.subrange(0, k as int));
            assert(lv.subrange(0, k + 1).last() == lv[k as int]);
            if k > 0 {
                assert(lv[k - 1].2 + 2 <= lv[k as int].1);
            }
            let (a, st, en) = list[k];
            assert(en as int == lv[k as int].2);
            assert(en < cs.len());
            proof {
                lemma_max_arg_bound(lv, k as int);
            }
            let seg = string_of(cs.as_slice(), from, st - 1);
            glue.append(seg.as_str());
            glue_len = glue_len + (st - 1 - from);
            let ghost av = helper_args_view(args@);
            let ghost old_args = args@;
            args.push((a, glue_len));
            assert(helper_args_view(args@) =~= av.push((a as nat, glue_len as nat)));
            proof {
                let nv = helper_args_view(args@);
                assert forall|q: int, r: int| 0 <= q <= r < nv.len() implies (#[trigger] nv[q]).1 <= (#[trigger] nv[r]).1 by {
                    if r < nv.len() - 1 {
                        assert(nv[q] == av[q] && nv[r] == av[r]);
                    } else if q < nv.len() - 1 {
                        assert(nv[q] == av[q]);
                    }
                }
                assert forall|q: int| 0 <= q < nv.len() implies (#[trigger] nv[q]).1 <= glue_len as nat by {
                    if q < nv.len() - 1 {
                        assert(nv[q] == av[q]);
                    }
                }
                assert forall|q: int| 0 <= q < args@.len() implies (#[trigger] args@[q]).0 as nat <= max_arg(lv) by {
                    if q < args@.len() - 1 {
                        assert(args@[q] == old_args[q]);
                    }
                }
            }
            from = en + 1;
            k = k + 1;
        }
        assert(lv.subrange(0, lv.len() as int) =~= lv);
    let tail = string_of(cs.as_slice(), from, cs.len());
    let ghost gl = glue@;
    glue.append(tail.as_str());
    proof {
        let av = helper_args_view(args@);
        assert forall|q: int| 0 <= q < av.len() implies (#[trigger] av[q]).1 <= glue@.len() by {
            assert(av[q].1 <= gl.len());
        }
    }
    (glue, args)
}

impl Helper {
    /// Parses a snippet with placeholders `[0]`, `[1]`, ...; gives the number
    /// of arguments and the helper, or `None` where a placeholder is empty or
    /// too large, or an argument below the largest has no placeholder.
    pub fn parse(value: &str) -> (r: Option<(usize, Helper)>)
        ensures
            r matches Some(p) ==> helper_parse(value@) == Some(
                (p.0 as nat, p.1.glue@, helper_args_view(p.1.args@)),
            ),
            r matches Some(p) ==> positions_ok(helper_args_view(p.1.args@), p.1.glue@.len()),
            r matches Some(p) ==> forall|k: int| 0 <= k < p.1.args@.len() ==> (#[trigger] p.1.args@[k]).0 < p.0,
            r is None <==> helper_parse(value@) is None,
    {
        let cs = chars_of(value);
        let list = scan_code(&cs)?;
        let max = complete_code(&list)?;
        if max == usize::MAX {
            return None;
        }
        let (glue, args) = build_code(&cs, &list);
        Some((max + 1, Helper { glue, args }))
    }

    /// The code with each value put in place of its placeholder.
    pub fn to_code(&self, values: Vec<String>) -> (r: String)
        requires
            forall|k: int| 0 <= k < self.args@.len() ==> (#[trigger] self.args@[k]).0 < values@.len(),
            positions_ok(helper_args_view(self.args@), self.glue@.len()),
        ensures
            r@ == helper_apply(self.glue@, helper_args_view(self.args@), strings_view(values@)),
    {
        let ghost av = helper_args_view(self.args@);
        let ghost vv = strings_view(values@);
        let mut code = chars_of(self.glue.as_str());
        let mut k: usize = self.args.len();
        assert(av.subrange(0, k as int) =~= av);
        while k > 0
            invariant
                k <= self.args@.len(),
                av == helper_args_view(self.args@),
                vv == strings_view(values@),
                forall|q: int| 0 <= q < self.args@.len() ==> (#[trigger] self.args@[q]).0 < values@.len(),
                positions_ok(av.subrange(0, k as int), code@.len()),
                helper_apply(self.glue@, av, vv) == helper_apply(code@, av.subrange(0, k as int), vv),
            decreases k,
        {
            let (a, idx) = self.args[k - 1];
            assert(av.subrange(0, k as int).last() == av[k - 1]);
            assert(av.subrange(0, k as int).drop_last() =~= av.subrange(0, k - 1));
            assert(av[k - 1].1 <= code@.len());
            let v = chars_of(values[a].as_str());
            let mut next: Vec<char> = Vec::new();
            let mut q: usize = 0;
            while q < idx
                invariant
                    q <= idx <= code@.len(),
                    next@ == code@.subrange(0, q as int),
                decreases idx - q,
            {
                next.push(code[q]);
                q = q + 1;
            }
            let mut q: usize = 0;
            while q < v.len()
                invariant
                    q <= v@.len(),
                    idx <= code@.len(),
                    next@ == code@.subrange(0, idx as int) + v@.subrange(0, q as int),
                decreases v.len() - q,
            {
                next.push(v[q]);
                q = q + 1;
            }
            let mut q: usize = idx;
            while q < code.len()
                invariant
                    idx <= q <= code@.len(),
                    next@ == code@.subrange(0, idx as int) + v@ + code@.subrange(idx as int, q as int),
                decreases code.len() - q,
            {
                next.push(code[q]);
                q = q + 1;
            }
            assert(v@.subrange(0, v@.len() as int) =~= v@);
            assert(next@ =~= insert_at(code@, idx as nat, vv[a as int]));
            code = next;
            k = k - 1;
        }
        string_of(code.as_slice(), 0, code.len())
    }
}

proof fn lemma_max_arg_bound(lv: Seq<(nat, int, int)>, k: int)
    requires
        0 <= k < lv.len(),
    ensures
        lv[k].0 <= max_arg(lv),
    decreases lv.len(),
{
    if k < lv.len() - 1 {
        lemma_max_arg_bound(lv.drop_last(), k);
    }
}

} // verus!
