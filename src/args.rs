//! The values bound to a template's identifiers, and how an identifier is
//! resolved to code.

use vstd::prelude::*;
use crate::code::strings_view;
use crate::config::{bounds_ok, Config};
use crate::error::TemplateError;
use crate::i18n::Catalog;
use crate::text::{chars_of, ends_with, find, find_in, lemma_find_from_occurs, starts_with, str_ends_with, str_eq, str_starts_with, string_of};

verus! {

/// The arguments of one template expansion.
#[derive(Debug)]
pub struct Args {
    /// Path of the template file.
    pub path: String,
    pub config: Config,
    pub catalog: Catalog,
    /// The key under which texts of this template are translated.
    pub context: String,
    /// Whether an identifier with no value is taken for a local variable of
    /// the same name.
    pub auto_default: bool,
    /// Identifiers and the code bound to them; a later binding overrides an
    /// earlier one.
    pub vals: Vec<(String, String)>,
}

/// The arguments can drive an expansion: the variable bounds are non-empty.
pub open spec fn args_ok(a: Args) -> bool {
    bounds_ok(a.config)
}

/// Whether `c` is alphabetic or numeric in Unicode's sense.
pub uninterp spec fn alphanumeric(c: char) -> bool;

/// Relies on `char::is_alphanumeric`.
#[verifier::external_body]
fn is_alphanumeric(c: char) -> (r: bool)
    ensures
        r == alphanumeric(c),
{
    c.is_alphanumeric()
}

/// Every character is a letter, a digit or `_`.
pub open spec fn valid_ident(s: Seq<char>) -> bool {
    forall|i: int| 0 <= i < s.len() ==> alphanumeric(#[trigger] s[i]) || s[i] == '_'
}

/// The identifier before the first `.`.
pub open spec fn id_base(id: Seq<char>) -> Seq<char> {
    match find(id, seq!['.']) {
        Some(i) => id.subrange(0, i),
        None => id,
    }
}

/// The field after the first `.`, if there is one.
pub open spec fn id_field(id: Seq<char>) -> Option<Seq<char>> {
    match find(id, seq!['.']) {
        Some(i) => Some(id.subrange(i + 1, id.len() as int)),
        None => None,
    }
}

/// An identifier whose value may be absent.
pub open spec fn is_optional_id(s: Seq<char>) -> bool {
    starts_with(s, "opt_"@) || ends_with(s, "_opt"@)
}

/// An identifier whose value is iterated over.
pub open spec fn is_iterator_id(s: Seq<char>) -> bool {
    starts_with(s, "iter_"@) || ends_with(s, "_iter"@)
}

/// The code bound to `id`, the last binding winning.
pub open spec fn lookup(vals: Seq<(String, String)>, id: Seq<char>) -> Option<Seq<char>>
    decreases vals.len(),
{
    if vals.len() == 0 {
        None
    } else if vals.last().0@ == id {
        Some(vals.last().1@)
    } else {
        lookup(vals.drop_last(), id)
    }
}

/// `value`, followed by an access to `field` if there is one.
pub open spec fn with_field(value: Seq<char>, field: Option<Seq<char>>) -> Seq<char> {
    match field {
        Some(f) => seq!['{'] + value + seq!['.'] + f + seq!['}'],
        None => value,
    }
}

/// The code an identifier stands for.
pub open spec fn resolve(a: Args, id: Seq<char>) -> Result<Seq<char>, TemplateError> {
    let base = id_base(id);
    if !valid_ident(base) {
        Err(TemplateError::InvalidIdentifier)
    } else {
        match lookup(a.vals@, base) {
            Some(v) => Ok(with_field(v, id_field(id))),
            None => if a.auto_default {
                Ok(with_field(base, id_field(id)))
            } else {
                Err(TemplateError::MissingBinding)
            },
        }
    }
}

/// What resolving `id` records among the optional identifiers.
pub open spec fn opt_record(id: Seq<char>) -> Seq<Seq<char>> {
    if valid_ident(id_base(id)) && is_optional_id(id_base(id)) {
        seq![id_base(id)]
    } else {
        Seq::empty()
    }
}

/// What resolving `id` records among the iterator identifiers.
pub open spec fn iter_record(id: Seq<char>) -> Seq<Seq<char>> {
    if valid_ident(id_base(id)) && is_iterator_id(id_base(id)) {
        seq![id_base(id)]
    } else {
        Seq::empty()
    }
}

pub fn is_optional(s: &str) -> (r: bool)
    ensures
        r == is_optional_id(s@),
{
    str_starts_with(s, "opt_") || str_ends_with(s, "_opt")
}

pub fn is_iterator(s: &str) -> (r: bool)
    ensures
        r == is_iterator_id(s@),
{
    str_starts_with(s, "iter_") || str_ends_with(s, "_iter")
}

impl Args {
    /// Arguments with no binding.
    pub fn new(path: String, config: Config, catalog: Catalog, context: String) -> (r: Args)
        ensures
            r.path == path,
            r.config == config,
            r.catalog == catalog,
            r.context == context,
            r.auto_default == config.auto_default,
            r.vals@ == Seq::<(String, String)>::empty(),
    {
        let auto_default = config.auto_default;
        Args { path, config, catalog, context, auto_default, vals: Vec::new() }
    }

    /// Binds `value` to `id`, overriding an earlier binding.
    pub fn bind(&mut self, id: String, value: String)
        ensures
            final(self).vals@ == old(self).vals@.push((id, value)),
            final(self).path == old(self).path,
            final(self).config == old(self).config,
            final(self).catalog == old(self).catalog,
            final(self).context == old(self).context,
            final(self).auto_default == old(self).auto_default,
    {
        self.vals.push((id, value));
    }

    fn lookup_code(&self, id: &str) -> (r: Option<String>)
        ensures
            r matches Some(v) ==> lookup(self.vals@, id@) == Some(v@),
            r is None ==> lookup(self.vals@, id@) is None,
    {
        let mut i: usize = self.vals.len();
        assert(self.vals@.subrange(0, i as int) =~= self.vals@);
        while i > 0
            invariant
                i <= self.vals@.len(),
                lookup(self.vals@, id@) == lookup(self.vals@.subrange(0, i as int), id@),
            decreases i,
        {
            assert(self.vals@.subrange(0, i as int).drop_last() =~= self.vals@.subrange(0, i - 1));
            if str_eq(self.vals[i - 1].0.as_str(), id) {
                return Some(self.vals[i - 1].1.clone());
            }
            i = i - 1;
        }
        None
    }

    /// The code that identifier `id` stands for: its bound value, or with
    /// auto-default a local variable of its name, with a field access when
    /// `id` has a `.`. Optional and iterator identifiers are recorded.
    pub fn get_val(&self, id: &str, opts: &mut Vec<String>, iters: &mut Vec<String>) -> (r: Result<String, TemplateError>)
        ensures
            r matches Ok(v) ==> resolve(*self, id@) == Ok::<Seq<char>, TemplateError>(v@),
            r matches Err(e) ==> resolve(*self, id@) == Err::<Seq<char>, TemplateError>(e),
            strings_view(final(opts)@) == strings_view(old(opts)@) + opt_record(id@),
            strings_view(final(iters)@) == strings_view(old(iters)@) + iter_record(id@),
    {
        let cs = chars_of(id);
        let dot: Vec<char> = vec!['.'];
        assert(dot@ =~= seq!['.']);
        proof {
            lemma_find_from_occurs(cs@, dot@, 0);
        }
        let (base, field) = match find_in(cs.as_slice(), dot.as_slice(), 0) {
            Some(i) => {
                let n = cs.len();
                assert(i + 1 <= n);
                (string_of(cs.as_slice(), 0, i), Some(string_of(cs.as_slice(), i + 1, n)))
            },
            None => (string_of(cs.as_slice(), 0, cs.len()), None),
        };
        assert(cs@.subrange(0, cs@.len() as int) =~= cs@);
        assert(base@ == id_base(id@));
        let bc = chars_of(base.as_str());
        let mut k: usize = 0;
        while k < bc.len()
            invariant
                k <= bc@.len(),
                bc@ == base@,
                base@ == id_base(id@),
                forall|j: int| 0 <= j < k ==> alphanumeric(#[trigger] bc@[j]) || bc@[j] == '_',
            decreases bc.len() - k,
        {
            if !is_alphanumeric(bc[k]) && bc[k] != '_' {
                assert(!(alphanumeric(bc@[k as int]) || bc@[k as int] == '_'));
                assert(id_base(id@)[k as int] == bc@[k as int]);
                assert(!valid_ident(id_base(id@)));
                assert(strings_view(opts@) =~= strings_view(opts@) + opt_record(id@));
                assert(strings_view(iters@) =~= strings_view(iters@) + iter_record(id@));
                return Err(TemplateError::InvalidIdentifier);
            }
            k = k + 1;
        }
        let ghost o0 = strings_view(opts@);
        let ghost i0 = strings_view(iters@);
        if is_optional(base.as_str()) {
            opts.push(base.clone());
        }
        if is_iterator(base.as_str()) {
            iters.push(base.clone());
        }
        assert(strings_view(opts@) =~= o0 + opt_record(id@));
        assert(strings_view(iters@) =~= i0 + iter_record(id@));
        let value = match self.lookup_code(base.as_str()) {
            Some(v) => v,
            None => {
                if self.auto_default {
                    base.clone()
                } else {
                    return Err(TemplateError::MissingBinding);
                }
            },
        };
        match field {
            Some(f) => {
                let mut r = String::new();
                r.append("{");
                r.append(value.as_str());
                r.append(".");
                r.append(f.as_str());
                r.append("}");
                proof {
                    reveal_strlit("{");
                    reveal_strlit(".");
                    reveal_strlit("}");
                }
                assert(r@ =~= with_field(value@, id_field(id@)));
                Ok(r)
            },
            None => Ok(value),
        }
    }
}

} // verus!
