//! Settings of a template expansion.

use vstd::prelude::*;
use crate::code::strings_view;
use crate::error::TemplateError;
use crate::helper::{helper_args_view, helper_parse, Helper};

verus! {

/// One value or several, as a helper definition may give.
#[derive(Debug)]
pub enum AnyValues {
    Value(String),
    Values(Vec<String>),
}

impl AnyValues {
    /// The values as a list.
    pub fn into_vec(self) -> (r: Vec<String>)
        ensures
            r@ == match self {
                AnyValues::Value(v) => seq![v],
                AnyValues::Values(v) => v@,
            },
    {
        match self {
            AnyValues::Value(v) => {
                let mut r = Vec::new();
                r.push(v);
                r
            },
            AnyValues::Values(v) => v,
        }
    }
}

/// Settings of a template expansion.
#[derive(Debug)]
pub struct Config {
    /// Whether to capture local variables instead of failing when the template
    /// needs an argument that was not given.
    pub auto_default: bool,
    /// Where templates are looked for, relative to the crate root.
    pub template_directory: String,
    /// Where locales are looked for, relative to the crate root.
    pub locale_directory: String,
    /// Code that evaluates to the locale, as a `&str`; it is inserted as
    /// `match locale_code {`.
    pub locale_code: String,
    /// The two strings that open and close a variable in a template.
    pub variable_bounds: (String, String),
    /// Helpers to use in templates: name, number of arguments, helper. A later
    /// entry overrides an earlier one with the same name and number.
    pub helpers: Vec<(String, usize, Helper)>,
}

/// What a helper holds: its glue and its argument positions.
pub open spec fn helper_view(h: Helper) -> (Seq<char>, Seq<(nat, nat)>) {
    (h.glue@, helper_args_view(h.args@))
}

/// The helpers by name and number of arguments, a later entry winning.
pub open spec fn helpers_map(v: Seq<(String, usize, Helper)>) -> Map<(Seq<char>, nat), (Seq<char>, Seq<(nat, nat)>)>
    decreases v.len(),
{
    if v.len() == 0 {
        Map::empty()
    } else {
        helpers_map(v.drop_last()).insert((v.last().0@, v.last().1 as nat), helper_view(v.last().2))
    }
}

/// The helpers after the definition `def` is added under `name`.
pub open spec fn with_helper(
    m: Map<(Seq<char>, nat), (Seq<char>, Seq<(nat, nat)>)>,
    name: Seq<char>,
    def: Seq<char>,
) -> Map<(Seq<char>, nat), (Seq<char>, Seq<(nat, nat)>)> {
    match helper_parse(def) {
        Some(p) => m.insert((name, p.0), (p.1, p.2)),
        None => m,
    }
}

/// Settings as read from a configuration file, each one optional.
#[derive(Debug)]
pub struct ConfigLoader {
    pub auto_default: Option<bool>,
    pub template_directory: Option<String>,
    pub locale_directory: Option<String>,
    pub locale_code: Option<String>,
    pub variable_separator: Option<(String, String)>,
    pub helpers: Option<Vec<(String, AnyValues)>>,
}

/// `s` with a `/` at the end, unless it is empty or has one.
pub open spec fn dir_path(s: Seq<char>) -> Seq<char> {
    if s.len() > 0 && s.last() != '/' {
        s.push('/')
    } else {
        s
    }
}

pub fn directory_path(s: String) -> (r: String)
    ensures
        r@ == dir_path(s@),
{
    let n = s.unicode_len();
    if n > 0 && s.as_str().get_char(n - 1) != '/' {
        let mut r = s;
        crate::text::push_char(&mut r, '/');
        r
    } else {
        s
    }
}

/// Both variable bounds are non-empty.
pub open spec fn bounds_ok(c: Config) -> bool {
    c.variable_bounds.0@.len() > 0 && c.variable_bounds.1@.len() > 0
}

impl Config {
    /// The default settings.
    pub fn default() -> (r: Config)
        ensures
            !r.auto_default,
            r.template_directory@ == "./"@,
            r.locale_directory@ == "./locales/"@,
            r.locale_code@ == "locale.as_str()"@,
            r.variable_bounds.0@ == "{{"@,
            r.variable_bounds.1@ == "}}"@,
            bounds_ok(r),
            helpers_map(r.helpers@) == with_helper(
                with_helper(Map::empty(), "loud"@, "[0].to_uppercase()"@),
                "message"@,
                "ctx.link().callback(|_| [0])"@,
            ),
    {
        proof {
            reveal_strlit("{{");
            reveal_strlit("}}");
        }
        let mut helpers: Vec<(String, usize, Helper)> = Vec::new();
        let loud = String::from_str("loud");
        let message = String::from_str("message");
        assert(helpers_map(helpers@) == Map::<(Seq<char>, nat), (Seq<char>, Seq<(nat, nat)>)>::empty());
        if let Some((n, h)) = Helper::parse("[0].to_uppercase()") {
            helpers.push((loud, n, h));
            assert(helpers@.drop_last() =~= Seq::<(String, usize, Helper)>::empty());
        }
        let ghost m1 = helpers_map(helpers@);
        assert(m1 == with_helper(Map::empty(), "loud"@, "[0].to_uppercase()"@));
        if let Some((n, h)) = Helper::parse("ctx.link().callback(|_| [0])") {
            let ghost before = helpers@;
            helpers.push((message, n, h));
            assert(helpers@.drop_last() =~= before);
        }
        proof {
            assert(helpers_map(Seq::<(String, usize, Helper)>::empty()) == Map::<(Seq<char>, nat), (Seq<char>, Seq<(nat, nat)>)>::empty());
        }
        Config {
            auto_default: false,
            template_directory: String::from_str("./"),
            locale_directory: String::from_str("./locales/"),
            locale_code: String::from_str("locale.as_str()"),
            variable_bounds: (String::from_str("{{"), String::from_str("}}")),
            helpers,
        }
    }

    /// The default settings overridden by what the loader holds; each helper
    /// definition is added under its name and number of arguments.
    pub fn from(val: ConfigLoader) -> (r: Result<Config, TemplateError>)
        ensures
            r matches Ok(c) ==> c.auto_default == match val.auto_default {
                Some(b) => b,
                None => false,
            },
            r matches Ok(c) ==> c.template_directory@ == match val.template_directory {
                Some(d) => d@,
                None => "./"@,
            },
            r matches Ok(c) ==> c.locale_directory@ == match val.locale_directory {
                Some(d) => d@,
                None => "./locales/"@,
            },
            r matches Ok(c) ==> c.locale_code@ == match val.locale_code {
                Some(d) => d@,
                None => "locale.as_str()"@,
            },
            r matches Ok(c) ==> (match val.variable_separator {
                Some(b) => c.variable_bounds.0@ == b.0@ && c.variable_bounds.1@ == b.1@,
                None => c.variable_bounds.0@ == "{{"@ && c.variable_bounds.1@ == "}}"@,
            }),
            r matches Ok(c) ==> (val.variable_separator is None ==> bounds_ok(c)),
            r matches Ok(c) ==> helpers_map(c.helpers@) == match val.helpers {
                Some(hs) => with_all_helpers(default_helpers(), hs@),
                None => default_helpers(),
            },
            r is Err ==> r == Err::<Config, TemplateError>(TemplateError::InvalidConfig),
            r is Err <==> (val.helpers matches Some(hs) && exists|i: int, j: int| 0 <= i < hs@.len() && 0 <= j < defs_of(hs@[i].1).len()
                    && #[trigger] helper_parse(defs_of(hs@[i].1)[j]) is None),
    {
        let default = Config::default();
        let mut helpers = default.helpers;
        let ghost v0 = val;
        let ConfigLoader { auto_default, template_directory, locale_directory, locale_code, variable_separator, helpers: custom } = val;
        if let Some(custom) = custom {
            let ghost hs = custom@;
            let mut i: usize = 0;
            assert(hs.subrange(0, 0).len() == 0);
            while i < custom.len()
                invariant
                    i <= custom@.len(),
                    hs == custom@,
                    v0.helpers matches Some(hv) && hv@ == hs,
                    v0 == val,
                    forall|p: int, q: int| 0 <= p < i && 0 <= q < defs_of(hs[p].1).len() ==> #[trigger] helper_parse(defs_of(hs[p].1)[q]) is Some,
                    helpers_map(helpers@) == with_all_helpers(default_helpers(), hs.subrange(0, i as int)),
                decreases custom.len() - i,
            {
                let defs = custom[i].1.clone_values();
                let mut j: usize = 0;
                while j < defs.len()
                    invariant
                        i < custom@.len(),
                        hs == custom@,
                        v0.helpers matches Some(hv) && hv@ == hs,
                        v0 == val,
                        j <= defs@.len(),
                        strings_view(defs@) == defs_of(hs[i as int].1),
                        forall|p: int, q: int| 0 <= p < i && 0 <= q < defs_of(hs[p].1).len() ==> #[trigger] helper_parse(defs_of(hs[p].1)[q]) is Some,
                        forall|q: int| 0 <= q < j ==> #[trigger] helper_parse(defs_of(hs[i as int].1)[q]) is Some,
                        helpers_map(helpers@) == with_defs(
                            with_all_helpers(default_helpers(), hs.subrange(0, i as int)),
                            hs[i as int].0@,
                            defs_of(hs[i as int].1).subrange(0, j as int),
                        ),
                    decreases defs.len() - j,
                {
                    assert(defs@[j as int]@ == defs_of(hs[i as int].1)[j as int]);
                    match Helper::parse(defs[j].as_str()) {
                        None => {
                            assert(helper_parse(defs_of(hs[i as int].1)[j as int]) is None);
                            assert(v0.helpers matches Some(hv) && exists|i: int, j: int| 0 <= i < hv@.len() && 0 <= j < defs_of(hv@[i].1).len()
                                && #[trigger] helper_parse(defs_of(hv@[i].1)[j]) is None);
                            assert(v0 == val);
                            return Err(TemplateError::InvalidConfig);
                        },
                        Some((n, h)) => {
                            let ghost before = helpers@;
                            helpers.push((custom[i].0.clone(), n, h));
                            assert(helpers@.drop_last() =~= before);
                        },
                    }
                    assert(defs_of(hs[i as int].1).subrange(0, j + 1).drop_last() =~= defs_of(hs[i as int].1).subrange(0, j as int));
                    j = j + 1;
                }
                assert(defs_of(hs[i as int].1).subrange(0, defs@.len() as int) =~= defs_of(hs[i as int].1));
                assert(hs.subrange(0, i + 1).drop_last() =~= hs.subrange(0, i as int));
                i = i + 1;
            }
        }
        proof {
            if v0.helpers is Some {
                assert(v0.helpers->0@.subrange(0, v0.helpers->0@.len() as int) =~= v0.helpers->0@);
            }
        }
        let variable_bounds = match variable_separator {
            Some(b) => b,
            None => default.variable_bounds,
        };
        Ok(Config {
            auto_default: match auto_default {
                Some(b) => b,
                None => default.auto_default,
            },
            template_directory: match template_directory {
                Some(d) => d,
                None => default.template_directory,
            },
            locale_directory: match locale_directory {
                Some(d) => d,
                None => default.locale_directory,
            },
            locale_code: match locale_code {
                Some(d) => d,
                None => default.locale_code,
            },
            variable_bounds,
            helpers,
        })
    }

    /// Gives each non-empty directory a trailing `/`.
    pub fn finish_directories(&mut self)
        ensures
            final(self).template_directory@ == dir_path(old(self).template_directory@),
            final(self).locale_directory@ == dir_path(old(self).locale_directory@),
            final(self).auto_default == old(self).auto_default,
            final(self).locale_code == old(self).locale_code,
            final(self).variable_bounds == old(self).variable_bounds,
            final(self).helpers == old(self).helpers,
    {
        let mut t = String::new();
        std::mem::swap(&mut t, &mut self.template_directory);
        self.template_directory = directory_path(t);
        let mut l = String::new();
        std::mem::swap(&mut l, &mut self.locale_directory);
        self.locale_directory = directory_path(l);
    }
}

/// The helpers of the default settings.
pub open spec fn default_helpers() -> Map<(Seq<char>, nat), (Seq<char>, Seq<(nat, nat)>)> {
    with_helper(
        with_helper(Map::empty(), "loud"@, "[0].to_uppercase()"@),
        "message"@,
        "ctx.link().callback(|_| [0])"@,
    )
}

/// The helpers after each definition in `defs` is added under `name`.
pub open spec fn with_defs(
    m: Map<(Seq<char>, nat), (Seq<char>, Seq<(nat, nat)>)>,
    name: Seq<char>,
    defs: Seq<Seq<char>>,
) -> Map<(Seq<char>, nat), (Seq<char>, Seq<(nat, nat)>)>
    decreases defs.len(),
{
    if defs.len() == 0 {
        m
    } else {
        with_helper(with_defs(m, name, defs.drop_last()), name, defs.last())
    }
}

/// The helpers after every named definition is added, in order.
pub open spec fn with_all_helpers(
    m: Map<(Seq<char>, nat), (Seq<char>, Seq<(nat, nat)>)>,
    hs: Seq<(String, AnyValues)>,
) -> Map<(Seq<char>, nat), (Seq<char>, Seq<(nat, nat)>)>
    decreases hs.len(),
{
    if hs.len() == 0 {
        m
    } else {
        with_defs(with_all_helpers(m, hs.drop_last()), hs.last().0@, defs_of(hs.last().1))
    }
}

/// The definitions that one or several values give.
pub open spec fn defs_of(v: AnyValues) -> Seq<Seq<char>> {
    match v {
        AnyValues::Value(s) => seq![s@],
        AnyValues::Values(vs) => strings_view(vs@),
    }
}

impl AnyValues {
    fn clone_values(&self) -> (r: Vec<String>)
        ensures
            strings_view(r@) == defs_of(*self),
    {
        match self {
            AnyValues::Value(v) => {
                let mut r = Vec::new();
                r.push(v.clone());
                assert(strings_view(r@) =~= seq![v@]);
                r
            },
            AnyValues::Values(vs) => {
                let mut r: Vec<String> = Vec::new();
                let mut i: usize = 0;
                while i < vs.len()
                    invariant
                        i <= vs@.len(),
                        strings_view(r@) == strings_view(vs@.subrange(0, i as int)),
                    decreases vs.len() - i,
                {
                    let ghost before = r@;
                    r.push(vs[i].clone());
                    assert(r@ == before.push(vs@[i as int]));
                    assert(strings_view(r@) =~= strings_view(before).push(vs@[i as int]@));
                    assert(strings_view(vs@.subrange(0, i + 1)) =~= strings_view(vs@.subrange(0, i as int)).push(vs@[i as int]@));
                    assert(strings_view(r@) =~= strings_view(vs@.subrange(0, i + 1)));
                    i = i + 1;
                }
                assert(vs@.subrange(0, vs@.len() as int) =~= vs@);
                r
            },
        }
    }
}

} // verus!
