//! The arguments of a template invocation: a path literal, then
//! `identifier[=value]` pairs, optionally closed by `...`.

use vstd::prelude::*;
use crate::args::Args;
use crate::config::Config;
use crate::i18n::Catalog;
use crate::pot::{context_of, translation_context};
use crate::text::{chars_of, string_of};

verus! {

/// A token of the invocation, with the source text it stands for.
#[derive(Debug)]
pub enum ArgToken {
    Literal(String),
    Ident(String),
    Punct { ch: char, joint: bool },
    /// A group or any other token, as written.
    Other(String),
}

/// Why the arguments of an invocation were refused.
#[derive(Debug, Clone, Copy, PartialEq, Eq, Structural)]
pub enum ArgError {
    MissingPath,
    ExpectedPath,
    ExpectedComma,
    ExpectedIdent,
    ExpectedEquals,
    ExpectedValue,
    ExpectedSecondDot,
    ExpectedThirdDot,
    DotsNotLast,
}

/// The code a token stands for.
pub open spec fn token_text(t: ArgToken) -> Seq<char> {
    match t {
        ArgToken::Literal(s) => s@,
        ArgToken::Ident(s) => s@,
        ArgToken::Punct { ch, joint } => seq![ch],
        ArgToken::Other(s) => s@,
    }
}

pub open spec fn is_punct(t: ArgToken, c: char) -> bool {
    t matches ArgToken::Punct { ch, joint } && ch == c
}

/// The bindings, in order, and whether `...` asked for auto-default.
pub struct ArgsOutcome {
    pub binds: Seq<(Seq<char>, Seq<char>)>,
    pub auto: bool,
}

pub open spec fn outcome_prepend(b: (Seq<char>, Seq<char>), r: Result<ArgsOutcome, ArgError>) -> Result<ArgsOutcome, ArgError> {
    match r {
        Err(e) => Err(e),
        Ok(o) => Ok(ArgsOutcome { binds: seq![b] + o.binds, auto: o.auto }),
    }
}

/// The bindings from position `pos` on; `comma` tells whether the comma
/// before them was already read.
pub open spec fn args_walk(t: Seq<ArgToken>, pos: int, comma: bool) -> Result<ArgsOutcome, ArgError>
    decreases t.len() - pos,
{
    let done = Ok(ArgsOutcome { binds: Seq::empty(), auto: false });
    let auto = Ok(ArgsOutcome { binds: Seq::empty(), auto: true });
    if pos < 0 || pos >= t.len() {
        done
    } else if !comma && !is_punct(t[pos], ',') {
        Err(ArgError::ExpectedComma)
    } else {
        let p = if comma { pos } else { pos + 1 };
        if p >= t.len() {
            done
        } else {
            match t[p] {
                ArgToken::Ident(id) => {
                    let q = p + 1;
                    if q >= t.len() {
                        Ok(ArgsOutcome { binds: seq![(id@, id@)], auto: false })
                    } else if is_punct(t[q], '=') {
                        if q + 1 >= t.len() {
                            Err(ArgError::ExpectedValue)
                        } else {
                            outcome_prepend((id@, token_text(t[q + 1])), args_walk(t, q + 2, false))
                        }
                    } else if is_punct(t[q], ',') {
                        outcome_prepend((id@, id@), args_walk(t, q + 1, true))
                    } else {
                        Err(ArgError::ExpectedEquals)
                    }
                },
                ArgToken::Punct { ch, joint } => if ch == '.' && joint {
                    if p + 1 < t.len() && is_punct(t[p + 1], '.') {
                        if p + 2 >= t.len() {
                            auto
                        } else if is_punct(t[p + 2], '.') {
                            if p + 3 < t.len() {
                                Err(ArgError::DotsNotLast)
                            } else {
                                auto
                            }
                        } else {
                            Err(ArgError::ExpectedThirdDot)
                        }
                    } else {
                        Err(ArgError::ExpectedSecondDot)
                    }
                } else {
                    Err(ArgError::ExpectedIdent)
                },
                _ => Err(ArgError::ExpectedIdent),
            }
        }
    }
}

/// The path a literal names: its text between the quotes, or `None` when it
/// is not a string literal.
pub open spec fn literal_path(s: Seq<char>) -> Option<Seq<char>> {
    if s.len() >= 2 && s[0] == '"' && s.last() == '"' {
        Some(s.subrange(1, s.len() - 1))
    } else {
        None
    }
}

/// The path the first token names, if it is a string literal.
pub open spec fn path_token(t: Seq<ArgToken>) -> Option<Seq<char>> {
    if t.len() > 0 && t[0] is Literal {
        literal_path(t[0]->Literal_0@)
    } else {
        None
    }
}

pub open spec fn binds_view(v: Seq<(String, String)>) -> Seq<(Seq<char>, Seq<char>)> {
    v.map_values(|p: (String, String)| (p.0@, p.1@))
}

fn token_code(t: &ArgToken) -> (r: String)
    ensures
        r@ == token_text(*t),
{
    match t {
        ArgToken::Literal(s) => s.clone(),
        ArgToken::Ident(s) => s.clone(),
        ArgToken::Punct { ch, joint: _ } => {
            let mut r = String::new();
            crate::text::push_char(&mut r, *ch);
            r
        },
        ArgToken::Other(s) => s.clone(),
    }
}

fn punct_is(t: &ArgToken, c: char) -> (r: bool)
    ensures
        r == is_punct(*t, c),
{
    match t {
        ArgToken::Punct { ch, joint: _ } => *ch == c,
        _ => false,
    }
}

/// Reads the bindings after the path.
fn walk_code(t: &Vec<ArgToken>) -> (r: Result<(Vec<(String, String)>, bool), ArgError>)
    ensures
        r matches Ok(p) ==> args_walk(t@, 1, false) == Ok::<ArgsOutcome, ArgError>(ArgsOutcome { binds: binds_view(p.0@), auto: p.1 }),
        r matches Err(e) ==> args_walk(t@, 1, false) == Err::<ArgsOutcome, ArgError>(e),
{
    let mut binds: Vec<(String, String)> = Vec::new();
    let mut pos: usize = 1;
    let mut comma = false;
    let n = t.len();
    assert(binds_view(binds@) =~= Seq::<(Seq<char>, Seq<char>)>::empty());
    loop
        invariant
            n == t@.len(),
            1 <= pos,
            args_walk(t@, 1, false) == match args_walk(t@, pos as int, comma) {
                Err(e) => Err(e),
                Ok(o) => Ok(ArgsOutcome { binds: binds_view(binds@) + o.binds, auto: o.auto }),
            },
        decreases n + 1 - pos,
    {
        let ghost bv = binds_view(binds@);
        if pos >= n {
            assert(bv + Seq::<(Seq<char>, Seq<char>)>::empty() =~= bv);
            return Ok((binds, false));
        }
        if !comma && !punct_is(&t[pos], ',') {
            return Err(ArgError::ExpectedComma);
        }
        let p = if comma { pos } else { pos + 1 };
        if p >= n {
            assert(bv + Seq::<(Seq<char>, Seq<char>)>::empty() =~= bv);
            return Ok((binds, false));
        }
        match &t[p] {
            ArgToken::Ident(id) => {
                let q = p + 1;
                if q >= n {
                    binds.push((id.clone(), id.clone()));
                    assert(binds_view(binds@) =~= bv + seq![(id@, id@)]);
                    return Ok((binds, false));
                } else if punct_is(&t[q], '=') {
                    if q + 1 >= n {
                        return Err(ArgError::ExpectedValue);
                    }
                    let v = token_code(&t[q + 1]);
                    binds.push((id.clone(), v));
                    proof {
                        let w = args_walk(t@, (q + 2) as int, false);
                        if w is Ok {
                            assert(binds_view(binds@) + w->Ok_0.binds =~= bv + (seq![(id@, token_text(t@[q + 1]))] + w->Ok_0.binds));
                        }
                    }
                    pos = q + 2;
                    comma = false;
                } else if punct_is(&t[q], ',') {
                    binds.push((id.clone(), id.clone()));
                    proof {
                        let w = args_walk(t@, (q + 1) as int, true);
                        if w is Ok {
                            assert(binds_view(binds@) + w->Ok_0.binds =~= bv + (seq![(id@, id@)] + w->Ok_0.binds));
                        }
                    }
                    pos = q + 1;
                    comma = true;
                } else {
                    return Err(ArgError::ExpectedEquals);
                }
            },
            ArgToken::Punct { ch, joint } => {
                if *ch == '.' && *joint {
                    if p + 1 < n && punct_is(&t[p + 1], '.') {
                        if p + 2 >= n {
                            assert(bv + Seq::<(Seq<char>, Seq<char>)>::empty() =~= bv);
                            return Ok((binds, true));
                        } else if punct_is(&t[p + 2], '.') {
                            if p + 3 < n {
                                return Err(ArgError::DotsNotLast);
                            }
                            assert(bv + Seq::<(Seq<char>, Seq<char>)>::empty() =~= bv);
                            return Ok((binds, true));
                        } else {
                            return Err(ArgError::ExpectedThirdDot);
                        }
                    } else {
                        return Err(ArgError::ExpectedSecondDot);
                    }
                } else {
                    return Err(ArgError::ExpectedIdent);
                }
            },
            _ => {
                return Err(ArgError::ExpectedIdent);
            },
        }
    }
}

/// Reads the arguments of an invocation: the template path, relative to the
/// configured directory, then the bindings in order; `...` at the end turns
/// auto-default on.
pub fn parse_args(tokens: &Vec<ArgToken>, config: Config, catalog: Catalog) -> (r: Result<Args, ArgError>)
    ensures
        tokens@.len() == 0 ==> r == Err::<Args, ArgError>(ArgError::MissingPath),
        tokens@.len() > 0 && path_token(tokens@) is None ==> r == Err::<Args, ArgError>(ArgError::ExpectedPath),
        path_token(tokens@) is Some ==> (r is Err <==> args_walk(tokens@, 1, false) is Err),
        path_token(tokens@) is Some ==> (r matches Err(e) ==> args_walk(tokens@, 1, false) == Err::<ArgsOutcome, ArgError>(e)),
        r matches Ok(a) ==> path_token(tokens@) matches Some(p) && a.path@ == config.template_directory@ + p,
        r matches Ok(a) ==> args_walk(tokens@, 1, false) matches Ok(o) && binds_view(a.vals@) == o.binds
            && a.auto_default == (config.auto_default || o.auto),
        r matches Ok(a) ==> a.config == config && a.catalog == catalog && a.context@ == context_of(a.path@),
{
    if tokens.len() == 0 {
        return Err(ArgError::MissingPath);
    }
    let path = match &tokens[0] {
        ArgToken::Literal(s) => {
            let cs = chars_of(s.as_str());
            let n = cs.len();
            if n >= 2 && cs[0] == '"' && cs[n - 1] == '"' {
                let mut p = config.template_directory.clone();
                p.append(string_of(cs.as_slice(), 1, n - 1).as_str());
                p
            } else {
                return Err(ArgError::ExpectedPath);
            }
        },
        _ => {
            return Err(ArgError::ExpectedPath);
        },
    };
    let (binds, auto) = walk_code(tokens)?;
    let context = translation_context(path.as_str());
    let mut args = Args::new(path, config, catalog, context);
    args.auto_default = args.auto_default || auto;
    args.vals = binds;
    Ok(args)
}

} // verus!
