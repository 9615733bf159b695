//! Expansion of `%NAME%` tokens from an environment given as name/value pairs.
use vstd::prelude::*;
use crate::text::{chars_of, push_all, same_chars, string_from_chars};

verus! {

/// The value of the first variable of `env` named `name`.
pub open spec fn env_lookup(env: Seq<(String, String)>, name: Seq<char>) -> Option<Seq<char>>
    decreases env.len(),
{
    if env.len() == 0 {
        None
    } else if env[0].0@ == name {
        Some(env[0].1@)
    } else {
        env_lookup(env.drop_first(), name)
    }
}

/// What a closed token `%name%` becomes: `%` for an empty name, the variable's
/// value where it is set, and the token itself where it is not.
pub open spec fn token_text(name: Seq<char>, env: Seq<(String, String)>) -> Seq<char> {
    if name.len() == 0 {
        seq!['%']
    } else {
        match env_lookup(env, name) {
            Some(v) => v,
            None => seq!['%'] + name + seq!['%'],
        }
    }
}

/// Expansion of `s`, read left to right outside any token.
pub open spec fn expand(s: Seq<char>, env: Seq<(String, String)>) -> Seq<char>
    decreases s.len(), 1nat,
{
    if s.len() == 0 {
        seq![]
    } else if s[0] != '%' {
        seq![s[0]] + expand(s.drop_first(), env)
    } else {
        expand_token(s.drop_first(), seq![], env)
    }
}

/// Expansion of `s` read inside a token whose name so far is `name`. A token that
/// is never closed gives `%` and its name, with no closing `%`.
pub open spec fn expand_token(s: Seq<char>, name: Seq<char>, env: Seq<(String, String)>) -> Seq<
    char,
>
    decreases s.len(), 0nat,
{
    if s.len() == 0 {
        seq!['%'] + name
    } else if s[0] == '%' {
        token_text(name, env) + expand(s.drop_first(), env)
    } else {
        expand_token(s.drop_first(), name.push(s[0]), env)
    }
}

pub(crate) fn lookup(env: &Vec<(String, String)>, name: &Vec<char>) -> (r: Option<Vec<char>>)
    ensures
        match r {
            Some(v) => env_lookup(env@, name@) == Some(v@),
            None => env_lookup(env@, name@).is_none(),
        },
{
    let mut i: usize = 0;
    assert(env@.skip(0) =~= env@);
    while i < env.len()
        invariant
            i <= env@.len(),
            env_lookup(env@, name@) == env_lookup(env@.skip(i as int), name@),
        decreases env@.len() - i,
    {
        proof {
            assert(env@.skip(i as int).drop_first() =~= env@.skip(i + 1));
        }
        let k = chars_of(env[i].0.as_str());
        if same_chars(&k, name) {
            return Some(chars_of(env[i].1.as_str()));
        }
        i = i + 1;
    }
    None
}

/// Expansion of the characters `cs`.
pub fn expand_chars(cs: &Vec<char>, env: &Vec<(String, String)>) -> (r: Vec<char>)
    ensures
        r@ == expand(cs@, env@),
{
    let mut out: Vec<char> = Vec::new();
    let mut name: Vec<char> = Vec::new();
    let mut in_token: bool = false;
    let mut i: usize = 0;
    assert(cs@.skip(0) =~= cs@);
    while i < cs.len()
        invariant
            i <= cs@.len(),
            !in_token ==> expand(cs@, env@) == out@ + expand(cs@.skip(i as int), env@),
            in_token ==> expand(cs@, env@) == out@ + expand_token(
                cs@.skip(i as int),
                name@,
                env@,
            ),
        decreases cs@.len() - i,
    {
        let c = cs[i];
        let ghost rest = cs@.skip(i as int);
        assert(rest[0] == c);
        assert(rest.drop_first() =~= cs@.skip(i + 1));
        if !in_token {
            if c == '%' {
                in_token = true;
                name = Vec::new();
                assert(name@ =~= seq![]);
            } else {
                let ghost before = out@;
                out.push(c);
                assert(before + (seq![c] + expand(cs@.skip(i + 1), env@)) =~= out@ + expand(
                    cs@.skip(i + 1),
                    env@,
                ));
            }
        } else {
            if c == '%' {
                let ghost before = out@;
                let ghost tt = token_text(name@, env@);
                if name.len() == 0 {
                    out.push('%');
                } else {
                    match lookup(env, &name) {
                        Some(v) => {
                            push_all(&mut out, &v);
                        },
                        None => {
                            out.push('%');
                            push_all(&mut out, &name);
                            out.push('%');
                        },
                    }
                }
                assert(out@ =~= before + tt);
                assert(before + (tt + expand(cs@.skip(i + 1), env@)) =~= out@ + expand(
                    cs@.skip(i + 1),
                    env@,
                ));
                in_token = false;
            } else {
                name.push(c);
            }
        }
        i = i + 1;
    }
    assert(cs@.skip(i as int) =~= seq![]);
    if in_token {
        let ghost before = out@;
        out.push('%');
        push_all(&mut out, &name);
        assert(out@ =~= before + (seq!['%'] + name@));
    } else {
        assert(out@ =~= out@ + seq![]);
    }
    out
}

/// Expands every `%NAME%` token of `value` with the variables of `env`: a set
/// variable gives its value, an unset one leaves `%NAME%` as it stands, `%%` gives
/// a single `%`, and a `%` that is never closed gives `%` followed by the rest.
pub fn expand_env_vars(value: &str, env: &Vec<(String, String)>) -> (r: String)
    ensures
        r@ == expand(value@, env@),
{
    let cs = chars_of(value);
    let out = expand_chars(&cs, env);
    string_from_chars(&out)
}

} // verus!
