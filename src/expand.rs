use vstd::prelude::*;
use crate::text::str_eq;

verus! {

pub open spec fn is_ident_start(c: char) -> bool {
    ('a' <= c && c <= 'z') || ('A' <= c && c <= 'Z') || c == '_'
}

pub open spec fn is_ident_char(c: char) -> bool {
    is_ident_start(c) || ('0' <= c && c <= '9')
}

/// Length of the run of identifier characters of `s` from `j` on.
pub open spec fn ident_run(s: Seq<char>, j: int) -> int
    decreases s.len() - j,
{
    if 0 <= j < s.len() && is_ident_char(s[j]) {
        1 + ident_run(s, j + 1)
    } else {
        0
    }
}

/// Position of the first `}` of `s` from `j` on, or the length of `s`.
pub open spec fn close_brace(s: Seq<char>, j: int) -> int
    decreases s.len() - j,
{
    if j < 0 || j >= s.len() {
        s.len() as int
    } else if s[j] == '}' {
        j
    } else {
        close_brace(s, j + 1)
    }
}

proof fn lemma_ident_run_bounds(s: Seq<char>, j: int)
    requires
        0 <= j <= s.len(),
    ensures
        0 <= ident_run(s, j) <= s.len() - j,
    decreases s.len() - j,
{
    if j < s.len() && is_ident_char(s[j]) {
        lemma_ident_run_bounds(s, j + 1);
    }
}

proof fn lemma_close_brace_bounds(s: Seq<char>, j: int)
    requires
        0 <= j,
    ensures
        j <= close_brace(s, j) <= s.len() || (j > s.len() && close_brace(s, j) == s.len()),
    decreases s.len() - j,
{
    if j < s.len() && s[j] != '}' {
        lemma_close_brace_bounds(s, j + 1);
    }
}

/// The value of the first entry of `env` named `name`.
pub open spec fn env_lookup(env: Seq<(Seq<char>, Seq<char>)>, name: Seq<char>) -> Option<Seq<char>>
    decreases env.len(),
{
    if env.len() == 0 {
        None
    } else if env[0].0 == name {
        Some(env[0].1)
    } else {
        env_lookup(env.drop_first(), name)
    }
}

/// `s` from position `i` on, with `${NAME}` and `$NAME` replaced by the value
/// of `NAME` in `env`. A reference to an unset name stays as written (a
/// `${` reference without its `}` gets one); any other `$` is kept.
pub open spec fn expand_from(s: Seq<char>, env: Seq<(Seq<char>, Seq<char>)>, i: int) -> Seq<char>
    decreases s.len() - i,
{
    if i < 0 || i >= s.len() {
        Seq::empty()
    } else if s[i] != '$' {
        seq![s[i]] + expand_from(s, env, i + 1)
    } else if i + 1 < s.len() && s[i + 1] == '{' {
        let e = close_brace(s, i + 2);
        let name = s.subrange(i + 2, e);
        let text = match env_lookup(env, name) {
            Some(v) => v,
            None => "${"@ + name + "}"@,
        };
        let rest = if i + 2 <= e && e < s.len() { expand_from(s, env, e + 1) } else { Seq::empty() };
        text + rest
    } else if i + 1 < s.len() && is_ident_start(s[i + 1]) {
        let k = ident_run(s, i + 1);
        let name = s.subrange(i + 1, i + 1 + k);
        let text = match env_lookup(env, name) {
            Some(v) => v,
            None => "$"@ + name,
        };
        let rest = if 1 <= k && i + 1 + k <= s.len() { expand_from(s, env, i + 1 + k) } else { Seq::empty() };
        text + rest
    } else {
        seq!['$'] + expand_from(s, env, i + 1)
    }
}

pub open spec fn env_view(env: Seq<(String, String)>) -> Seq<(Seq<char>, Seq<char>)> {
    env.map_values(|p: (String, String)| (p.0@, p.1@))
}

fn lookup<'a>(env: &'a Vec<(String, String)>, name: &str) -> (r: Option<&'a String>)
    ensures
        match r {
            Some(v) => env_lookup(env_view(env@), name@) == Some(v@),
            None => env_lookup(env_view(env@), name@) is None,
        },
{
    let ghost ev = env_view(env@);
    assert(ev.subrange(0, ev.len() as int) =~= ev);
    let mut i: usize = 0;
    while i < env.len()
        invariant
            i <= env@.len(),
            ev == env_view(env@),
            env_lookup(ev, name@) == env_lookup(ev.subrange(i as int, ev.len() as int), name@),
        decreases env.len() - i,
    {
        let ghost rest = ev.subrange(i as int, ev.len() as int);
        assert(rest.drop_first() =~= ev.subrange(i + 1, ev.len() as int));
        assert(rest[0] == (env@[i as int].0@, env@[i as int].1@));
        if str_eq(env[i].0.as_str(), name) {
            return Some(&env[i].1);
        }
        i = i + 1;
    }
    assert(ev.subrange(i as int, ev.len() as int) =~= Seq::<(Seq<char>, Seq<char>)>::empty());
    None
}

/// Expands `$NAME` and `${NAME}` references in `s` from `env`, the process
/// environment as name/value pairs. Other uses of `$` (`$(...)`, `$$`, a
/// trailing `$`) are kept as they are.
pub fn expand_vars(s: &str, env: &Vec<(String, String)>) -> (r: String)
    ensures
        r@ == expand_from(s@, env_view(env@), 0),
{
    let ghost ev = env_view(env@);
    let n = s.unicode_len();
    let mut out = String::new();
    let mut i: usize = 0;
    proof {
        reveal_strlit("$");
        reveal_strlit("${");
        reveal_strlit("}");
    }
    while i < n
        invariant
            n == s@.len(),
            i <= n,
            ev == env_view(env@),
            expand_from(s@, ev, 0) == out@ + expand_from(s@, ev, i as int),
        decreases n - i,
    {
        proof {
            reveal_strlit("$");
            reveal_strlit("${");
            reveal_strlit("}");
        }
        let c = s.get_char(i);
        if c != '$' {
            let one = s.substring_char(i, i + 1);
            assert(one@ =~= seq![c]);
            out.append(one);
            assert(out@ + expand_from(s@, ev, i + 1) =~= (out@.drop_last()) + (seq![c] + expand_from(s@, ev, i + 1)));
            i = i + 1;
        } else if i + 1 < n && s.get_char(i + 1) == '{' {
            let mut e: usize = i + 2;
            while e < n && s.get_char(e) != '}'
                invariant
                    n == s@.len(),
                    i + 2 <= e <= n,
                    close_brace(s@, (i + 2) as int) == close_brace(s@, e as int),
                decreases n - e,
            {
                e = e + 1;
            }
            assert(close_brace(s@, (i + 2) as int) == e as int);
            proof {
                lemma_close_brace_bounds(s@, (i + 2) as int);
            }
            let name = s.substring_char(i + 2, e);
            match lookup(env, name) {
                Some(v) => out.append(v.as_str()),
                None => {
                    out.append("${");
                    out.append(name);
                    out.append("}");
                },
            }
            i = if e < n { e + 1 } else { n };
            assert(expand_from(s@, ev, 0) =~= out@ + expand_from(s@, ev, i as int));
        } else if i + 1 < n && is_ident_start_char(s.get_char(i + 1)) {
            let mut j: usize = i + 1;
            while j < n && is_ident_char_exec(s.get_char(j))
                invariant
                    n == s@.len(),
                    i + 1 <= j <= n,
                    ident_run(s@, (i + 1) as int) == (j - (i + 1)) + ident_run(s@, j as int),
                decreases n - j,
            {
                j = j + 1;
            }
            assert(ident_run(s@, j as int) == 0);
            proof {
                lemma_ident_run_bounds(s@, (i + 1) as int);
            }
            let name = s.substring_char(i + 1, j);
            match lookup(env, name) {
                Some(v) => out.append(v.as_str()),
                None => {
                    out.append("$");
                    out.append(name);
                },
            }
            i = j;
            assert(expand_from(s@, ev, 0) =~= out@ + expand_from(s@, ev, i as int));
        } else {
            out.append("$");
            assert(expand_from(s@, ev, 0) =~= out@ + expand_from(s@, ev, i + 1));
            i = i + 1;
        }
    }
    assert(expand_from(s@, ev, n as int) == Seq::<char>::empty());
    out
}

fn is_ident_start_char(c: char) -> (r: bool)
    ensures
        r == is_ident_start(c),
{
    ('a' <= c && c <= 'z') || ('A' <= c && c <= 'Z') || c == '_'
}

fn is_ident_char_exec(c: char) -> (r: bool)
    ensures
        r == is_ident_char(c),
{
    is_ident_start_char(c) || ('0' <= c && c <= '9')
}

} // verus!
