//! `${VAR}` interpolation of commands.
use vstd::prelude::*;

use crate::env::ResolvedEnv;
use crate::strmap::StrMap;
use crate::text::{find_char_from, push_str, str_chars, string_from_chars, substring};

verus! {

/// Characters that may start a bare `$NAME` reference: ASCII letters and `_`.
pub open spec fn is_name_start(c: char) -> bool {
    let u = c as u32;
    (0x61 <= u && u <= 0x7a) || (0x41 <= u && u <= 0x5a) || u == 0x5f
}

/// Characters that may continue a bare `$NAME` reference: ASCII letters, digits and `_`.
pub open spec fn is_name_char(c: char) -> bool {
    let u = c as u32;
    is_name_start(c) || (0x30 <= u && u <= 0x39)
}

/// The length of the longest prefix of `s` made of name characters.
pub open spec fn name_len(s: Seq<char>) -> nat
    decreases s.len(),
{
    if s.len() > 0 && is_name_char(s[0]) {
        1 + name_len(s.drop_first())
    } else {
        0
    }
}

/// The position of the first `}` in `s`, or the length of `s` when there is none.
pub open spec fn close_index(s: Seq<char>) -> nat
    decreases s.len(),
{
    if s.len() == 0 || s[0] == '}' {
        0
    } else {
        1 + close_index(s.drop_first())
    }
}

/// The position of the first `:-` in the body of a `${...}` reference.
pub open spec fn default_sep(body: Seq<char>) -> Option<nat>
    decreases body.len(),
{
    if body.len() < 2 {
        None
    } else if body[0] == ':' && body[1] == '-' {
        Some(0)
    } else {
        match default_sep(body.drop_first()) {
            Some(k) => Some(k + 1),
            None => None,
        }
    }
}

/// The value of `name`: special variables first, then the environment.
pub open spec fn lookup(
    env: Map<Seq<char>, String>,
    special: Map<Seq<char>, String>,
    name: Seq<char>,
) -> Option<Seq<char>> {
    if special.dom().contains(name) {
        Some(special[name]@)
    } else if env.dom().contains(name) {
        Some(env[name]@)
    } else {
        None
    }
}

/// The value of `name`, or the empty text for an undefined variable.
pub open spec fn lookup_or_empty(
    env: Map<Seq<char>, String>,
    special: Map<Seq<char>, String>,
    name: Seq<char>,
) -> Seq<char> {
    match lookup(env, special, name) {
        Some(v) => v,
        None => Seq::empty(),
    }
}

/// What the body of `${body}` stands for: the variable's value, else the text after `:-`,
/// else nothing.
pub open spec fn braced_value(
    body: Seq<char>,
    env: Map<Seq<char>, String>,
    special: Map<Seq<char>, String>,
) -> Seq<char> {
    match default_sep(body) {
        Some(k) => match lookup(env, special, body.take(k as int)) {
            Some(v) => v,
            None => body.skip(k + 2int),
        },
        None => lookup_or_empty(env, special, body),
    }
}

/// The interpolation of `s`.
///
/// - `$$` stands for a single `$`;
/// - `${NAME}` and `${NAME:-default}` stand for the value of NAME (special variables
///   first), else the default, else nothing; the reference ends at the first `}`, or at the
///   end of the text;
/// - `$NAME`, where NAME starts with an ASCII letter or `_` and goes on with ASCII letters,
///   digits and `_`, stands for the value of NAME, or nothing;
/// - any other `$`, and every other character, stands for itself.
pub open spec fn interp(
    s: Seq<char>,
    env: Map<Seq<char>, String>,
    special: Map<Seq<char>, String>,
) -> Seq<char>
    decreases s.len(),
{
    if s.len() == 0 {
        Seq::empty()
    } else if s[0] != '$' {
        seq![s[0]] + interp(s.skip(1), env, special)
    } else if s.len() > 1 && s[1] == '$' {
        seq!['$'] + interp(s.skip(2), env, special)
    } else if s.len() > 1 && s[1] == '{' {
        let rest = s.skip(2);
        let c = close_index(rest);
        if c < rest.len() {
            braced_value(rest.take(c as int), env, special) + interp(
                rest.skip(c + 1int),
                env,
                special,
            )
        } else {
            braced_value(rest, env, special)
        }
    } else if s.len() > 1 && is_name_start(s[1]) {
        let t = s.skip(1);
        proof {
            lemma_name_len(t);
        }
        let n = name_len(t);
        lookup_or_empty(env, special, t.take(n as int)) + interp(t.skip(n as int), env, special)
    } else {
        seq!['$'] + interp(s.skip(1), env, special)
    }
}

/// `name_len(s)` is the length of the longest prefix of name characters.
pub proof fn lemma_name_len(s: Seq<char>)
    ensures
        name_len(s) <= s.len(),
        forall|i: int| 0 <= i < name_len(s) ==> is_name_char(#[trigger] s[i]),
        name_len(s) < s.len() ==> !is_name_char(s[name_len(s) as int]),
    decreases s.len(),
{
    if s.len() > 0 && is_name_char(s[0]) {
        lemma_name_len(s.drop_first());
        assert forall|i: int| 0 <= i < name_len(s) implies is_name_char(#[trigger] s[i]) by {
            if i > 0 {
                assert(s[i] == s.drop_first()[i - 1]);
            }
        }
    }
}

/// `close_index(s)` is the position of the first `}`, or the length.
pub proof fn lemma_close_index(s: Seq<char>)
    ensures
        close_index(s) <= s.len(),
        forall|i: int| 0 <= i < close_index(s) ==> #[trigger] s[i] != '}',
        close_index(s) < s.len() ==> s[close_index(s) as int] == '}',
    decreases s.len(),
{
    if !(s.len() == 0 || s[0] == '}') {
        lemma_close_index(s.drop_first());
        assert forall|i: int| 0 <= i < close_index(s) implies #[trigger] s[i] != '}' by {
            if i > 0 {
                assert(s[i] == s.drop_first()[i - 1]);
            }
        }
    }
}

/// `default_sep(body)` is the first position of `:-`.
pub proof fn lemma_default_sep(body: Seq<char>)
    ensures
        default_sep(body) matches Some(k) ==> k + 1 < body.len() && body[k as int] == ':' && body[k + 1int] == '-' && forall|j: int|
            0 <= j < k ==> !(#[trigger] body[j] == ':' && body[j + 1] == '-'),
        default_sep(body) is None ==> forall|j: int|
            0 <= j < body.len() - 1 ==> !(#[trigger] body[j] == ':' && body[j + 1] == '-'),
    decreases body.len(),
{
    if body.len() >= 2 && !(body[0] == ':' && body[1] == '-') {
        let t = body.drop_first();
        lemma_default_sep(t);
        assert forall|j: int| 1 <= j < body.len() implies #[trigger] body[j] == t[j - 1] by {}
    }
}


/// Text without any `$` is left exactly as it is.
pub proof fn law_plain_text_unchanged(
    s: Seq<char>,
    env: Map<Seq<char>, String>,
    special: Map<Seq<char>, String>,
)
    requires
        forall|i: int| 0 <= i < s.len() ==> s[i] != '$',
    ensures
        interp(s, env, special) == s,
    decreases s.len(),
{
    if s.len() > 0 {
        law_plain_text_unchanged(s.skip(1), env, special);
        assert(seq![s[0]] + s.skip(1) =~= s);
    }
}

/// Literal text before a reference passes through: interpolating `t + s`, where `t` has no
/// `$`, gives `t` followed by the interpolation of `s`.
pub proof fn law_literal_prefix(
    t: Seq<char>,
    s: Seq<char>,
    env: Map<Seq<char>, String>,
    special: Map<Seq<char>, String>,
)
    requires
        forall|i: int| 0 <= i < t.len() ==> t[i] != '$',
    ensures
        interp(t + s, env, special) == t + interp(s, env, special),
    decreases t.len(),
{
    if t.len() > 0 {
        let u = t + s;
        assert(u[0] == t[0]);
        assert(u.skip(1) =~= t.skip(1) + s);
        law_literal_prefix(t.skip(1), s, env, special);
        assert(seq![t[0]] + (t.skip(1) + interp(s, env, special)) =~= t + interp(
            s,
            env,
            special,
        ));
    } else {
        assert(t + s =~= s);
        assert(t + interp(s, env, special) =~= interp(s, env, special));
    }
}

/// `$$` stands for a single `$`.
pub proof fn law_escaped_dollar(
    s: Seq<char>,
    env: Map<Seq<char>, String>,
    special: Map<Seq<char>, String>,
)
    ensures
        interp(seq!['$', '$'] + s, env, special) == seq!['$'] + interp(s, env, special),
{
    let u = seq!['$', '$'] + s;
    assert(u[0] == '$' && u[1] == '$');
    assert(u.skip(2) =~= s);
}

/// `${NAME}` stands for the value of NAME (special variables first, then the environment),
/// or for nothing when NAME is undefined.
pub proof fn law_braced_reference(
    name: Seq<char>,
    rest: Seq<char>,
    env: Map<Seq<char>, String>,
    special: Map<Seq<char>, String>,
)
    requires
        forall|i: int| 0 <= i < name.len() ==> name[i] != '}',
        forall|i: int| 0 <= i < name.len() - 1 ==> !(#[trigger] name[i] == ':' && name[i + 1] == '-'),
    ensures
        interp(seq!['$', '{'] + name + seq!['}'] + rest, env, special) == lookup_or_empty(
            env,
            special,
            name,
        ) + interp(rest, env, special),
{
    let u = seq!['$', '{'] + name + seq!['}'] + rest;
    let r = u.skip(2);
    assert(u[0] == '$' && u[1] == '{');
    assert(r =~= name + seq!['}'] + rest);
    lemma_close_index(r);
    let c = close_index(r);
    assert(r[name.len() as int] == '}');
    if c < name.len() {
        assert(r[c as int] == name[c as int]);
    }
    assert(c == name.len());
    assert(r.take(c as int) =~= name);
    assert(r.skip(c + 1int) =~= rest);
    lemma_default_sep(name);
    if default_sep(name) is Some {
        let k = default_sep(name)->0;
        assert(name[k as int] == ':' && name[k + 1int] == '-');
    }
}

/// `${NAME:-DEFAULT}` stands for the value of NAME when it is defined, and for DEFAULT
/// otherwise.
pub proof fn law_braced_default(
    name: Seq<char>,
    dflt: Seq<char>,
    rest: Seq<char>,
    env: Map<Seq<char>, String>,
    special: Map<Seq<char>, String>,
)
    requires
        forall|i: int| 0 <= i < name.len() ==> name[i] != '}',
        forall|i: int| 0 <= i < dflt.len() ==> dflt[i] != '}',
        forall|i: int| 0 <= i < name.len() - 1 ==> !(#[trigger] name[i] == ':' && name[i + 1] == '-'),
    ensures
        interp(seq!['$', '{'] + name + seq![':', '-'] + dflt + seq!['}'] + rest, env, special)
            == (match lookup(env, special, name) {
            Some(v) => v,
            None => dflt,
        }) + interp(rest, env, special),
{
    let u = seq!['$', '{'] + name + seq![':', '-'] + dflt + seq!['}'] + rest;
    let body = name + seq![':', '-'] + dflt;
    let r = u.skip(2);
    assert(u[0] == '$' && u[1] == '{');
    assert(r =~= body + seq!['}'] + rest);
    lemma_close_index(r);
    let c = close_index(r);
    assert(r[body.len() as int] == '}');
    if c < body.len() {
        assert(r[c as int] == body[c as int]);
        if c < name.len() {
            assert(body[c as int] == name[c as int]);
        } else if c >= name.len() + 2 {
            assert(body[c as int] == dflt[c - name.len() - 2]);
        }
    }
    assert(c == body.len());
    assert(r.take(c as int) =~= body);
    assert(r.skip(c + 1int) =~= rest);
    lemma_default_sep(body);
    assert(body[name.len() as int] == ':' && body[name.len() + 1int] == '-');
    let k = default_sep(body)->0;
    if k < name.len() {
        assert(body[k as int] == name[k as int]);
        if k + 1 < name.len() {
            assert(body[k + 1int] == name[k + 1int]);
        }
    }
    assert(k == name.len());
    assert(body.take(k as int) =~= name);
    assert(body.skip(k + 2int) =~= dflt);
}

/// A special variable wins over an environment variable of the same name.
pub proof fn law_special_overrides_env(
    name: Seq<char>,
    rest: Seq<char>,
    env: Map<Seq<char>, String>,
    special: Map<Seq<char>, String>,
)
    requires
        special.dom().contains(name),
        forall|i: int| 0 <= i < name.len() ==> name[i] != '}',
        forall|i: int| 0 <= i < name.len() - 1 ==> !(#[trigger] name[i] == ':' && name[i + 1] == '-'),
    ensures
        interp(seq!['$', '{'] + name + seq!['}'] + rest, env, special) == special[name]@ + interp(
            rest,
            env,
            special,
        ),
{
    law_braced_reference(name, rest, env, special);
}

/// A bare `$NAME`, ended by a character that cannot continue a name, stands for the value of
/// NAME, or for nothing.
pub proof fn law_bare_reference(
    name: Seq<char>,
    rest: Seq<char>,
    env: Map<Seq<char>, String>,
    special: Map<Seq<char>, String>,
)
    requires
        name.len() > 0,
        is_name_start(name[0]),
        forall|i: int| 0 <= i < name.len() ==> is_name_char(name[i]),
        rest.len() > 0 ==> !is_name_char(rest[0]),
    ensures
        interp(seq!['$'] + name + rest, env, special) == lookup_or_empty(env, special, name)
            + interp(rest, env, special),
{
    let u = seq!['$'] + name + rest;
    let t = u.skip(1);
    assert(u[0] == '$' && u[1] == name[0]);
    assert(t =~= name + rest);
    lemma_name_len(t);
    let n = name_len(t);
    if n < name.len() {
        assert(t[n as int] == name[n as int]);
    } else if n > name.len() {
        assert(t[name.len() as int] == rest[0]);
    }
    assert(n == name.len());
    assert(t.take(n as int) =~= name);
    assert(t.skip(n as int) =~= rest);
}

/// Length of the run of name characters in `cs` starting at `lo`, as an end index.
fn scan_name(cs: &Vec<char>, lo: usize) -> (r: usize)
    requires
        lo <= cs.len(),
    ensures
        r == lo + name_len(cs@.skip(lo as int)),
        r <= cs.len(),
{
    let mut j = lo;
    while j < cs.len() && char_is_name_char(cs[j])
        invariant
            lo <= j <= cs.len(),
            name_len(cs@.skip(lo as int)) == (j - lo) + name_len(cs@.skip(j as int)),
        decreases cs.len() - j,
    {
        assert(cs@.skip(j as int).drop_first() =~= cs@.skip(j + 1));
        j = j + 1;
    }
    j
}

fn char_is_name_start(c: char) -> (r: bool)
    ensures
        r == is_name_start(c),
{
    let u = c as u32;
    (0x61 <= u && u <= 0x7a) || (0x41 <= u && u <= 0x5a) || u == 0x5f
}

fn char_is_name_char(c: char) -> (r: bool)
    ensures
        r == is_name_char(c),
{
    let u = c as u32;
    char_is_name_start(c) || (0x30 <= u && u <= 0x39)
}

/// The first `:-` in `cs[lo..hi]`, as an offset from `lo`.
fn find_default_sep(cs: &Vec<char>, lo: usize, hi: usize) -> (r: Option<usize>)
    requires
        lo <= hi <= cs.len(),
    ensures
        match default_sep(cs@.subrange(lo as int, hi as int)) {
            Some(k) => r == Some(k as usize),
            None => r is None,
        },
{
    let mut k = lo;
    while hi - k >= 2
        invariant
            lo <= k <= hi <= cs.len(),
            default_sep(cs@.subrange(lo as int, hi as int)) == (match default_sep(
                cs@.subrange(k as int, hi as int),
            ) {
                Some(m) => Some((m + (k - lo)) as nat),
                None => None::<nat>,
            }),
        decreases hi - k,
    {
        if cs[k] == ':' && cs[k + 1] == '-' {
            return Some(k - lo);
        }
        assert(cs@.subrange(k as int, hi as int).drop_first() =~= cs@.subrange(k + 1, hi as int));
        k = k + 1;
    }
    None
}

/// The value of `name`: special variables first, then the environment.
fn lookup_exec<'a>(env: &'a ResolvedEnv, special: &'a StrMap<String>, name: &str) -> (r: Option<
    &'a String,
>)
    ensures
        match lookup(env@, special@, name@) {
            Some(v) => r matches Some(x) && x@ == v,
            None => r is None,
        },
{
    match special.get(name) {
        Some(v) => Some(v),
        None => env.get(name),
    }
}

/// Interpolates `${VAR}` patterns in strings.
pub struct Interpolator;

impl Interpolator {
    /// Interpolates `input` with the variables of `env`.
    pub fn interpolate(input: &str, env: &ResolvedEnv) -> (r: String)
        ensures
            r@ == interp(input@, env@, Map::empty()),
    {
        let special: StrMap<String> = StrMap::new();
        Self::interpolate_with_special(input, env, &special)
    }

    /// Interpolates `input`, where the variables of `special` take precedence over `env`.
    pub fn interpolate_with_special(input: &str, env: &ResolvedEnv, special: &StrMap<String>) -> (r:
        String)
        ensures
            r@ == interp(input@, env@, special@),
    {
        let cs = str_chars(input);
        let mut out: Vec<char> = Vec::new();
        let mut i: usize = 0;
        let ghost e = env@;
        let ghost sp = special@;
        assert(cs@.skip(0) =~= cs@);
        while i < cs.len()
            invariant
                0 <= i <= cs.len(),
                cs@ == input@,
                e == env@,
                sp == special@,
                interp(cs@, e, sp) == out@ + interp(cs@.skip(i as int), e, sp),
            decreases cs.len() - i,
        {
            let ghost t = cs@.skip(i as int);
            let ghost before = out@;
            assert(t[0] == cs@[i as int]);
            let c = cs[i];
            if c != '$' {
                out.push(c);
                i = i + 1;
                assert(t.skip(1) =~= cs@.skip(i as int));
                assert(out@ =~= before + seq![c]);
            } else if i + 1 < cs.len() && cs[i + 1] == '$' {
                assert(t[1] == cs@[i + 1]);
                out.push('$');
                i = i + 2;
                assert(t.skip(2) =~= cs@.skip(i as int));
                assert(out@ =~= before + seq!['$']);
            } else if i + 1 < cs.len() && cs[i + 1] == '{' {
                assert(t[1] == cs@[i + 1]);
                let start = i + 2;
                let ghost rest = t.skip(2);
                assert(rest =~= cs@.skip(start as int));
                proof {
                    lemma_close_index(rest);
                }
                let close = match find_char_from(&cs, '}', start) {
                    Some(j) => j,
                    None => cs.len(),
                };
                proof {
                    let ci = close_index(rest);
                    assert(rest.len() == cs.len() - start);
                    if ci < close - start {
                        assert(rest[ci as int] == cs@[start + ci]);
                    } else if ci > close - start {
                        assert(rest[close - start] == cs@[close as int]);
                    }
                    assert(ci == close - start);
                }
                let ghost body = cs@.subrange(start as int, close as int);
                assert(body =~= rest.take((close - start) as int));
                let value = Self::braced_value_exec(&cs, start, close, env, special);
                push_str(&mut out, value.as_str());
                if close < cs.len() {
                    i = close + 1;
                    assert(rest.skip((close - start) + 1) =~= cs@.skip(i as int));
                } else {
                    i = close;
                    assert(cs@.skip(i as int) =~= Seq::<char>::empty());
                    assert(rest =~= body);
                }
                assert(out@ =~= before + braced_value(body, e, sp));
            } else if i + 1 < cs.len() && char_is_name_start(cs[i + 1]) {
                assert(t[1] == cs@[i + 1]);
                let ghost u = t.skip(1);
                assert(u =~= cs@.skip(i + 1));
                let j = scan_name(&cs, i + 1);
                proof {
                    lemma_name_len(u);
                }
                let name = substring(&cs, i + 1, j);
                assert(name@ =~= u.take(name_len(u) as int));
                match lookup_exec(env, special, name.as_str()) {
                    Some(v) => push_str(&mut out, v.as_str()),
                    None => {},
                }
                i = j;
                assert(u.skip(name_len(u) as int) =~= cs@.skip(i as int));
                assert(out@ =~= before + lookup_or_empty(e, sp, name@));
            } else {
                out.push('$');
                i = i + 1;
                proof {
                    if t.len() > 1 {
                        assert(t[1] == cs@[i as int]);
                    }
                }
                assert(t.skip(1) =~= cs@.skip(i as int));
                assert(out@ =~= before + seq!['$']);
            }
        }
        assert(cs@.skip(i as int) =~= Seq::<char>::empty());
        assert(out@ + Seq::<char>::empty() =~= out@);
        string_from_chars(out.as_slice())
    }

    /// The value that the body `cs[lo..hi]` of a `${...}` reference stands for.
    fn braced_value_exec(
        cs: &Vec<char>,
        lo: usize,
        hi: usize,
        env: &ResolvedEnv,
        special: &StrMap<String>,
    ) -> (r: String)
        requires
            lo <= hi <= cs.len(),
        ensures
            r@ == braced_value(cs@.subrange(lo as int, hi as int), env@, special@),
    {
        let ghost body = cs@.subrange(lo as int, hi as int);
        proof {
            lemma_default_sep(body);
        }
        match find_default_sep(cs, lo, hi) {
            Some(k) => {
                let name = substring(cs, lo, lo + k);
                assert(name@ =~= body.take(k as int));
                match lookup_exec(env, special, name.as_str()) {
                    Some(v) => v.clone(),
                    None => {
                        let d = substring(cs, lo + k + 2, hi);
                        assert(d@ =~= body.skip(k + 2));
                        d
                    },
                }
            },
            None => {
                let name = substring(cs, lo, hi);
                match lookup_exec(env, special, name.as_str()) {
                    Some(v) => v.clone(),
                    None => string_from_chars(Vec::new().as_slice()),
                }
            },
        }
    }

    /// Interpolates each string of `inputs` with the variables of `env`.
    pub fn interpolate_all(inputs: &[String], env: &ResolvedEnv) -> (r: Vec<String>)
        ensures
            r@.len() == inputs@.len(),
            forall|i: int|
                0 <= i < inputs@.len() ==> #[trigger] r@[i]@ == interp(
                    inputs@[i]@,
                    env@,
                    Map::empty(),
                ),
    {
        let mut r: Vec<String> = Vec::new();
        let mut i: usize = 0;
        while i < inputs.len()
            invariant
                0 <= i <= inputs.len(),
                r@.len() == i,
                forall|j: int|
                    0 <= j < i ==> #[trigger] r@[j]@ == interp(inputs@[j]@, env@, Map::empty()),
            decreases inputs.len() - i,
        {
            r.push(Self::interpolate(inputs[i].as_str(), env));
            i = i + 1;
        }
        r
    }
}

/// A `$` followed by a character that is not `$`, `{` or the start of a name (as in the
/// command substitution `$(date)`) stands for itself, and so does a `$` that ends the text.
pub proof fn law_lone_dollar_kept(
    c: char,
    s: Seq<char>,
    env: Map<Seq<char>, String>,
    special: Map<Seq<char>, String>,
)
    requires
        c != '$',
        c != '{',
        !is_name_start(c),
    ensures
        interp(seq!['$', c] + s, env, special) == seq!['$'] + interp(seq![c] + s, env, special),
        interp(seq!['$'], env, special) == seq!['$'],
{
    let u = seq!['$', c] + s;
    assert(u[0] == '$' && u[1] == c);
    assert(u.skip(1) =~= seq![c] + s);
    let e = seq!['$'];
    assert(e.skip(1) =~= Seq::<char>::empty());
    assert(interp(e.skip(1), env, special) == Seq::<char>::empty());
    assert(seq!['$'] + Seq::<char>::empty() =~= seq!['$']);
}

} // verus!
