//! The dotenv format: `KEY=VALUE` lines, `#` comments, optional quotes around values.
use vstd::prelude::*;

use crate::env::ResolvedEnv;
use crate::strmap::StrMap;
use crate::text::{
    find_char_in, index_of_char, is_white, lemma_index_of_char, lemma_trim, str_chars, substring, trim,
    trim_bounds,
};

verus! {

/// A value with one pair of matching double or single quotes around it loses them.
pub open spec fn unquote(v: Seq<char>) -> Seq<char> {
    if v.len() >= 2 && ((v[0] == '"' && v.last() == '"') || (v[0] == '\'' && v.last() == '\'')) {
        v.subrange(1, v.len() - 1)
    } else {
        v
    }
}

/// The `(key, value)` pair that one line of a dotenv file gives, if any.
///
/// The line is trimmed; blank lines and lines starting with `#` give nothing, and so do
/// lines without `=`. The key is the trimmed text before the first `=`, the value the trimmed
/// and unquoted text after it.
pub open spec fn parse_line(line: Seq<char>) -> Option<(Seq<char>, Seq<char>)> {
    let l = trim(line);
    if l.len() == 0 || l[0] == '#' {
        None
    } else {
        let p = index_of_char(l, '=');
        if p < l.len() {
            Some((trim(l.take(p as int)), unquote(trim(l.skip(p + 1int)))))
        } else {
            None
        }
    }
}

/// A line whose value is a lone quote character: reading such a line fails.
pub open spec fn line_is_malformed(line: Seq<char>) -> bool {
    let l = trim(line);
    if l.len() == 0 || l[0] == '#' {
        false
    } else {
        let p = index_of_char(l, '=');
        p < l.len() && {
            let v = trim(l.skip(p + 1int));
            v.len() == 1 && (v[0] == '"' || v[0] == '\'')
        }
    }
}

/// The map `acc` updated by the lines of `s`, in order; a later line wins.
pub open spec fn dotenv_fold(acc: Map<Seq<char>, Seq<char>>, s: Seq<char>) -> Map<
    Seq<char>,
    Seq<char>,
>
    decreases s.len(),
{
    let e = index_of_char(s, '\n');
    let next = match parse_line(s.take(e as int)) {
        Some(kv) => acc.insert(kv.0, kv.1),
        None => acc,
    };
    if e < s.len() {
        dotenv_fold(next, s.skip(e + 1int))
    } else {
        next
    }
}

/// The variables that a dotenv text defines.
pub open spec fn dotenv_map(s: Seq<char>) -> Map<Seq<char>, Seq<char>> {
    dotenv_fold(Map::empty(), s)
}

/// Whether no line of `s` is malformed.
pub open spec fn dotenv_well_formed(s: Seq<char>) -> bool
    decreases s.len(),
{
    let e = index_of_char(s, '\n');
    !line_is_malformed(s.take(e as int)) && (e < s.len() ==> dotenv_well_formed(s.skip(e + 1int)))
}

/// The texts of a map of strings.
pub open spec fn texts(m: Map<Seq<char>, String>) -> Map<Seq<char>, Seq<char>> {
    m.map_values(|v: String| v@)
}

/// Applies the line `cs[a..b]` to `m`.
fn apply_line(cs: &Vec<char>, a: usize, b: usize, m: &mut ResolvedEnv)
    requires
        a <= b <= cs.len(),
        !line_is_malformed(cs@.subrange(a as int, b as int)),
    ensures
        texts(final(m)@) == match parse_line(cs@.subrange(a as int, b as int)) {
            Some(kv) => texts(old(m)@).insert(kv.0, kv.1),
            None => texts(old(m)@),
        },
{
    let ghost line = cs@.subrange(a as int, b as int);
    let (ta, tb) = trim_bounds(cs, a, b);
    let ghost l = cs@.subrange(ta as int, tb as int);
    assert(l == trim(line));
    if ta == tb || cs[ta] == '#' {
        return;
    }
    let p = find_char_in(cs, '=', ta, tb);
    proof {
        lemma_index_of_char(l, '=');
    }
    if p == tb {
        return;
    }
    let (ka, kb) = trim_bounds(cs, ta, p);
    let (va, vb) = trim_bounds(cs, p + 1, tb);
    assert(l.take(p - ta) =~= cs@.subrange(ta as int, p as int));
    assert(l.skip(p - ta + 1) =~= cs@.subrange(p + 1, tb as int));
    let ghost v = cs@.subrange(va as int, vb as int);
    let key = substring(cs, ka, kb);
    let quoted = vb - va >= 2 && ((cs[va] == '"' && cs[vb - 1] == '"') || (cs[va] == '\''
        && cs[vb - 1] == '\''));
    let value = if quoted {
        assert(v[0] == cs@[va as int] && v.last() == cs@[vb - 1]);
        let r = substring(cs, va + 1, vb - 1);
        assert(r@ =~= v.subrange(1, v.len() - 1));
        r
    } else {
        proof {
            if v.len() >= 2 {
                assert(v[0] == cs@[va as int] && v.last() == cs@[vb - 1]);
            }
        }
        substring(cs, va, vb)
    };
    let ghost k0 = key@;
    let ghost v0 = value@;
    let ghost before = m@;
    m.insert(key, value);
    assert(texts(m@) =~= texts(before).insert(k0, v0));
}

/// Reads the variables of a dotenv text; a later line wins over an earlier one.
pub fn parse_dotenv(contents: &str) -> (r: ResolvedEnv)
    requires
        dotenv_well_formed(contents@),
    ensures
        texts(r@) == dotenv_map(contents@),
{
    let cs = str_chars(contents);
    let mut m: ResolvedEnv = StrMap::new();
    let mut pos: usize = 0;
    let mut done = false;
    assert(cs@.skip(0) =~= cs@);
    assert(texts(m@) =~= Map::<Seq<char>, Seq<char>>::empty());
    while !done
        invariant
            0 <= pos <= cs.len(),
            cs@ == contents@,
            !done ==> dotenv_map(contents@) == dotenv_fold(texts(m@), cs@.skip(pos as int)),
            !done ==> dotenv_well_formed(cs@.skip(pos as int)),
            done ==> dotenv_map(contents@) == texts(m@),
        decreases cs.len() - pos + (if done {
            0int
        } else {
            1int
        }),
    {
        let ghost rest = cs@.skip(pos as int);
        let ghost before = texts(m@);
        let end = find_char_in(&cs, '\n', pos, cs.len());
        assert(cs@.subrange(pos as int, cs.len() as int) =~= rest);
        assert(rest.take((end - pos) as int) =~= cs@.subrange(pos as int, end as int));
        apply_line(&cs, pos, end, &mut m);
        if end < cs.len() {
            assert(rest.skip((end - pos) + 1) =~= cs@.skip(end + 1));
            pos = end + 1;
        } else {
            done = true;
        }
    }
    m
}

/// Whether the line `cs[a..b]` is malformed.
fn line_malformed_at(cs: &Vec<char>, a: usize, b: usize) -> (r: bool)
    requires
        a <= b <= cs.len(),
    ensures
        r == line_is_malformed(cs@.subrange(a as int, b as int)),
{
    let ghost line = cs@.subrange(a as int, b as int);
    let (ta, tb) = trim_bounds(cs, a, b);
    let ghost l = cs@.subrange(ta as int, tb as int);
    assert(l == trim(line));
    if ta == tb || cs[ta] == '#' {
        return false;
    }
    let p = find_char_in(cs, '=', ta, tb);
    proof {
        lemma_index_of_char(l, '=');
    }
    if p == tb {
        return false;
    }
    let (va, vb) = trim_bounds(cs, p + 1, tb);
    assert(l.skip(p - ta + 1) =~= cs@.subrange(p + 1, tb as int));
    let ghost v = cs@.subrange(va as int, vb as int);
    if vb - va == 1 {
        assert(v[0] == cs@[va as int]);
        cs[va] == '"' || cs[va] == '\''
    } else {
        false
    }
}

/// Whether a dotenv text can be read: no line holds a lone quote as its value.
pub fn dotenv_is_well_formed(contents: &str) -> (r: bool)
    ensures
        r == dotenv_well_formed(contents@),
{
    let cs = str_chars(contents);
    let mut pos: usize = 0;
    assert(cs@.skip(0) =~= cs@);
    loop
        invariant
            0 <= pos <= cs.len(),
            cs@ == contents@,
            dotenv_well_formed(contents@) == dotenv_well_formed(cs@.skip(pos as int)),
        decreases cs.len() - pos,
    {
        let ghost rest = cs@.skip(pos as int);
        let end = find_char_in(&cs, '\n', pos, cs.len());
        assert(cs@.subrange(pos as int, cs.len() as int) =~= rest);
        assert(rest.take((end - pos) as int) =~= cs@.subrange(pos as int, end as int));
        if line_malformed_at(&cs, pos, end) {
            return false;
        }
        if end < cs.len() {
            assert(rest.skip((end - pos) + 1) =~= cs@.skip(end + 1));
            pos = end + 1;
        } else {
            return true;
        }
    }
}

/// The key that a line gives has no white space at either end and holds no `=`: white space
/// around the key, and around the `=`, does not change it.
pub proof fn law_dotenv_key_trimmed(line: Seq<char>)
    ensures
        parse_line(line) matches Some((k, v)) ==> trim(k) == k && !k.contains('=') && (k.len() == 0
            || (!is_white(k[0]) && !is_white(k.last()))),
{
    let l = trim(line);
    if parse_line(line) is Some {
        let p = index_of_char(l, '=');
        lemma_index_of_char(l, '=');
        let before = l.take(p as int);
        lemma_trim(before);
        let k = trim(before);
        let (a, b) = choose|a: int, b: int| 0 <= a <= b <= before.len() && k == before.subrange(a, b);
        if k.contains('=') {
            let j = choose|j: int| 0 <= j < k.len() && k[j] == '=';
            assert(k[j] == before[a + j]);
            assert(before[a + j] == l[a + j]);
        }
    }
}

} // verus!
