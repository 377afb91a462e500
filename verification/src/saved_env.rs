//! Saved variable values, one dotenv file per project and task, job or shell.
use vstd::prelude::*;

use crate::dotenv::{
    dotenv_fold, dotenv_map, dotenv_well_formed, line_is_malformed, parse_dotenv, parse_line, texts,
    unquote,
};
use crate::env::ResolvedEnv;
use crate::order::{lemma_ordered, lemma_ordered_members, ordered, sort_strings};
use crate::strmap::{distinct_keys, has_key, StrMap};
use crate::text::{
    concat, has_prefix, index_of_char, is_white, lemma_index_of_char, owned, replace_all, replaced,
    trim, trim_end, trim_start,
};

verus! {

/// `a` joined with the relative or absolute path `b`, as `Path::join` does on Unix: an
/// absolute `b` replaces `a`; otherwise a `/` separates them unless `a` is empty or ends in
/// one.
pub open spec fn joined_path(a: Seq<char>, b: Seq<char>) -> Seq<char> {
    if b.len() > 0 && b[0] == '/' {
        b
    } else if a.len() == 0 || a.last() == '/' {
        a + b
    } else {
        a + "/"@ + b
    }
}

/// `Path::join` on Unix paths held as text.
pub fn join_path(a: &str, b: &str) -> (r: String)
    ensures
        r@ == joined_path(a@, b@),
{
    let bc = crate::text::str_chars(b);
    let ac = crate::text::str_chars(a);
    if bc.len() > 0 && bc[0] == '/' {
        owned(b)
    } else if ac.len() == 0 || ac[ac.len() - 1] == '/' {
        concat(a, b)
    } else {
        let s = concat(a, "/");
        concat(s.as_str(), b)
    }
}

/// Whether a value is written inside double quotes: it holds a space, `=` or `#`.
pub open spec fn needs_quotes(v: Seq<char>) -> bool {
    v.contains(' ') || v.contains('=') || v.contains('#')
}

/// The line that saves variable `k` with value `v`.
pub open spec fn env_line(k: Seq<char>, v: Seq<char>) -> Seq<char> {
    if needs_quotes(v) {
        k + "=\""@ + replaced(v, "\""@, "\\\""@) + "\""@
    } else {
        k + "="@ + v
    }
}

/// The lines of `s` joined by newlines.
pub open spec fn join_lines(s: Seq<Seq<char>>) -> Seq<char>
    decreases s.len(),
{
    if s.len() == 0 {
        Seq::empty()
    } else if s.len() == 1 {
        s[0]
    } else {
        join_lines(s.drop_last()) + "\n"@ + s.last()
    }
}

/// The lines of the variables of `ps`, in the order of `ps`.
pub open spec fn env_lines(ps: Seq<(String, String)>) -> Seq<Seq<char>> {
    ps.map_values(|p: (String, String)| env_line(p.0@, p.1@))
}

/// What saving the variables of `ps` writes: their lines in sorted order, each ended by a
/// newline.
pub open spec fn env_file_text(ps: Seq<(String, String)>) -> Seq<char> {
    join_lines(ordered(env_lines(ps))) + "\n"@
}

/// Saved values live under `{config dir}/env/{project}/{entity}.env`.
pub struct SavedEnvStore {
    base_dir: String,
}

impl View for SavedEnvStore {
    type V = Seq<char>;

    closed spec fn view(&self) -> Seq<char> {
        self.base_dir@
    }
}

/// Whether `c` occurs in `s`.
fn has_char(s: &str, c: char) -> (r: bool)
    ensures
        r == s@.contains(c),
{
    let cs = crate::text::str_chars(s);
    let mut i: usize = 0;
    while i < cs.len()
        invariant
            0 <= i <= cs.len(),
            cs@ == s@,
            forall|j: int| 0 <= j < i ==> cs@[j] != c,
        decreases cs.len() - i,
    {
        if cs[i] == c {
            return true;
        }
        i = i + 1;
    }
    false
}

impl SavedEnvStore {
    /// A store under `{config_dir}/env`.
    pub fn new(config_dir: &str) -> (r: Self)
        ensures
            r@ == joined_path(config_dir@, "env"@),
    {
        SavedEnvStore { base_dir: join_path(config_dir, "env") }
    }

    /// The directory of the store.
    pub fn base_dir(&self) -> (r: &str)
        ensures
            r@ == self@,
    {
        self.base_dir.as_str()
    }

    /// The directory of the saved values of `project`.
    pub fn project_dir(&self, project: &str) -> (r: String)
        ensures
            r@ == joined_path(self@, project@),
    {
        join_path(self.base_dir.as_str(), project)
    }

    /// The entity whose saved values a file of a project's directory holds: a file named
    /// `{entity}.env`, with an entity name that is not empty.
    pub fn saved_entity(file_name: &str) -> (r: Option<String>)
        ensures
            ({
                let n = file_name@;
                match r {
                    Some(e) => n.len() > 4 && n.skip(n.len() - 4) == ".env"@ && e@ == n.take(
                        n.len() - 4,
                    ),
                    None => !(n.len() > 4 && n.skip(n.len() - 4) == ".env"@),
                }
            }),
    {
        proof {
            reveal_strlit(".env");
        }
        let cs = crate::text::str_chars(file_name);
        let n = cs.len();
        if n > 4 && cs[n - 4] == '.' && cs[n - 3] == 'e' && cs[n - 2] == 'n' && cs[n - 1] == 'v' {
            assert(cs@.skip(n - 4) =~= ".env"@);
            let e = crate::text::substring(&cs, 0, n - 4);
            assert(cs@.subrange(0, n - 4) =~= cs@.take(n - 4));
            Some(e)
        } else {
            proof {
                if n > 4 && cs@.skip(n - 4) == ".env"@ {
                    assert(cs@.skip(n - 4)[0] == cs@[n - 4]);
                    assert(cs@.skip(n - 4)[1] == cs@[n - 3]);
                    assert(cs@.skip(n - 4)[2] == cs@[n - 2]);
                    assert(cs@.skip(n - 4)[3] == cs@[n - 1]);
                }
            }
            None
        }
    }

    /// The file of the saved values of `entity` in `project`.
    pub fn env_path(&self, project: &str, entity: &str) -> (r: String)
        ensures
            r@ == joined_path(joined_path(self@, project@), entity@ + ".env"@),
    {
        let dir = join_path(self.base_dir.as_str(), project);
        let file = concat(entity, ".env");
        join_path(dir.as_str(), file.as_str())
    }

    /// Reads a saved file: `KEY=VALUE` lines, `#` comments, quotes around values dropped.
    pub fn parse_env_file(contents: &str) -> (r: ResolvedEnv)
        requires
            dotenv_well_formed(contents@),
        ensures
            texts(r@) == dotenv_map(contents@),
    {
        parse_dotenv(contents)
    }

    /// The line that saves one variable: `KEY=VALUE`, or `KEY="VALUE"` with inner `"` escaped
    /// when the value holds a space, `=` or `#`.
    pub fn format_env_line(key: &str, value: &str) -> (r: String)
        ensures
            r@ == env_line(key@, value@),
    {
        if has_char(value, ' ') || has_char(value, '=') || has_char(value, '#') {
            proof {
                reveal_strlit("\"");
            }
            let escaped = replace_all(value, "\"", "\\\"");
            let a = concat(key, "=\"");
            let b = concat(a.as_str(), escaped.as_str());
            concat(b.as_str(), "\"")
        } else {
            let a = concat(key, "=");
            concat(a.as_str(), value)
        }
    }

    /// The text that saves the variables of `env`: one line per variable, the lines sorted,
    /// each ended by a newline.
    pub fn format_env_file(env: &ResolvedEnv) -> (r: String)
        ensures
            r@ == env_file_text(env.pairs()),
    {
        let n = env.len();
        let mut lines: Vec<String> = Vec::new();
        let mut i: usize = 0;
        while i < n
            invariant
                0 <= i <= n,
                n == env.pairs().len(),
                lines.deep_view() == env_lines(env.pairs()).take(i as int),
            decreases n - i,
        {
            let (k, v) = env.entry(i);
            let line = Self::format_env_line(k.as_str(), v.as_str());
            let ghost before = lines.deep_view();
            lines.push(line);
            assert(lines.deep_view() =~= before.push(line@));
            assert(lines.deep_view() =~= env_lines(env.pairs()).take(i + 1));
            i = i + 1;
        }
        assert(env_lines(env.pairs()).take(n as int) =~= env_lines(env.pairs()));
        let sorted = sort_strings(lines);
        proof {
            lemma_ordered(env_lines(env.pairs()), sorted.deep_view());
        }
        let mut out = owned("");
        proof {
            reveal_strlit("");
            assert(""@ =~= Seq::<char>::empty());
        }
        let mut j: usize = 0;
        while j < sorted.len()
            invariant
                0 <= j <= sorted.len(),
                out@ == join_lines(sorted.deep_view().take(j as int)),
            decreases sorted.len() - j,
        {
            let ghost t = sorted.deep_view().take(j + 1);
            assert(t.drop_last() =~= sorted.deep_view().take(j as int));
            assert(t.last() == sorted@[j as int]@);
            if j > 0 {
                let a = concat(out.as_str(), "\n");
                out = concat(a.as_str(), sorted[j].as_str());
            } else {
                assert(t =~= seq![sorted@[0]@]);
                out = concat(out.as_str(), sorted[j].as_str());
            }
            j = j + 1;
        }
        assert(sorted.deep_view().take(sorted.len() as int) =~= sorted.deep_view());
        let r = concat(out.as_str(), "\n");

        r
    }
}

/// Whether `s` is empty or has no white space at either end.
pub open spec fn no_edge_space(s: Seq<char>) -> bool {
    s.len() == 0 || (!is_white(s[0]) && !is_white(s.last()))
}

/// Whether a key is read back as it was saved: it holds no newline and no `=`, has no
/// white space at either end and does not start with `#`.
pub open spec fn savable_key(k: Seq<char>) -> bool {
    &&& !k.contains('\n')
    &&& !k.contains('=')
    &&& no_edge_space(k)
    &&& !(k.len() > 0 && k[0] == '#')
}

/// Whether a value is read back as it was saved: it holds no newline; a value written in
/// quotes holds no `"`; a value written bare has no white space at either end, is not
/// itself wrapped in a pair of quotes and is not a lone quote.
pub open spec fn savable_value(v: Seq<char>) -> bool {
    &&& !v.contains('\n')
    &&& if needs_quotes(v) {
        !v.contains('"')
    } else {
        &&& no_edge_space(v)
        &&& unquote(v) == v
        &&& !(v.len() == 1 && (v[0] == '"' || v[0] == '\''))
    }
}

/// Whether every variable of `ps` is read back as it was saved.
pub open spec fn savable(ps: Seq<(String, String)>) -> bool {
    forall|i: int|
        0 <= i < ps.len() ==> savable_key(#[trigger] ps[i].0@) && savable_value(ps[i].1@)
}

proof fn lemma_trim_fixed(s: Seq<char>)
    requires
        no_edge_space(s),
    ensures
        trim(s) == s,
{
    assert(trim_start(s) == s);
    assert(trim_end(s) == s);
}

proof fn lemma_no_quote_unchanged(v: Seq<char>, w: Seq<char>)
    requires
        !v.contains('"'),
    ensures
        replaced(v, seq!['"'], w) == v,
    decreases v.len(),
{
    if v.len() > 0 {
        assert(v[0] != '"');
        assert(v.take(1)[0] == v[0]);
        assert(v.take(1) != seq!['"']);
        assert(!has_prefix(v, seq!['"']));
        assert(!v.drop_first().contains('"')) by {
            if v.drop_first().contains('"') {
                let j = choose|j: int| 0 <= j < v.drop_first().len() && v.drop_first()[j] == '"';
                assert(v[j + 1] == '"');
            }
        }
        lemma_no_quote_unchanged(v.drop_first(), w);
        assert(seq![v[0]] + v.drop_first() =~= v);
    }
}

proof fn lemma_index_after(a: Seq<char>, c: char, b: Seq<char>)
    requires
        !a.contains(c),
    ensures
        index_of_char(a + seq![c] + b, c) == a.len(),
{
    let s = a + seq![c] + b;
    lemma_index_of_char(s, c);
    let k = index_of_char(s, c);
    if k < a.len() {
        assert(s[k as int] == a[k as int]);
    } else if k > a.len() {
        assert(s[a.len() as int] == c);
    }
}

/// One saved line is read back as the variable it saves.
proof fn lemma_line_read_back(k: Seq<char>, v: Seq<char>)
    requires
        savable_key(k),
        savable_value(v),
    ensures
        parse_line(env_line(k, v)) == Some((k, v)),
        !line_is_malformed(env_line(k, v)),
        !env_line(k, v).contains('\n'),
{
    reveal_strlit("=\"");
    reveal_strlit("\"");
    reveal_strlit("=");
    reveal_strlit("\\\"");
    assert("="@ =~= seq!['=']);
    assert("\""@ =~= seq!['"']);
    assert("=\""@ =~= seq!['=', '"']);
    let w = if needs_quotes(v) {
        seq!['"'] + v + seq!['"']
    } else {
        v
    };
    if needs_quotes(v) {
        lemma_no_quote_unchanged(v, "\\\""@);
        assert(env_line(k, v) =~= k + seq!['='] + w);
    } else {
        assert(env_line(k, v) =~= k + seq!['='] + w);
    }
    let l = k + seq!['='] + w;
    assert(!w.contains('\n')) by {
        if w.contains('\n') {
            let j = choose|j: int| 0 <= j < w.len() && w[j] == '\n';
            if needs_quotes(v) {
                assert(v[j - 1] == '\n');
            }
        }
    }
    assert(!l.contains('\n')) by {
        if l.contains('\n') {
            let j = choose|j: int| 0 <= j < l.len() && l[j] == '\n';
            if j < k.len() {
                assert(k[j] == '\n');
            } else if j > k.len() {
                assert(w[j - k.len() - 1] == '\n');
            }
        }
    }
    assert(no_edge_space(l)) by {
        if k.len() > 0 {
            assert(l[0] == k[0]);
        } else {
            assert(l[0] == '=');
        }
        if w.len() > 0 {
            assert(l.last() == w.last());
        } else {
            assert(l.last() == '=');
        }
    }
    lemma_trim_fixed(l);
    assert(l[0] != '#') by {
        if k.len() > 0 {
            assert(l[0] == k[0]);
        }
    }
    lemma_index_after(k, '=', w);
    assert(l.take(k.len() as int) =~= k);
    assert(l.skip(k.len() + 1int) =~= w);
    lemma_trim_fixed(k);
    assert(no_edge_space(w));
    lemma_trim_fixed(w);
    if needs_quotes(v) {
        assert(w.subrange(1, w.len() - 1) =~= v);
        assert(unquote(w) == v);
    }
}

/// The lines of `ls`, each followed by a newline.
pub open spec fn lines_text(ls: Seq<Seq<char>>) -> Seq<char>
    decreases ls.len(),
{
    if ls.len() == 0 {
        Seq::empty()
    } else {
        ls[0] + "\n"@ + lines_text(ls.drop_first())
    }
}

proof fn lemma_lines_text_push(ls: Seq<Seq<char>>, x: Seq<char>)
    ensures
        lines_text(ls.push(x)) == lines_text(ls) + x + "\n"@,
    decreases ls.len(),
{
    if ls.len() == 0 {
        assert(ls.push(x).drop_first() =~= Seq::<Seq<char>>::empty());
        assert(ls.push(x)[0] == x);
        assert(lines_text(Seq::<Seq<char>>::empty()) =~= Seq::<char>::empty());
        assert(lines_text(ls) =~= Seq::<char>::empty());
        assert(lines_text(ls.push(x)) =~= x + "\n"@);
    } else {
        assert(ls.push(x).drop_first() =~= ls.drop_first().push(x));
        lemma_lines_text_push(ls.drop_first(), x);
        assert(lines_text(ls.push(x)) =~= lines_text(ls) + x + "\n"@);
    }
}

proof fn lemma_join_lines(ls: Seq<Seq<char>>)
    requires
        ls.len() > 0,
    ensures
        join_lines(ls) + "\n"@ == lines_text(ls),
    decreases ls.len(),
{
    if ls.len() == 1 {
        assert(ls.drop_first() =~= Seq::<Seq<char>>::empty());
        assert(lines_text(Seq::<Seq<char>>::empty()) =~= Seq::<char>::empty());
        assert(lines_text(ls) =~= ls[0] + "\n"@);
    } else {
        lemma_join_lines(ls.drop_last());
        lemma_lines_text_push(ls.drop_last(), ls.last());
        assert(ls.drop_last().push(ls.last()) =~= ls);
        assert(join_lines(ls) + "\n"@ =~= lines_text(ls.drop_last()) + ls.last() + "\n"@);
    }
}

/// Whether line `l` is read as a variable named `k`.
pub open spec fn line_key_is(l: Seq<char>, k: Seq<char>) -> bool {
    parse_line(l) matches Some(kv) && kv.0 == k
}

/// The keys that the lines of `ls` give.
pub open spec fn line_keys(ls: Seq<Seq<char>>) -> Set<Seq<char>> {
    Set::new(|k: Seq<char>| exists|i: int| 0 <= i < ls.len() && #[trigger] line_key_is(ls[i], k))
}

/// Whether every line of `ls` is read as a variable of `m` with its value in `m`.
pub open spec fn lines_agree(ls: Seq<Seq<char>>, m: Map<Seq<char>, Seq<char>>) -> bool {
    forall|i: int|
        0 <= i < ls.len() ==> {
            &&& !(#[trigger] ls[i]).contains('\n')
            &&& !line_is_malformed(ls[i])
            &&& parse_line(ls[i]) matches Some(kv) && m.dom().contains(kv.0) && m[kv.0] == kv.1
        }
}

proof fn lemma_fold_lines(acc: Map<Seq<char>, Seq<char>>, ls: Seq<Seq<char>>, m: Map<Seq<char>, Seq<char>>)
    requires
        lines_agree(ls, m),
    ensures
        dotenv_well_formed(lines_text(ls)),
        dotenv_fold(acc, lines_text(ls)) == acc.union_prefer_right(m.restrict(line_keys(ls))),
    decreases ls.len(),
{
    reveal_strlit("\n");
    let s = lines_text(ls);
    if ls.len() == 0 {
        assert(s.take(0) =~= Seq::<char>::empty());
        assert(trim(Seq::<char>::empty()) =~= Seq::<char>::empty());
        assert(line_keys(ls) =~= Set::<Seq<char>>::empty());
        assert(acc.union_prefer_right(m.restrict(line_keys(ls))) =~= acc);
    } else {
        let x = ls[0];
        let rest = ls.drop_first();
        assert(lines_agree(rest, m)) by {
            assert forall|i: int| 0 <= i < rest.len() implies {
                &&& !(#[trigger] rest[i]).contains('\n')
                &&& !line_is_malformed(rest[i])
                &&& parse_line(rest[i]) matches Some(kv) && m.dom().contains(kv.0) && m[kv.0] == kv.1
            } by {
                assert(rest[i] == ls[i + 1]);
            }
        }
        assert(!ls[0].contains('\n'));
        lemma_index_after(x, '\n', lines_text(rest));
        assert(s =~= x + seq!['\n'] + lines_text(rest));
        assert(s.take(x.len() as int) =~= x);
        assert(s.skip(x.len() + 1int) =~= lines_text(rest));
        let kv = parse_line(x)->0;
        let next = acc.insert(kv.0, kv.1);
        lemma_fold_lines(next, rest, m);
        assert(line_keys(ls) =~= line_keys(rest).insert(kv.0)) by {
            assert forall|k: Seq<char>| line_keys(ls).contains(k) implies line_keys(rest).insert(kv.0).contains(k) by {
                let i = choose|i: int| 0 <= i < ls.len() && #[trigger] line_key_is(ls[i], k);
                if i > 0 {
                    assert(ls[i] == rest[i - 1]);
                    assert(line_keys(rest).contains(k));
                }
            }
            assert forall|k: Seq<char>| line_keys(rest).insert(kv.0).contains(k) implies line_keys(ls).contains(k) by {
                if k == kv.0 {
                    assert(line_key_is(ls[0], k));
                } else {
                    let i = choose|i: int| 0 <= i < rest.len() && #[trigger] line_key_is(rest[i], k);
                    assert(rest[i] == ls[i + 1]);
                    assert(line_key_is(ls[i + 1], k));
                }
            }
        }
        assert(next.union_prefer_right(m.restrict(line_keys(rest))) =~= acc.union_prefer_right(
            m.restrict(line_keys(ls)),
        ));
    }
}

/// Saved variables are read back as they were: reading what saving `env` writes gives `env`
/// again, when every key and value is one that is read back unchanged (see [`savable`]).
pub proof fn law_saved_env_round_trip(env: ResolvedEnv)
    requires
        distinct_keys(env.pairs()),
        savable(env.pairs()),
    ensures
        dotenv_well_formed(env_file_text(env.pairs())),
        dotenv_map(env_file_text(env.pairs())) == texts(env@),
{
    reveal_strlit("\n");
    env.lemma_view();
    let ps = env.pairs();
    let m = texts(env@);
    let all = env_lines(ps);
    let ls = ordered(all);
    assert forall|j: int| 0 <= j < ps.len() implies parse_line(#[trigger] all[j]) == Some(
        (ps[j].0@, ps[j].1@),
    ) && !line_is_malformed(all[j]) && !all[j].contains('\n') && m.dom().contains(ps[j].0@) && m[ps[j].0@] == ps[j].1@ by {
        lemma_line_read_back(ps[j].0@, ps[j].1@);
        assert(env@[ps[j].0@] == ps[j].1);
    }
    assert(lines_agree(ls, m)) by {
        assert forall|i: int| 0 <= i < ls.len() implies {
            &&& !(#[trigger] ls[i]).contains('\n')
            &&& !line_is_malformed(ls[i])
            &&& parse_line(ls[i]) matches Some(kv) && m.dom().contains(kv.0) && m[kv.0] == kv.1
        } by {
            lemma_ordered_members(all, ls[i]);
            assert(ls.contains(ls[i]));
            let j = choose|j: int| 0 <= j < all.len() && all[j] == ls[i];
        }
    }
    assert(line_keys(ls) =~= m.dom()) by {
        assert forall|k: Seq<char>| m.dom().contains(k) implies line_keys(ls).contains(k) by {
            assert(env@.dom().contains(k));
            assert(has_key(ps, k));
            let j = choose|j: int| 0 <= j < ps.len() && ps[j].0@ == k;
            assert(all[j] == env_line(ps[j].0@, ps[j].1@));
            assert(all.contains(all[j]));
            lemma_ordered_members(all, all[j]);
            let i = choose|i: int| 0 <= i < ls.len() && ls[i] == all[j];
            assert(line_key_is(ls[i], k));
        }
    }
    lemma_fold_lines(Map::empty(), ls, m);
    assert(Map::<Seq<char>, Seq<char>>::empty().union_prefer_right(m.restrict(m.dom())) =~= m);
    if ls.len() > 0 {
        lemma_join_lines(ls);
    } else {
        let t = env_file_text(ps);
        assert(join_lines(ls) =~= Seq::<char>::empty());
        assert(t =~= seq!['\n']);
        assert(index_of_char(t, '\n') == 0);
        assert(t.take(0) =~= Seq::<char>::empty());
        assert(t.skip(1) =~= Seq::<char>::empty());
        assert(trim(Seq::<char>::empty()) =~= Seq::<char>::empty());
        assert(m.dom() =~= Set::<Seq<char>>::empty());
        assert(Map::<Seq<char>, Seq<char>>::empty() =~= m);
        assert(dotenv_fold(Map::empty(), t.skip(1)) == Map::<Seq<char>, Seq<char>>::empty());
    }
}

} // verus!
