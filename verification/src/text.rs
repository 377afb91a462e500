//! Character-level text helpers shared by the parsers and formatters.
use vstd::prelude::*;
use vstd::std_specs::iter::IteratorSpec;

verus! {

/// The characters of a string slice, in order.
pub(crate) fn str_chars(s: &str) -> (r: Vec<char>)
    ensures
        r@ == s@,
{
    let mut it = s.chars();
    proof {
        vstd::string::axiom_spec_iter(s);
    }
    let mut out: Vec<char> = Vec::new();
    loop
        invariant
            out@ + IteratorSpec::remaining(&it) == s@,
            IteratorSpec::decrease(&it) is Some,
        ensures
            out@ == s@,
        decreases IteratorSpec::decrease(&it)->0,
    {
        match it.next() {
            Some(c) => {
                out.push(c);
            },
            None => {
                assert(out@ + IteratorSpec::remaining(&it) =~= out@);
                break;
            },
        }
    }
    out
}

/// The string made of the given characters, in order: `String`'s `FromIterator<&char>`
/// (`collect`), which appends each character in turn.
#[verifier::external_body]
pub(crate) fn string_from_chars(cs: &[char]) -> (r: String)
    ensures
        r@ == cs@,
{
    cs.iter().collect()
}

/// An owned copy of a string slice.
pub fn owned(s: &str) -> (r: String)
    ensures
        r@ == s@,
{
    let cs = str_chars(s);
    string_from_chars(cs.as_slice())
}

/// `a` followed by `b`.
pub fn concat(a: &str, b: &str) -> (r: String)
    ensures
        r@ == a@ + b@,
{
    let mut cs = str_chars(a);
    let bs = str_chars(b);
    let mut i: usize = 0;
    while i < bs.len()
        invariant
            0 <= i <= bs.len(),
            bs@ == b@,
            cs@ == a@ + b@.take(i as int),
        decreases bs.len() - i,
    {
        cs.push(bs[i]);
        i = i + 1;
        assert(b@.take(i as int) =~= b@.take((i - 1) as int).push(bs@[i - 1]));
    }
    assert(b@.take(bs.len() as int) =~= b@);
    string_from_chars(cs.as_slice())
}

/// Appends the characters of `b` to the character vector `out`.
pub fn push_str(out: &mut Vec<char>, b: &str)
    ensures
        final(out)@ == old(out)@ + b@,
{
    let bs = str_chars(b);
    let mut i: usize = 0;
    while i < bs.len()
        invariant
            0 <= i <= bs.len(),
            bs@ == b@,
            out@ == old(out)@ + b@.take(i as int),
        decreases bs.len() - i,
    {
        out.push(bs[i]);
        i = i + 1;
        assert(b@.take(i as int) =~= b@.take((i - 1) as int).push(bs@[i - 1]));
    }
    assert(b@.take(bs.len() as int) =~= b@);
}

/// Whether two strings hold the same characters.
pub fn str_eq(a: &str, b: &str) -> (r: bool)
    ensures
        r == (a@ == b@),
{
    let x = owned(a);
    let y = owned(b);
    x == y
}

/// The Unicode `White_Space` property, which `char::is_whitespace` and `str::trim` use.
pub open spec fn is_white(c: char) -> bool {
    let u = c as u32;
    (0x9 <= u && u <= 0xd) || u == 0x20 || u == 0x85 || u == 0xa0 || u == 0x1680 || (0x2000 <= u
        && u <= 0x200a) || u == 0x2028 || u == 0x2029 || u == 0x202f || u == 0x205f || u == 0x3000
}

/// Executable form of [`is_white`].
pub fn char_is_white(c: char) -> (r: bool)
    ensures
        r == is_white(c),
{
    let u = c as u32;
    (0x9 <= u && u <= 0xd) || u == 0x20 || u == 0x85 || u == 0xa0 || u == 0x1680 || (0x2000 <= u
        && u <= 0x200a) || u == 0x2028 || u == 0x2029 || u == 0x202f || u == 0x205f || u == 0x3000
}

/// A text is blank when every character in it is white space (so the empty text is blank).
pub open spec fn is_blank(s: Seq<char>) -> bool {
    forall|i: int| 0 <= i < s.len() ==> is_white(#[trigger] s[i])
}

/// `s` with its leading white space removed.
pub open spec fn trim_start(s: Seq<char>) -> Seq<char>
    decreases s.len(),
{
    if s.len() > 0 && is_white(s[0]) {
        trim_start(s.drop_first())
    } else {
        s
    }
}

/// `s` with its trailing white space removed.
pub open spec fn trim_end(s: Seq<char>) -> Seq<char>
    decreases s.len(),
{
    if s.len() > 0 && is_white(s.last()) {
        trim_end(s.drop_last())
    } else {
        s
    }
}

/// `s` with white space removed at both ends, as `str::trim` gives it.
pub open spec fn trim(s: Seq<char>) -> Seq<char> {
    trim_end(trim_start(s))
}

/// Removing leading white space leaves a suffix of the text that does not start with white
/// space.
pub proof fn lemma_trim_start(s: Seq<char>)
    ensures
        exists|a: int| 0 <= a <= s.len() && trim_start(s) == s.skip(a),
        trim_start(s).len() == 0 || !is_white(trim_start(s)[0]),
    decreases s.len(),
{
    if s.len() > 0 && is_white(s[0]) {
        lemma_trim_start(s.drop_first());
        let a = choose|a: int| 0 <= a <= s.drop_first().len() && trim_start(s.drop_first()) == s.drop_first().skip(a);
        assert(s.drop_first().skip(a) =~= s.skip(a + 1));
    } else {
        assert(s.skip(0) =~= s);
    }
}

/// Removing trailing white space leaves a prefix of the text that does not end with white
/// space.
pub proof fn lemma_trim_end(s: Seq<char>)
    ensures
        exists|b: int| 0 <= b <= s.len() && trim_end(s) == s.take(b),
        trim_end(s).len() == 0 || !is_white(trim_end(s).last()),
    decreases s.len(),
{
    if s.len() > 0 && is_white(s.last()) {
        lemma_trim_end(s.drop_last());
        let b = choose|b: int| 0 <= b <= s.drop_last().len() && trim_end(s.drop_last()) == s.drop_last().take(b);
        assert(s.drop_last().take(b) =~= s.take(b));
    } else {
        assert(s.take(s.len() as int) =~= s);
    }
}

/// Trimmed text is a part of the text, and has no white space at either end, so trimming it
/// again changes nothing.
pub proof fn lemma_trim(s: Seq<char>)
    ensures
        exists|a: int, b: int| 0 <= a <= b <= s.len() && trim(s) == s.subrange(a, b),
        trim(s).len() == 0 || (!is_white(trim(s)[0]) && !is_white(trim(s).last())),
        trim(trim(s)) == trim(s),
{
    let u = trim_start(s);
    lemma_trim_start(s);
    lemma_trim_end(u);
    let a = choose|a: int| 0 <= a <= s.len() && u == s.skip(a);
    let b = choose|b: int| 0 <= b <= u.len() && trim_end(u) == u.take(b);
    let t = trim(s);
    assert(t =~= s.subrange(a, a + b));
    if t.len() > 0 {
        assert(t[0] == u[0]);
    }
    assert(trim_start(t) == t);
    assert(trim_end(t) == t);
}

/// Whether the whole string is white space.
pub fn is_blank_str(s: &str) -> (r: bool)
    ensures
        r == is_blank(s@),
{
    let cs = str_chars(s);
    let mut i: usize = 0;
    while i < cs.len()
        invariant
            0 <= i <= cs.len(),
            cs@ == s@,
            forall|j: int| 0 <= j < i ==> is_white(#[trigger] cs@[j]),
        decreases cs.len() - i,
    {
        if !char_is_white(cs[i]) {
            return false;
        }
        i = i + 1;
    }
    true
}

/// The bounds of `cs[lo..hi]` once white space is removed at both ends.
pub fn trim_bounds(cs: &Vec<char>, lo: usize, hi: usize) -> (r: (usize, usize))
    requires
        lo <= hi <= cs.len(),
    ensures
        lo <= r.0 <= r.1 <= hi,
        cs@.subrange(r.0 as int, r.1 as int) == trim(cs@.subrange(lo as int, hi as int)),
{
    let mut i = lo;
    while i < hi && char_is_white(cs[i])
        invariant
            lo <= i <= hi <= cs.len(),
            trim_start(cs@.subrange(lo as int, hi as int)) == trim_start(
                cs@.subrange(i as int, hi as int),
            ),
        decreases hi - i,
    {
        assert(cs@.subrange(i as int, hi as int).drop_first() =~= cs@.subrange(
            i + 1,
            hi as int,
        ));
        i = i + 1;
    }
    let mut j = hi;
    while j > i && char_is_white(cs[j - 1])
        invariant
            lo <= i <= j <= hi <= cs.len(),
            trim_end(cs@.subrange(i as int, hi as int)) == trim_end(
                cs@.subrange(i as int, j as int),
            ),
        decreases j - i,
    {
        assert(cs@.subrange(i as int, j as int).drop_last() =~= cs@.subrange(
            i as int,
            j - 1,
        ));
        j = j - 1;
    }
    (i, j)
}

/// `str::trim`: the string with white space removed at both ends.
pub fn trim_str(s: &str) -> (r: String)
    ensures
        r@ == trim(s@),
{
    let cs = str_chars(s);
    let (a, b) = trim_bounds(&cs, 0, cs.len());
    assert(cs@.subrange(0, cs@.len() as int) =~= cs@);
    string_from_chars(slice_of(&cs, a, b).as_slice())
}

/// A copy of `cs[lo..hi]`.
pub fn slice_of(cs: &Vec<char>, lo: usize, hi: usize) -> (r: Vec<char>)
    requires
        lo <= hi <= cs.len(),
    ensures
        r@ == cs@.subrange(lo as int, hi as int),
{
    let mut r: Vec<char> = Vec::new();
    let mut i = lo;
    while i < hi
        invariant
            lo <= i <= hi <= cs.len(),
            r@ == cs@.subrange(lo as int, i as int),
        decreases hi - i,
    {
        r.push(cs[i]);
        i = i + 1;
        assert(r@ =~= cs@.subrange(lo as int, i as int));
    }
    r
}

/// The string `cs[lo..hi]`.
pub fn substring(cs: &Vec<char>, lo: usize, hi: usize) -> (r: String)
    requires
        lo <= hi <= cs.len(),
    ensures
        r@ == cs@.subrange(lo as int, hi as int),
{
    let v = slice_of(cs, lo, hi);
    string_from_chars(v.as_slice())
}

/// Whether `needle` occurs in `hay` starting at position `i`.
pub open spec fn occurs_at(hay: Seq<char>, needle: Seq<char>, i: int) -> bool {
    0 <= i && i + needle.len() <= hay.len() && hay.subrange(i, i + needle.len()) == needle
}

/// Whether `needle` occurs anywhere in `hay` (`str::contains`).
pub open spec fn contains_seq(hay: Seq<char>, needle: Seq<char>) -> bool {
    exists|i: int| occurs_at(hay, needle, i)
}

/// Whether `needle` occurs in `hay` starting at position `i`.
pub fn occurs_at_exec(hay: &Vec<char>, needle: &Vec<char>, i: usize) -> (r: bool)
    ensures
        r == occurs_at(hay@, needle@, i as int),
{
    if i > hay.len() || needle.len() > hay.len() - i {
        return false;
    }
    let mut k: usize = 0;
    while k < needle.len()
        invariant
            0 <= k <= needle.len(),
            i + needle.len() <= hay.len(),
            forall|m: int| 0 <= m < k ==> hay@[i + m] == needle@[m],
        decreases needle.len() - k,
    {
        if hay[i + k] != needle[k] {
            assert(hay@.subrange(i as int, i + needle.len())[k as int] != needle@[k as int]);
            return false;
        }
        k = k + 1;
    }
    assert(hay@.subrange(i as int, i + needle.len()) =~= needle@);
    true
}

/// The first position at which `needle` occurs in `hay`, if any.
pub open spec fn first_occurrence(hay: Seq<char>, needle: Seq<char>) -> Option<int> {
    if contains_seq(hay, needle) {
        Some(
            choose|i: int|
                occurs_at(hay, needle, i) && forall|j: int| 0 <= j < i ==> !occurs_at(hay, needle, j),
        )
    } else {
        None
    }
}

/// Position of the first occurrence of `needle` in `hay`.
pub fn find_seq(hay: &Vec<char>, needle: &Vec<char>) -> (r: Option<usize>)
    ensures
        r is None ==> !contains_seq(hay@, needle@),
        r matches Some(i) ==> occurs_at(hay@, needle@, i as int) && forall|j: int|
            0 <= j < i ==> !occurs_at(hay@, needle@, j),
        r matches Some(i) ==> first_occurrence(hay@, needle@) == Some(i as int),
        r is None ==> first_occurrence(hay@, needle@) is None,
{
    let mut i: usize = 0;
    loop
        invariant
            0 <= i <= hay.len(),
            forall|j: int| 0 <= j < i ==> !occurs_at(hay@, needle@, j),
        decreases hay.len() - i,
    {
        if occurs_at_exec(hay, needle, i) {
            proof {
                let w = choose|k: int|
                    occurs_at(hay@, needle@, k) && forall|j: int|
                        0 <= j < k ==> !occurs_at(hay@, needle@, j);
                assert(occurs_at(hay@, needle@, i as int) && forall|j: int|
                    0 <= j < i ==> !occurs_at(hay@, needle@, j));
                if w < i {
                } else if w > i {
                }
                assert(w == i);
            }
            return Some(i);
        }
        if i == hay.len() {
            assert forall|j: int| !occurs_at(hay@, needle@, j) by {
                if 0 <= j && j <= i {
                }
            }
            return None;
        }
        i = i + 1;
    }
}

/// `str::contains` on strings.
pub fn contains_str(hay: &str, needle: &str) -> (r: bool)
    ensures
        r == contains_seq(hay@, needle@),
{
    let h = str_chars(hay);
    let n = str_chars(needle);
    find_seq(&h, &n).is_some()
}

/// The position of the first occurrence of `c` in `s`.
pub open spec fn first_char(s: Seq<char>, c: char) -> Option<int> {
    if exists|i: int| 0 <= i < s.len() && s[i] == c {
        Some(choose|i: int| 0 <= i < s.len() && s[i] == c && forall|j: int| 0 <= j < i ==> s[j] != c)
    } else {
        None
    }
}

/// Position of the first `c` in `cs[lo..]`, as an index into `cs`.
pub fn find_char_from(cs: &Vec<char>, c: char, lo: usize) -> (r: Option<usize>)
    requires
        lo <= cs.len(),
    ensures
        r matches Some(i) ==> lo <= i < cs.len() && cs@[i as int] == c && forall|j: int|
            lo <= j < i ==> cs@[j] != c,
        r is None ==> forall|j: int| lo <= j < cs.len() ==> cs@[j] != c,
{
    let mut i = lo;
    while i < cs.len()
        invariant
            lo <= i <= cs.len(),
            forall|j: int| lo <= j < i ==> cs@[j] != c,
        decreases cs.len() - i,
    {
        if cs[i] == c {
            return Some(i);
        }
        i = i + 1;
    }
    None
}

/// The first position of `c` in the characters of `s`.
pub fn find_char(cs: &Vec<char>, c: char) -> (r: Option<usize>)
    ensures
        r matches Some(i) ==> first_char(cs@, c) == Some(i as int) && i < cs.len(),
        r is None ==> first_char(cs@, c) is None,
{
    let r = find_char_from(cs, c, 0);
    proof {
        match r {
            Some(i) => {
                let w = choose|k: int|
                    0 <= k < cs@.len() && cs@[k] == c && forall|j: int| 0 <= j < k ==> cs@[j] != c;
                assert(0 <= i < cs@.len() && cs@[i as int] == c);
                if w < i {
                } else if w > i {
                }
            },
            None => {},
        }
    }
    r
}

/// Whether `s` begins with `p`.
pub open spec fn has_prefix(s: Seq<char>, p: Seq<char>) -> bool {
    p.len() <= s.len() && s.take(p.len() as int) == p
}

/// `str::starts_with`.
pub fn starts_with_str(s: &str, p: &str) -> (r: bool)
    ensures
        r == has_prefix(s@, p@),
{
    let sc = str_chars(s);
    let pc = str_chars(p);
    let r = occurs_at_exec(&sc, &pc, 0);
    proof {
        if r {
            assert(sc@.take(pc@.len() as int) =~= sc@.subrange(0, pc@.len() as int));
        } else if has_prefix(s@, p@) {
            assert(sc@.take(pc@.len() as int) =~= sc@.subrange(0, pc@.len() as int));
        }
    }
    r
}

/// The decimal digit for `d`.
pub open spec fn digit_char(d: nat) -> char {
    if d == 0 {
        '0'
    } else if d == 1 {
        '1'
    } else if d == 2 {
        '2'
    } else if d == 3 {
        '3'
    } else if d == 4 {
        '4'
    } else if d == 5 {
        '5'
    } else if d == 6 {
        '6'
    } else if d == 7 {
        '7'
    } else if d == 8 {
        '8'
    } else {
        '9'
    }
}

/// The decimal notation of `n`, without sign or leading zeros.
pub open spec fn decimal(n: nat) -> Seq<char>
    decreases n,
{
    if n < 10 {
        seq![digit_char(n)]
    } else {
        decimal(n / 10).push(digit_char(n % 10))
    }
}

fn digit_exec(d: u64) -> (c: char)
    requires
        d < 10,
    ensures
        c == digit_char(d as nat),
{
    if d == 0 {
        '0'
    } else if d == 1 {
        '1'
    } else if d == 2 {
        '2'
    } else if d == 3 {
        '3'
    } else if d == 4 {
        '4'
    } else if d == 5 {
        '5'
    } else if d == 6 {
        '6'
    } else if d == 7 {
        '7'
    } else if d == 8 {
        '8'
    } else {
        '9'
    }
}

/// The decimal notation of `n` as characters.
pub fn decimal_chars(n: u64) -> (r: Vec<char>)
    ensures
        r@ == decimal(n as nat),
    decreases n,
{
    if n < 10 {
        let mut v = Vec::new();
        v.push(digit_exec(n));
        v
    } else {
        let mut v = decimal_chars(n / 10);
        v.push(digit_exec(n % 10));
        v
    }
}

/// The decimal notation of `n` as a string, as `to_string` writes it.
pub fn decimal_string(n: u64) -> (r: String)
    ensures
        r@ == decimal(n as nat),
{
    let v = decimal_chars(n);
    string_from_chars(v.as_slice())
}

/// The decimal notation of a wide `n` as characters.
pub fn decimal_chars_wide(n: u128) -> (r: Vec<char>)
    ensures
        r@ == decimal(n as nat),
    decreases n,
{
    if n < 10 {
        let mut v = Vec::new();
        v.push(digit_exec(n as u64));
        v
    } else {
        let mut v = decimal_chars_wide(n / 10);
        v.push(digit_exec((n % 10) as u64));
        v
    }
}

/// The decimal notation of a wide `n` as a string.
pub fn decimal_string_wide(n: u128) -> (r: String)
    ensures
        r@ == decimal(n as nat),
{
    let v = decimal_chars_wide(n);
    string_from_chars(v.as_slice())
}

/// The position of the first `c` in `s`, or the length of `s` when there is none.
pub open spec fn index_of_char(s: Seq<char>, c: char) -> nat
    decreases s.len(),
{
    if s.len() == 0 || s[0] == c {
        0
    } else {
        1 + index_of_char(s.drop_first(), c)
    }
}

/// `index_of_char(s, c)` is the first position of `c`, or the length.
pub proof fn lemma_index_of_char(s: Seq<char>, c: char)
    ensures
        index_of_char(s, c) <= s.len(),
        forall|i: int| 0 <= i < index_of_char(s, c) ==> #[trigger] s[i] != c,
        index_of_char(s, c) < s.len() ==> s[index_of_char(s, c) as int] == c,
    decreases s.len(),
{
    if !(s.len() == 0 || s[0] == c) {
        lemma_index_of_char(s.drop_first(), c);
        assert forall|i: int| 0 <= i < index_of_char(s, c) implies #[trigger] s[i] != c by {
            if i > 0 {
                assert(s[i] == s.drop_first()[i - 1]);
            }
        }
    }
}

/// The first `c` in `cs[lo..hi]`, as an index into `cs`, or `hi`.
pub fn find_char_in(cs: &Vec<char>, c: char, lo: usize, hi: usize) -> (r: usize)
    requires
        lo <= hi <= cs.len(),
    ensures
        r == lo + index_of_char(cs@.subrange(lo as int, hi as int), c),
        lo <= r <= hi,
{
    let ghost sub = cs@.subrange(lo as int, hi as int);
    proof {
        lemma_index_of_char(sub, c);
    }
    let mut i = lo;
    while i < hi
        invariant
            lo <= i <= hi <= cs.len(),
            sub == cs@.subrange(lo as int, hi as int),
            forall|j: int| lo <= j < i ==> cs@[j] != c,
        decreases hi - i,
    {
        if cs[i] == c {
            proof {
                let k = index_of_char(sub, c);
                assert(sub.len() == hi - lo);
                lemma_index_of_char(sub, c);
                if k < i - lo {
                    assert(sub[k as int] == cs@[lo + k]);
                } else if k > i - lo {
                    assert(sub[i - lo] == cs@[i as int]);
                }
                assert(k == i - lo);
            }
            return i;
        }
        i = i + 1;
    }
    proof {
        let k = index_of_char(sub, c);
        if k < hi - lo {
            assert(sub[k as int] == cs@[lo + k]);
        }
    }
    i
}

/// `s` with every occurrence of `p` replaced by `w`, scanning left to right without overlap
/// (`str::replace`, for a non-empty pattern).
pub open spec fn replaced(s: Seq<char>, p: Seq<char>, w: Seq<char>) -> Seq<char>
    decreases s.len(),
{
    if p.len() == 0 || s.len() == 0 {
        s
    } else if has_prefix(s, p) {
        w + replaced(s.skip(p.len() as int), p, w)
    } else {
        seq![s[0]] + replaced(s.drop_first(), p, w)
    }
}

/// Whether `s` holds no `*`.
pub open spec fn star_free(s: Seq<char>) -> bool {
    forall|k: int| 0 <= k < s.len() ==> s[k] != '*'
}

/// Whether `s` is made of `*` alone.
pub open spec fn all_stars(s: Seq<char>) -> bool {
    forall|k: int| 0 <= k < s.len() ==> s[k] == '*'
}

/// Text in which a pattern does not occur comes out of a replacement unchanged.
pub proof fn lemma_replaced_absent(s: Seq<char>, p: Seq<char>, w: Seq<char>)
    requires
        !contains_seq(s, p),
    ensures
        replaced(s, p, w) == s,
    decreases s.len(),
{
    if p.len() == 0 || s.len() == 0 {
    } else {
        if has_prefix(s, p) {
            assert(occurs_at(s, p, 0)) by {
                assert(s.subrange(0, p.len() as int) =~= s.take(p.len() as int));
            }
        }
        assert(!contains_seq(s.drop_first(), p)) by {
            if contains_seq(s.drop_first(), p) {
                let j = choose|j: int| occurs_at(s.drop_first(), p, j);
                assert(s.subrange(j + 1, j + 1 + p.len()) =~= s.drop_first().subrange(j, j + p.len()));
                assert(occurs_at(s, p, j + 1));
            }
        }
        lemma_replaced_absent(s.drop_first(), p, w);
        assert(seq![s[0]] + s.drop_first() =~= s);
    }
}

/// A prefix free of `*` of what a replacement by stars gives was already a prefix of the text.
proof fn lemma_replaced_star_free_prefix(s: Seq<char>, p: Seq<char>, w: Seq<char>, x: Seq<char>)
    requires
        p.len() > 0,
        w.len() > 0,
        all_stars(w),
        star_free(x),
        has_prefix(replaced(s, p, w), x),
    ensures
        has_prefix(s, x),
    decreases s.len(),
{
    let r = replaced(s, p, w);
    if x.len() == 0 {
        assert(s.take(0) =~= x);
    } else if s.len() == 0 {
    } else if has_prefix(s, p) {
        assert(r[0] == w[0]);
        assert(x[0] == r.take(x.len() as int)[0]);
    } else {
        let r2 = replaced(s.drop_first(), p, w);
        let x2 = x.drop_first();
        assert(r == seq![s[0]] + r2);
        assert(r2.take(x2.len() as int) =~= r.take(x.len() as int).drop_first());
        lemma_replaced_star_free_prefix(s.drop_first(), p, w, x2);
        assert(x[0] == r.take(x.len() as int)[0]);
        assert(s.take(x.len() as int) =~= seq![s[0]] + s.drop_first().take(x2.len() as int));
        assert(x =~= seq![x[0]] + x2);
    }
}

/// A pattern free of `*`, replaced by a non-empty run of stars, leaves no occurrence of itself,
/// and creates no occurrence of any other text free of `*`.
pub proof fn lemma_replaced_by_stars(s: Seq<char>, p: Seq<char>, w: Seq<char>, q: Seq<char>)
    requires
        p.len() > 0,
        w.len() > 0,
        all_stars(w),
        q.len() > 0,
        star_free(q),
    ensures
        contains_seq(replaced(s, p, w), q) ==> contains_seq(s, q),
        q == p ==> !contains_seq(replaced(s, p, w), q),
    decreases s.len(),
{
    let r = replaced(s, p, w);
    if s.len() == 0 {
    } else if has_prefix(s, p) {
        let rest = s.skip(p.len() as int);
        let r2 = replaced(rest, p, w);
        lemma_replaced_by_stars(rest, p, w, q);
        assert(r == w + r2);
        if contains_seq(r, q) {
            let i = choose|i: int| occurs_at(r, q, i);
            if i < w.len() {
                assert(r.subrange(i, i + q.len())[0] == r[i]);
            } else {
                assert(r2.subrange(i - w.len(), i - w.len() + q.len()) =~= r.subrange(i, i + q.len()));
                assert(occurs_at(r2, q, i - w.len()));
                if q != p {
                    let j = choose|j: int| occurs_at(rest, q, j);
                    assert(s.subrange(j + p.len(), j + p.len() + q.len()) =~= rest.subrange(j, j + q.len()));
                    assert(occurs_at(s, q, j + p.len()));
                }
            }
        }
    } else {
        let rest = s.drop_first();
        let r2 = replaced(rest, p, w);
        lemma_replaced_by_stars(rest, p, w, q);
        assert(r == seq![s[0]] + r2);
        if contains_seq(r, q) {
            let i = choose|i: int| occurs_at(r, q, i);
            if i == 0 {
                assert(r.take(q.len() as int) =~= r.subrange(0, q.len() as int));
                lemma_replaced_star_free_prefix(s, p, w, q);
                assert(s.subrange(0, q.len() as int) =~= s.take(q.len() as int));
                assert(occurs_at(s, q, 0));
                if q == p {
                    assert(has_prefix(s, p));
                }
            } else {
                assert(r2.subrange(i - 1, i - 1 + q.len()) =~= r.subrange(i, i + q.len()));
                assert(occurs_at(r2, q, i - 1));
                let j = choose|j: int| occurs_at(rest, q, j);
                assert(s.subrange(j + 1, j + 1 + q.len()) =~= rest.subrange(j, j + q.len()));
                assert(occurs_at(s, q, j + 1));
            }
        }
    }
}

/// Replaces every occurrence of the non-empty `pat` in `s` by `with`.
pub fn replace_all(s: &str, pat: &str, with: &str) -> (r: String)
    requires
        pat@.len() > 0,
    ensures
        r@ == replaced(s@, pat@, with@),
{
    let cs = str_chars(s);
    let pc = str_chars(pat);
    let wc = str_chars(with);
    let mut out: Vec<char> = Vec::new();
    let mut i: usize = 0;
    assert(cs@.skip(0) =~= cs@);
    assert(out@ + replaced(cs@.skip(0), pc@, wc@) =~= replaced(cs@, pc@, wc@));
    while i < cs.len()
        invariant
            0 <= i <= cs.len(),
            pc@ == pat@,
            pc@.len() > 0,
            out@ + replaced(cs@.skip(i as int), pc@, wc@) == replaced(cs@, pc@, wc@),
        decreases cs.len() - i,
    {
        let ghost rest = cs@.skip(i as int);
        if occurs_at_exec(&cs, &pc, i) {
            assert(rest.take(pc@.len() as int) =~= cs@.subrange(i as int, i + pc@.len()));
            assert(rest.skip(pc@.len() as int) =~= cs@.skip(i + pc@.len()));
            let ghost before = out@;
            let mut k: usize = 0;
            while k < wc.len()
                invariant
                    0 <= k <= wc.len(),
                    out@ == before + wc@.take(k as int),
                decreases wc.len() - k,
            {
                out.push(wc[k]);
                assert(wc@.take(k + 1) =~= wc@.take(k as int).push(wc@[k as int]));
                k = k + 1;
            }
            assert(wc@.take(wc.len() as int) =~= wc@);
            assert(out@ + replaced(cs@.skip(i + pc@.len()), pc@, wc@) =~= before + replaced(
                rest,
                pc@,
                wc@,
            ));
            i = i + pc.len();
        } else {
            assert(!has_prefix(rest, pc@)) by {
                if has_prefix(rest, pc@) {
                    assert(rest.take(pc@.len() as int) =~= cs@.subrange(i as int, i + pc@.len()));
                }
            }
            assert(rest.drop_first() =~= cs@.skip(i + 1));
            let ghost before = out@;
            out.push(cs[i]);
            assert(out@ + replaced(cs@.skip(i + 1), pc@, wc@) =~= before + replaced(rest, pc@, wc@));
            i = i + 1;
        }
    }
    assert(cs@.skip(i as int) =~= Seq::<char>::empty());
    assert(out@ =~= replaced(cs@, pc@, wc@));
    string_from_chars(out.as_slice())
}

/// The lower-case form of `s` that `str::to_lowercase` gives (full Unicode case mapping).
pub uninterp spec fn lowercase(s: Seq<char>) -> Seq<char>;

/// `str::to_lowercase`. Its result is named [`lowercase`] and depends on `s` alone; the
/// Unicode mapping itself is not stated here.
#[verifier::external_body]
pub(crate) fn to_lower(s: &str) -> (r: String)
    ensures
        r@ == lowercase(s@),
{
    s.to_lowercase()
}

/// Whether `c` is an ASCII decimal digit.
pub open spec fn is_digit(c: char) -> bool {
    '0' <= c && c <= '9'
}

/// The value of the decimal digits `ds`.
pub open spec fn digits_value(ds: Seq<char>) -> nat
    decreases ds.len(),
{
    if ds.len() == 0 {
        0
    } else {
        digits_value(ds.drop_last()) * 10 + ((ds.last() as u32) - ('0' as u32)) as nat
    }
}

/// The decimal text of `n` is digits whose value is `n`.
pub proof fn lemma_decimal_digits(n: nat)
    ensures
        decimal(n).len() > 0,
        forall|i: int| 0 <= i < decimal(n).len() ==> is_digit(#[trigger] decimal(n)[i]),
        digits_value(decimal(n)) == n,
    decreases n,
{
    let d = n % 10;
    assert(is_digit(digit_char(d)) && (digit_char(d) as u32) - ('0' as u32) == d) by {
        assert(d < 10);
    }
    assert(n == (n / 10) * 10 + d);
    if n < 10 {
        assert(d == n);
        assert(decimal(n).drop_last() =~= Seq::<char>::empty());
        assert(digits_value(decimal(n)) == digits_value(Seq::<char>::empty()) * 10 + ((decimal(n).last() as u32) - ('0' as u32)) as nat);
    } else {
        lemma_decimal_digits(n / 10);
        assert(decimal(n).drop_last() =~= decimal(n / 10));
        assert forall|i: int| 0 <= i < decimal(n).len() implies is_digit(#[trigger] decimal(n)[i]) by {
            if i < decimal(n / 10).len() {
                assert(decimal(n)[i] == decimal(n / 10)[i]);
            }
        }
        assert(decimal(n).last() == digit_char(d));
        assert(digits_value(decimal(n)) == digits_value(decimal(n / 10)) * 10 + ((decimal(n).last() as u32) - ('0' as u32)) as nat);
    }
}

/// The text after an optional leading `+`.
pub open spec fn unsigned_digits(s: Seq<char>) -> Seq<char> {
    if s.len() > 0 && s[0] == '+' {
        s.drop_first()
    } else {
        s
    }
}

/// What `str::parse::<usize>` gives: an optional `+`, then one or more decimal digits whose
/// value fits in a `usize`.
pub open spec fn parsed_usize(s: Seq<char>) -> Option<usize> {
    let ds = unsigned_digits(s);
    if ds.len() > 0 && (forall|i: int| 0 <= i < ds.len() ==> is_digit(#[trigger] ds[i]))
        && digits_value(ds) <= usize::MAX {
        Some(digits_value(ds) as usize)
    } else {
        None
    }
}

/// A longer run of digits is worth at least as much as its prefix.
proof fn lemma_digits_value_prefix(ds: Seq<char>, i: int)
    requires
        0 <= i <= ds.len(),
        forall|j: int| 0 <= j < ds.len() ==> is_digit(#[trigger] ds[j]),
    ensures
        digits_value(ds.take(i)) <= digits_value(ds),
    decreases ds.len() - i,
{
    if i < ds.len() {
        lemma_digits_value_prefix(ds, i + 1);
        assert(ds.take(i + 1).drop_last() =~= ds.take(i));
    } else {
        assert(ds.take(i) =~= ds);
    }
}

/// Digits worth more than `usize::MAX` in a prefix make the whole text unparsable.
proof fn lemma_overflow_means_none(ds: Seq<char>, k: int)
    requires
        0 < k <= ds.len(),
        digits_value(ds.take(k)) > usize::MAX,
    ensures
        (forall|j: int| 0 <= j < ds.len() ==> is_digit(#[trigger] ds[j])) ==> digits_value(ds)
            > usize::MAX,
{
    if forall|j: int| 0 <= j < ds.len() ==> is_digit(#[trigger] ds[j]) {
        lemma_digits_value_prefix(ds, k);
    }
}

/// `str::parse::<usize>`.
pub fn parse_usize(s: &str) -> (r: Option<usize>)
    ensures
        r == parsed_usize(s@),
{
    let cs = str_chars(s);
    let start: usize = if cs.len() > 0 && cs[0] == '+' {
        1
    } else {
        0
    };
    let ghost ds = cs@.skip(start as int);
    assert(ds =~= unsigned_digits(s@));
    if start == cs.len() {
        return None;
    }
    let mut value: usize = 0;
    let mut i: usize = start;
    while i < cs.len()
        invariant
            start <= i <= cs.len(),
            ds == cs@.skip(start as int),
            ds == unsigned_digits(s@),
            ds.len() > 0,
            forall|j: int| 0 <= j < i - start ==> is_digit(#[trigger] ds[j]),
            value == digits_value(ds.take(i - start)),
        decreases cs.len() - i,
    {
        let c = cs[i];
        assert(ds[i - start] == c);
        if !('0' <= c && c <= '9') {
            assert(!is_digit(ds[i - start]));
            return None;
        }
        let d = (c as u32 - '0' as u32) as usize;
        assert(ds.take(i - start + 1).drop_last() =~= ds.take(i - start));
        let ghost k = i - start + 1;
        assert(digits_value(ds.take(k)) == value * 10 + d);
        match value.checked_mul(10) {
            Some(v10) => match v10.checked_add(d) {
                Some(v) => {
                    value = v;
                },
                None => {
                    proof {
                        lemma_overflow_means_none(ds, k);
                        assert(parsed_usize(s@) is None);
                    }
                    return None;
                },
            },
            None => {
                proof {
                    lemma_overflow_means_none(ds, k);
                }
                return None;
            },
        }
        i = i + 1;
    }
    assert(ds.take(i - start) =~= ds);
    Some(value)
}

/// What `str::parse::<u64>` gives: an optional `+`, then one or more decimal digits whose
/// value fits in a `u64`.
pub open spec fn parsed_u64(s: Seq<char>) -> Option<u64> {
    let ds = unsigned_digits(s);
    if ds.len() > 0 && (forall|i: int| 0 <= i < ds.len() ==> is_digit(#[trigger] ds[i]))
        && digits_value(ds) <= u64::MAX {
        Some(digits_value(ds) as u64)
    } else {
        None
    }
}

/// Digits worth more than `u64::MAX` in a prefix make the whole text unparsable.
proof fn lemma_overflow_means_none_u64(ds: Seq<char>, k: int)
    requires
        0 < k <= ds.len(),
        digits_value(ds.take(k)) > u64::MAX,
    ensures
        (forall|j: int| 0 <= j < ds.len() ==> is_digit(#[trigger] ds[j])) ==> digits_value(ds)
            > u64::MAX,
{
    if forall|j: int| 0 <= j < ds.len() ==> is_digit(#[trigger] ds[j]) {
        lemma_digits_value_prefix(ds, k);
    }
}

/// `str::parse::<u64>`.
pub fn parse_u64(s: &str) -> (r: Option<u64>)
    ensures
        r == parsed_u64(s@),
{
    let cs = str_chars(s);
    let start: usize = if cs.len() > 0 && cs[0] == '+' {
        1
    } else {
        0
    };
    let ghost ds = cs@.skip(start as int);
    assert(ds =~= unsigned_digits(s@));
    if start == cs.len() {
        return None;
    }
    let mut value: u64 = 0;
    let mut i: usize = start;
    while i < cs.len()
        invariant
            start <= i <= cs.len(),
            ds == cs@.skip(start as int),
            ds == unsigned_digits(s@),
            ds.len() > 0,
            forall|j: int| 0 <= j < i - start ==> is_digit(#[trigger] ds[j]),
            value == digits_value(ds.take(i - start)),
        decreases cs.len() - i,
    {
        let c = cs[i];
        assert(ds[i - start] == c);
        if !('0' <= c && c <= '9') {
            assert(!is_digit(ds[i - start]));
            return None;
        }
        let d = (c as u32 - '0' as u32) as u64;
        assert(ds.take(i - start + 1).drop_last() =~= ds.take(i - start));
        let ghost k = i - start + 1;
        assert(digits_value(ds.take(k)) == value * 10 + d);
        match value.checked_mul(10) {
            Some(v10) => match v10.checked_add(d) {
                Some(v) => {
                    value = v;
                },
                None => {
                    proof {
                        lemma_overflow_means_none_u64(ds, k);
                        assert(parsed_u64(s@) is None);
                    }
                    return None;
                },
            },
            None => {
                proof {
                    lemma_overflow_means_none_u64(ds, k);
                }
                return None;
            },
        }
        i = i + 1;
    }
    assert(ds.take(i - start) =~= ds);
    Some(value)
}

/// The texts of `s` with `sep` between each two (`join`).
pub open spec fn join_with(s: Seq<Seq<char>>, sep: Seq<char>) -> Seq<char>
    decreases s.len(),
{
    if s.len() == 0 {
        Seq::empty()
    } else if s.len() == 1 {
        s[0]
    } else {
        join_with(s.drop_last(), sep) + sep + s.last()
    }
}

/// The strings of `v` with `sep` between each two.
pub fn join_strings(v: &Vec<String>, sep: &str) -> (r: String)
    ensures
        r@ == join_with(v.deep_view(), sep@),
{
    let mut out = String::new();
    let mut j: usize = 0;
    while j < v.len()
        invariant
            0 <= j <= v.len(),
            out@ == join_with(v.deep_view().take(j as int), sep@),
        decreases v.len() - j,
    {
        let ghost t = v.deep_view().take(j + 1);
        assert(t.drop_last() =~= v.deep_view().take(j as int));
        assert(t.last() == v@[j as int]@);
        if j > 0 {
            let a = concat(out.as_str(), sep);
            out = concat(a.as_str(), v[j].as_str());
        } else {
            assert(t =~= seq![v@[0]@]);
            out = concat(out.as_str(), v[j].as_str());
            assert(out@ =~= v@[0]@);
        }
        j = j + 1;
    }
    assert(v.deep_view().take(v.len() as int) =~= v.deep_view());
    out
}

} // verus!
