//! The validation cache: which spec files were found valid, by the hash of their contents.
use vstd::prelude::*;

use crate::strmap::StrMap;
use crate::text::{owned, str_eq, string_from_chars};

verus! {

/// The SHA-256 digest of `data`, as `sha2::Sha256::digest` computes it.
pub uninterp spec fn sha256(data: Seq<u8>) -> Seq<u8>;

/// `sha2::Sha256::digest`: the 32-byte SHA-256 digest of `data`. The digest is named
/// [`sha256`]; that it has 32 bytes is the size of the `Sha256` output type.
#[verifier::external_body]
fn sha256_digest(data: &[u8]) -> (r: Vec<u8>)
    ensures
        r@ == sha256(data@),
        r@.len() == 32,
{
    <sha2::Sha256 as sha2::Digest>::digest(data).to_vec()
}

/// The lower-case hexadecimal digit for `d` (below 16).
pub open spec fn hex_digit(d: int) -> char {
    if d < 10 {
        (('0' as int) + d) as char
    } else {
        (('a' as int) + d - 10) as char
    }
}

/// `bytes` in lower-case hexadecimal, two digits per byte, as `{:x}` writes a digest.
pub open spec fn hex_of(bytes: Seq<u8>) -> Seq<char>
    decreases bytes.len(),
{
    if bytes.len() == 0 {
        Seq::empty()
    } else {
        hex_of(bytes.drop_last()) + seq![
            hex_digit(bytes.last() as int / 16),
            hex_digit(bytes.last() as int % 16),
        ]
    }
}

/// The hash recorded for contents `data`: its SHA-256 digest in hexadecimal.
pub open spec fn content_hash(data: Seq<u8>) -> Seq<char> {
    hex_of(sha256(data))
}

fn hex_char(d: u8) -> (c: char)
    requires
        d < 16,
    ensures
        c == hex_digit(d as int),
{
    let table: [char; 16] = [
        '0',
        '1',
        '2',
        '3',
        '4',
        '5',
        '6',
        '7',
        '8',
        '9',
        'a',
        'b',
        'c',
        'd',
        'e',
        'f',
    ];
    let c = table[d as usize];
    assert(c == hex_digit(d as int)) by {
        assert(table@[d as int] == c);
    }
    c
}

/// The lower-case hexadecimal form of `bytes`.
pub fn hex_string(bytes: &[u8]) -> (r: String)
    ensures
        r@ == hex_of(bytes@),
        r@.len() == 2 * bytes@.len(),
{
    let mut out: Vec<char> = Vec::new();
    let mut i: usize = 0;
    while i < bytes.len()
        invariant
            0 <= i <= bytes.len(),
            out@ == hex_of(bytes@.take(i as int)),
            out@.len() == 2 * i,
        decreases bytes.len() - i,
    {
        let b = bytes[i];
        assert(bytes@.take(i + 1).drop_last() =~= bytes@.take(i as int));
        out.push(hex_char(b / 16));
        out.push(hex_char(b % 16));
        assert(out@ =~= hex_of(bytes@.take(i + 1)));
        i = i + 1;
    }
    assert(bytes@.take(bytes.len() as int) =~= bytes@);
    string_from_chars(out.as_slice())
}

/// What the cache knows of one spec file.
#[derive(Debug)]
pub struct CacheEntry {
    /// The hash of the contents that were validated.
    pub file_hash: String,
    /// When, in seconds since the Unix epoch.
    pub validated_at: u64,
    /// Whether they were valid.
    pub is_valid: bool,
}

impl View for CacheEntry {
    type V = (Seq<char>, u64, bool);

    open spec fn view(&self) -> (Seq<char>, u64, bool) {
        (self.file_hash@, self.validated_at, self.is_valid)
    }
}

impl Clone for CacheEntry {
    fn clone(&self) -> (r: Self)
        ensures
            r.file_hash@ == self.file_hash@,
            r.validated_at == self.validated_at,
            r.is_valid == self.is_valid,
    {
        CacheEntry {
            file_hash: self.file_hash.clone(),
            validated_at: self.validated_at,
            is_valid: self.is_valid,
        }
    }
}

/// Whether a file at `path` with contents `contents` must be validated, given the cache
/// `m`: unless it is recorded valid with the hash of those contents.
pub open spec fn needs(m: Map<Seq<char>, (Seq<char>, u64, bool)>, path: Seq<char>, contents: Seq<u8>) -> bool {
    !(m.dom().contains(path) && m[path].0 == content_hash(contents) && m[path].2)
}

/// The cache `m` after recording that `path`, with contents `contents`, was found valid or
/// not at time `now`.
pub open spec fn recorded(
    m: Map<Seq<char>, (Seq<char>, u64, bool)>,
    path: Seq<char>,
    contents: Seq<u8>,
    is_valid: bool,
    now: u64,
) -> Map<Seq<char>, (Seq<char>, u64, bool)> {
    m.insert(path, (content_hash(contents), now, is_valid))
}

/// The cache that a list of entries makes: a later entry for a path replaces an earlier one.
pub open spec fn entries_map(es: Seq<(String, CacheEntry)>) -> Map<Seq<char>, (Seq<char>, u64, bool)>
    decreases es.len(),
{
    if es.len() == 0 {
        Map::empty()
    } else {
        entries_map(es.drop_last()).insert(es.last().0@, es.last().1@)
    }
}

/// The validation results of spec files, keyed by path.
#[derive(Debug)]
pub struct ValidationCache {
    entries: StrMap<CacheEntry>,
}

impl View for ValidationCache {
    type V = Map<Seq<char>, (Seq<char>, u64, bool)>;

    closed spec fn view(&self) -> Map<Seq<char>, (Seq<char>, u64, bool)> {
        self.entries@.map_values(|e: CacheEntry| e@)
    }
}

impl ValidationCache {
    proof fn lemma_view(&self)
        ensures
            self@.dom() == self.entries@.dom(),
            forall|k: Seq<char>|
                self.entries@.dom().contains(k) ==> #[trigger] self@[k] == self.entries@[k]@,
    {
        assert(self@.dom() =~= self.entries@.dom());
    }

    /// The paths of the entries, in the order in which they were first recorded.
    pub closed spec fn paths(self) -> Seq<Seq<char>> {
        self.entries.key_seq()
    }

    /// An empty cache.
    pub fn new() -> (r: Self)
        ensures
            r@ == Map::<Seq<char>, (Seq<char>, u64, bool)>::empty(),
    {
        let r = ValidationCache { entries: StrMap::new() };
        assert(r@ =~= Map::<Seq<char>, (Seq<char>, u64, bool)>::empty());
        r
    }

    /// A cache holding the given entries; a later entry for a path replaces an earlier one.
    pub fn from_entries(entries: Vec<(String, CacheEntry)>) -> (r: Self)
        ensures
            r@ == entries_map(entries@),
            forall|k: Seq<char>|
                #[trigger] r@.dom().contains(k) == (exists|i: int|
                    0 <= i < entries@.len() && entries@[i].0@ == k),
    {
        let mut m: StrMap<CacheEntry> = StrMap::new();
        let mut rest = entries;
        let ghost all = rest@;
        let ghost mut k: int = 0;
        while rest.len() > 0
            invariant
                0 <= k <= all.len(),
                rest@ == all.skip(k),
                m@.map_values(|e: CacheEntry| e@) == entries_map(all.take(k)),
                forall|key: Seq<char>|
                    #[trigger] m@.dom().contains(key) == (exists|i: int|
                        0 <= i < k && all[i].0@ == key),
            decreases rest.len(),
        {
            let ghost before = rest@;
            let (path, entry) = rest.remove(0);
            assert(before[0] == all[k]);
            assert(rest@ =~= all.skip(k + 1));
            let ghost pk = path@;
            let ghost pv = entry@;
            let ghost old_m = m@;
            m.insert(path, entry);
            proof {
                assert(all.take(k + 1).drop_last() =~= all.take(k));
                assert(m@.map_values(|e: CacheEntry| e@) =~= old_m.map_values(|e: CacheEntry| e@).insert(pk, pv));
                assert forall|key: Seq<char>|
                    #[trigger] m@.dom().contains(key) == (exists|i: int|
                        0 <= i < k + 1 && all[i].0@ == key) by {
                    if key == pk {
                        assert(all[k].0@ == key);
                    } else if exists|i: int| 0 <= i < k + 1 && all[i].0@ == key {
                        let i = choose|i: int| 0 <= i < k + 1 && all[i].0@ == key;
                        assert(i < k);
                    }
                }
                k = k + 1;
            }
        }
        proof {
            assert(all.take(all.len() as int) =~= all);
        }
        ValidationCache { entries: m }
    }

    /// The hash recorded for contents: their SHA-256 digest in lower-case hexadecimal.
    pub fn hash_contents(contents: &[u8]) -> (r: String)
        ensures
            r@ == content_hash(contents@),
            r@.len() == 64,
    {
        let digest = sha256_digest(contents);
        hex_string(digest.as_slice())
    }

    /// Whether the file at `path`, whose contents are now `contents`, must be validated:
    /// unless it was recorded valid with the same contents.
    pub fn needs_validation(&self, path: &str, contents: &[u8]) -> (r: bool)
        ensures
            r == needs(self@, path@, contents@),
    {
        let current = Self::hash_contents(contents);
        match self.entries.get(path) {
            Some(entry) => !(str_eq(entry.file_hash.as_str(), current.as_str()) && entry.is_valid),
            None => true,
        }
    }

    /// Records that the file at `path`, with contents `contents`, was found valid or not at
    /// time `now`.
    pub fn record_validation(&mut self, path: &str, contents: &[u8], is_valid: bool, now: u64)
        ensures
            final(self)@ == recorded(old(self)@, path@, contents@, is_valid, now),
    {
        let file_hash = Self::hash_contents(contents);
        let ghost before = self.entries@;
        let entry = CacheEntry { file_hash, validated_at: now, is_valid };
        let ghost ev = entry@;
        self.entries.insert(owned(path), entry);
        assert(self@ =~= recorded(old(self)@, path@, contents@, is_valid, now));
    }

    /// The entry for `path`.
    pub fn get(&self, path: &str) -> (r: Option<&CacheEntry>)
        ensures
            r matches Some(e) ==> self@.dom().contains(path@) && e@ == self@[path@],
            r is None ==> !self@.dom().contains(path@),
    {
        self.entries.get(path)
    }

    /// Forgets every entry.
    pub fn clear(&mut self)
        ensures
            final(self)@ == Map::<Seq<char>, (Seq<char>, u64, bool)>::empty(),
    {
        self.entries.clear();
        assert(self@ =~= Map::<Seq<char>, (Seq<char>, u64, bool)>::empty());
    }

    /// The entries, each with its path, in the order of [`ValidationCache::paths`].
    pub fn list(&self) -> (r: Vec<(&String, &CacheEntry)>)
        ensures
            r@.len() == self@.dom().len(),
            r@.len() == self.paths().len(),
            forall|i: int| 0 <= i < r@.len() ==> #[trigger] r@[i].0@ == self.paths()[i],
            forall|i: int|
                #![trigger r@[i]]
                0 <= i < r@.len() ==> self@.dom().contains(r@[i].0@) && r@[i].1@ == self@[r@[i].0@],
            forall|i: int, j: int| 0 <= i < j < r@.len() ==> r@[i].0@ != r@[j].0@,
    {
        proof {
            self.lemma_view();
        }
        let n = self.entries.len();
        let mut out: Vec<(&String, &CacheEntry)> = Vec::new();
        let mut i: usize = 0;
        while i < n
            invariant
                0 <= i <= n,
                n == self.entries.pairs().len(),
                n == self@.dom().len(),
                self@.dom() == self.entries@.dom(),
                forall|k: Seq<char>|
                    self.entries@.dom().contains(k) ==> #[trigger] self@[k] == self.entries@[k]@,
                out@.len() == i,
                forall|j: int|
                    0 <= j < i ==> *out@[j].0 == self.entries.pairs()[j].0 && *out@[j].1
                        == self.entries.pairs()[j].1,
                forall|j: int|
                    #![trigger out@[j]]
                    0 <= j < i ==> self@.dom().contains(out@[j].0@) && out@[j].1@ == self@[out@[j].0@],
                forall|j: int| 0 <= j < i ==> #[trigger] out@[j].0@ == self.entries.key_seq()[j],
            decreases n - i,
        {
            let (k, v) = self.entries.entry(i);
            let ghost before = out@;
            out.push((k, v));
            assert forall|j: int|
                #![trigger out@[j]]
                0 <= j < i + 1 implies self@.dom().contains(out@[j].0@) && out@[j].1@ == self@[out@[j].0@] by {
                if j < i {
                    assert(out@[j] == before[j]);
                    assert(before[j].1@ == self@[before[j].0@]);
                } else {
                    assert(out@[j] == (k, v));
                    assert(self.entries@.dom().contains(k@));
                    assert(self@[k@] == self.entries@[k@]@);
                }
            }
            i = i + 1;
        }
        proof {
            assert(crate::strmap::distinct_keys(self.entries.pairs()));
            assert forall|a: int, b: int| 0 <= a < b < out@.len() implies out@[a].0@
                != out@[b].0@ by {
                assert(*out@[a].0 == self.entries.pairs()[a].0);
                assert(*out@[b].0 == self.entries.pairs()[b].0);
            }
        }
        out
    }

    /// The number of entries.
    pub fn len(&self) -> (r: usize)
        ensures
            r == self@.dom().len(),
    {
        proof {
            self.lemma_view();
        }
        self.entries.len()
    }

    /// Whether there is no entry.
    pub fn is_empty(&self) -> (r: bool)
        ensures
            r == (self@.dom().len() == 0),
    {
        proof {
            self.lemma_view();
        }
        self.entries.len() == 0
    }
}

impl Default for ValidationCache {
    fn default() -> (r: Self)
        ensures
            r@ == Map::<Seq<char>, (Seq<char>, u64, bool)>::empty(),
    {
        ValidationCache::new()
    }
}

/// What a read gives back of a write: right after a file is recorded valid, the same
/// contents need no validation; other contents do; a file recorded invalid needs validation
/// whatever its contents; and other paths are as they were.
pub proof fn law_recorded_validation(
    m: Map<Seq<char>, (Seq<char>, u64, bool)>,
    path: Seq<char>,
    contents: Seq<u8>,
    is_valid: bool,
    now: u64,
    later: Seq<u8>,
    other: Seq<char>,
)
    ensures
        !needs(recorded(m, path, contents, true, now), path, contents),
        content_hash(later) != content_hash(contents) ==> needs(
            recorded(m, path, contents, is_valid, now),
            path,
            later,
        ),
        needs(recorded(m, path, contents, false, now), path, later),
        other != path ==> needs(recorded(m, path, contents, is_valid, now), other, later) == needs(
            m,
            other,
            later,
        ),
{
}

} // verus!
