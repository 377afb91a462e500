//! A map keyed by strings that remembers the order in which keys were first inserted.
use vstd::prelude::*;

use crate::text::str_eq;

verus! {

/// A map from string keys to values.
///
/// Keys are unique; the entries keep the order in which each key was first inserted,
/// which is the order in which [`StrMap::entry`] hands them out.
#[derive(Debug)]
pub struct StrMap<V> {
    entries: Vec<(String, V)>,
}

/// Whether no key occurs twice in `ps`.
pub open spec fn distinct_keys<V>(ps: Seq<(String, V)>) -> bool {
    forall|i: int, j: int|
        0 <= i < ps.len() && 0 <= j < ps.len() && i != j ==> ps[i].0@ != ps[j].0@
}

/// Whether `k` is the key of some entry of `ps`.
pub open spec fn has_key<V>(ps: Seq<(String, V)>, k: Seq<char>) -> bool {
    exists|i: int| 0 <= i < ps.len() && ps[i].0@ == k
}

/// The index of the entry of `ps` whose key is `k` (meaningful when there is one).
pub open spec fn index_of_key<V>(ps: Seq<(String, V)>, k: Seq<char>) -> int {
    choose|i: int| 0 <= i < ps.len() && ps[i].0@ == k
}

/// The map that a sequence of entries with distinct keys stands for.
pub open spec fn map_of<V>(ps: Seq<(String, V)>) -> Map<Seq<char>, V> {
    Map::new(|k: Seq<char>| has_key(ps, k), |k: Seq<char>| ps[index_of_key(ps, k)].1)
}

/// Whether one of the first `j` entries of `ps` has key `k`.
pub open spec fn key_in_prefix<V>(ps: Seq<(String, V)>, j: int, k: Seq<char>) -> bool {
    exists|m: int| 0 <= m < j && ps[m].0@ == k
}

/// The keys of `ps`, in order.
pub open spec fn keys_of<V>(ps: Seq<(String, V)>) -> Seq<Seq<char>> {
    ps.map_values(|p: (String, V)| p.0@)
}

impl<V> StrMap<V> {
    #[verifier::type_invariant]
    spec fn keys_unique(self) -> bool {
        distinct_keys(self.entries@)
    }

    /// The entries, in insertion order.
    pub closed spec fn pairs(self) -> Seq<(String, V)> {
        self.entries@
    }

    /// Keys in entry order.
    pub open spec fn key_seq(self) -> Seq<Seq<char>> {
        keys_of(self.pairs())
    }

    /// The empty map.
    pub fn new() -> (r: Self)
        ensures
            r@ == Map::<Seq<char>, V>::empty(),
            r.pairs().len() == 0,
    {
        let r = StrMap { entries: Vec::new() };
        assert(r@ =~= Map::<Seq<char>, V>::empty());
        r
    }

    /// The number of keys.
    pub fn len(&self) -> (r: usize)
        ensures
            r == self.pairs().len(),
            r == self@.dom().len(),
            distinct_keys(self.pairs()),
    {
        proof {
            use_type_invariant(self);
            self.lemma_len();
        }
        self.entries.len()
    }

    /// Whether the map has no key.
    pub fn is_empty(&self) -> (r: bool)
        ensures
            r == (self.pairs().len() == 0),
            r == (self@ == Map::<Seq<char>, V>::empty()),
    {
        proof {
            use_type_invariant(self);
            self.lemma_len();
            if self.pairs().len() == 0 {
                assert(self@ =~= Map::<Seq<char>, V>::empty());
            } else {
                assert(self@.dom().contains(self.pairs()[0].0@));
            }
        }
        self.entries.len() == 0
    }

    proof fn lemma_len(&self)
        requires
            distinct_keys(self.entries@),
        ensures
            self@.dom().len() == self.entries@.len(),
            self@.dom().finite(),
    {
        lemma_map_of_len(self.entries@);
    }

    /// Properties of the view that hold of every map.
    pub proof fn lemma_view(&self)
        requires
            distinct_keys(self.pairs()),
        ensures
            self@ == map_of(self.pairs()),
            self@.dom().finite(),
            self@.dom().len() == self.pairs().len(),
            forall|i: int|
                0 <= i < self.pairs().len() ==> #[trigger] self@[self.pairs()[i].0@]
                    == self.pairs()[i].1 && self@.dom().contains(self.pairs()[i].0@),
    {
        self.lemma_len();
        assert forall|i: int| 0 <= i < self.pairs().len() implies #[trigger] self@[self.pairs()[
            i
        ].0@] == self.pairs()[i].1 && self@.dom().contains(self.pairs()[i].0@) by {
            let k = self.pairs()[i].0@;
            assert(has_key(self.pairs(), k));
            let j = index_of_key(self.pairs(), k);
            assert(j == i);
        }
    }

    /// The entry at position `i` of the insertion order.
    pub fn entry(&self, i: usize) -> (r: (&String, &V))
        requires
            i < self.pairs().len(),
        ensures
            *r.0 == self.pairs()[i as int].0,
            *r.1 == self.pairs()[i as int].1,
            self@.dom().contains(r.0@),
            self@[r.0@] == *r.1,
            distinct_keys(self.pairs()),
    {
        proof {
            use_type_invariant(self);
            self.lemma_view();
        }
        let e = &self.entries[i];
        (&e.0, &e.1)
    }

    /// The keys, in entry order.
    pub fn keys(&self) -> (r: Vec<String>)
        ensures
            r.deep_view() == self.key_seq(),
    {
        let mut out: Vec<String> = Vec::new();
        let mut i: usize = 0;
        while i < self.entries.len()
            invariant
                0 <= i <= self.entries.len(),
                out.deep_view() == keys_of(self.entries@).take(i as int),
            decreases self.entries.len() - i,
        {
            let k = self.entries[i].0.clone();
            let ghost dv_before = out.deep_view();
            out.push(k);
            assert(out.deep_view() =~= dv_before.push(self.entries@[i as int].0@));
            assert(out.deep_view() =~= keys_of(self.entries@).take(i + 1));
            i = i + 1;
        }
        assert(keys_of(self.entries@).take(i as int) =~= keys_of(self.entries@));
        out
    }

    /// The position of `key` in the entries.
    fn position(&self, key: &str) -> (r: Option<usize>)
        ensures
            r matches Some(i) ==> i < self.pairs().len() && self.pairs()[i as int].0@ == key@,
            r is None ==> !has_key(self.pairs(), key@),
    {
        let mut i: usize = 0;
        while i < self.entries.len()
            invariant
                0 <= i <= self.entries.len(),
                forall|j: int| 0 <= j < i ==> self.entries@[j].0@ != key@,
            decreases self.entries.len() - i,
        {
            if str_eq(self.entries[i].0.as_str(), key) {
                return Some(i);
            }
            i = i + 1;
        }
        None
    }

    /// Whether `key` is present.
    pub fn contains_key(&self, key: &str) -> (r: bool)
        ensures
            r == self@.dom().contains(key@),
    {
        self.position(key).is_some()
    }

    /// The value stored under `key`.
    pub fn get(&self, key: &str) -> (r: Option<&V>)
        ensures
            r matches Some(v) ==> self@.dom().contains(key@) && *v == self@[key@],
            r is None ==> !self@.dom().contains(key@),
    {
        proof {
            use_type_invariant(self);
            self.lemma_view();
        }
        match self.position(key) {
            Some(i) => Some(&self.entries[i].1),
            None => None,
        }
    }

    /// Stores `value` under `key`, replacing the value already there; a new key goes last.
    pub fn insert(&mut self, key: String, value: V)
        ensures
            final(self)@ == old(self)@.insert(key@, value),
            has_key(old(self).pairs(), key@) ==> final(self).key_seq() == old(self).key_seq(),
            !has_key(old(self).pairs(), key@) ==> final(self).key_seq() == old(self).key_seq().push(
                key@,
            ),
    {
        proof {
            use_type_invariant(&*self);
        }
        let ghost old_ps = self.entries@;
        let pos = self.position(key.as_str());
        match pos {
            Some(i) => {
                let mut entries: Vec<(String, V)> = Vec::new();
                std::mem::swap(&mut entries, &mut self.entries);
                entries.set(i, (key, value));
                let ghost new_ps = entries@;
                assert(distinct_keys(new_ps));
                self.entries = entries;
                proof {
                    assert forall|k: Seq<char>| #[trigger]
                        map_of(new_ps).dom().contains(k) == (map_of(old_ps).dom().contains(k)
                            || k == key@) by {
                        if has_key(old_ps, k) {
                            let j = index_of_key(old_ps, k);
                            assert(new_ps[j].0@ == k);
                        }
                        if has_key(new_ps, k) {
                            let j = index_of_key(new_ps, k);
                            if j != i {
                                assert(old_ps[j].0@ == k);
                            }
                        }
                    }
                    assert forall|k: Seq<char>| #[trigger]
                        map_of(new_ps).dom().contains(k) implies map_of(new_ps)[k] == map_of(
                            old_ps,
                        ).insert(key@, value)[k] by {
                        let j = index_of_key(new_ps, k);
                        if k == key@ {
                            assert(j == i);
                        } else {
                            assert(old_ps[j].0@ == k);
                            let j2 = index_of_key(old_ps, k);
                            assert(j2 == j);
                        }
                    }
                    assert(map_of(new_ps) =~= map_of(old_ps).insert(key@, value));
                    assert(keys_of(new_ps) =~= keys_of(old_ps));
                }
            },
            None => {
                let ghost k0 = key@;
                let mut entries: Vec<(String, V)> = Vec::new();
                std::mem::swap(&mut entries, &mut self.entries);
                entries.push((key, value));
                let ghost new_ps = entries@;
                assert(distinct_keys(new_ps)) by {
                    assert forall|a: int, b: int|
                        0 <= a < new_ps.len() && 0 <= b < new_ps.len() && a != b implies new_ps[a].0@
                        != new_ps[b].0@ by {
                        if a < old_ps.len() && b < old_ps.len() {
                            assert(old_ps[a] == new_ps[a] && old_ps[b] == new_ps[b]);
                        } else if a < old_ps.len() {
                            assert(old_ps[a] == new_ps[a]);
                        } else if b < old_ps.len() {
                            assert(old_ps[b] == new_ps[b]);
                        }
                    }
                }
                self.entries = entries;
                proof {
                    assert(new_ps[old_ps.len() as int].0@ == k0);
                    assert forall|k: Seq<char>| #[trigger]
                        map_of(new_ps).dom().contains(k) == (map_of(old_ps).dom().contains(k)
                            || k == k0) by {
                        if has_key(old_ps, k) {
                            let j = index_of_key(old_ps, k);
                            assert(new_ps[j].0@ == k);
                        }
                        if has_key(new_ps, k) {
                            let j = index_of_key(new_ps, k);
                            if j < old_ps.len() {
                                assert(old_ps[j].0@ == k);
                            }
                        }
                        if k == k0 {
                            assert(new_ps[old_ps.len() as int].0@ == k);
                        }
                    }
                    assert forall|k: Seq<char>| #[trigger]
                        map_of(new_ps).dom().contains(k) implies map_of(new_ps)[k] == map_of(
                            old_ps,
                        ).insert(k0, value)[k] by {
                        let j = index_of_key(new_ps, k);
                        if k == k0 {
                            assert(j == old_ps.len());
                        } else {
                            assert(j < old_ps.len());
                            assert(old_ps[j].0@ == k);
                            let j2 = index_of_key(old_ps, k);
                            assert(j2 == j);
                        }
                    }
                    assert(map_of(new_ps) =~= map_of(old_ps).insert(k0, value));
                    assert(keys_of(new_ps) =~= keys_of(old_ps).push(k0));
                }
            },
        }
    }

    /// Stores `value` under `key` like [`StrMap::insert`], and hands back the value that was
    /// stored there before, if any.
    pub fn replace(&mut self, key: String, value: V) -> (r: Option<V>)
        ensures
            final(self)@ == old(self)@.insert(key@, value),
            r matches Some(v) ==> old(self)@.dom().contains(key@) && v == old(self)@[key@],
            r is None ==> !old(self)@.dom().contains(key@),
    {
        proof {
            use_type_invariant(&*self);
            self.lemma_view();
        }
        let pos = self.position(key.as_str());
        match pos {
            Some(i) => {
                let ghost old_ps = self.entries@;
                let ghost k0 = key@;
                let mut entries: Vec<(String, V)> = Vec::new();
                std::mem::swap(&mut entries, &mut self.entries);
                let (_, previous) = entries.remove(i);
                entries.insert(i, (key, value));
                let ghost new_ps = entries@;
                assert(new_ps =~= old_ps.update(i as int, (new_ps[i as int].0, value)));
                assert(distinct_keys(new_ps)) by {
                    assert forall|a: int, b: int|
                        0 <= a < new_ps.len() && 0 <= b < new_ps.len() && a != b implies new_ps[a].0@
                        != new_ps[b].0@ by {
                        if a != i && b != i {
                            assert(old_ps[a] == new_ps[a] && old_ps[b] == new_ps[b]);
                        } else if a == i {
                            assert(old_ps[b] == new_ps[b]);
                            assert(old_ps[i as int].0@ == k0);
                        } else {
                            assert(old_ps[a] == new_ps[a]);
                            assert(old_ps[i as int].0@ == k0);
                        }
                    }
                }
                self.entries = entries;
                proof {
                    assert forall|k: Seq<char>| #[trigger]
                        map_of(new_ps).dom().contains(k) == (map_of(old_ps).dom().contains(k)
                            || k == k0) by {
                        if has_key(old_ps, k) {
                            let j = index_of_key(old_ps, k);
                            if j == i {
                                assert(new_ps[j].0@ == k0);
                            } else {
                                assert(new_ps[j].0@ == k);
                            }
                        }
                        if has_key(new_ps, k) {
                            let j = index_of_key(new_ps, k);
                            if j != i {
                                assert(old_ps[j].0@ == k);
                            }
                        }
                        if k == k0 {
                            assert(new_ps[i as int].0@ == k);
                        }
                    }
                    assert forall|k: Seq<char>| #[trigger]
                        map_of(new_ps).dom().contains(k) implies map_of(new_ps)[k] == map_of(
                            old_ps,
                        ).insert(k0, value)[k] by {
                        let j = index_of_key(new_ps, k);
                        if k == k0 {
                            assert(new_ps[i as int].0@ == k);
                            assert(j == i);
                        } else {
                            assert(j != i);
                            assert(old_ps[j].0@ == k);
                            let j2 = index_of_key(old_ps, k);
                            assert(j2 == j);
                        }
                    }
                    assert(map_of(new_ps) =~= map_of(old_ps).insert(k0, value));
                    assert(index_of_key(old_ps, k0) == i as int);
                }
                Some(previous)
            },
            None => {
                self.insert(key, value);
                None
            },
        }
    }

    /// Removes every entry.
    pub fn clear(&mut self)
        ensures
            final(self)@ == Map::<Seq<char>, V>::empty(),
            final(self).pairs().len() == 0,
    {
        self.entries = Vec::new();
        assert(self@ =~= Map::<Seq<char>, V>::empty());
    }
}

impl<V> View for StrMap<V> {
    type V = Map<Seq<char>, V>;

    closed spec fn view(&self) -> Map<Seq<char>, V> {
        map_of(self.entries@)
    }
}

/// Entries with the same keys and values, in the same order, stand for the same map.
proof fn lemma_same_map<V>(a: Seq<(String, V)>, b: Seq<(String, V)>)
    requires
        distinct_keys(a),
        a.len() == b.len(),
        forall|i: int| 0 <= i < a.len() ==> #[trigger] a[i].0@ == b[i].0@ && a[i].1 == b[i].1,
    ensures
        map_of(a) == map_of(b),
{
    assert forall|k: Seq<char>| has_key(a, k) == has_key(b, k) by {
        if has_key(a, k) {
            let i = choose|i: int| 0 <= i < a.len() && a[i].0@ == k;
            assert(b[i].0@ == k);
        }
        if has_key(b, k) {
            let i = choose|i: int| 0 <= i < b.len() && b[i].0@ == k;
            assert(a[i].0@ == k);
        }
    }
    assert forall|k: Seq<char>| has_key(a, k) implies #[trigger] map_of(a)[k] == map_of(b)[k] by {
        let i = index_of_key(a, k);
        let j = index_of_key(b, k);
        assert(a[j].0@ == k);
        assert(i == j);
    }
    assert(map_of(a) =~= map_of(b));
}

impl StrMap<String> {
    /// A copy of a map of strings.
    pub fn clone_strings(&self) -> (r: Self)
        ensures
            r@ == self@,
            r.key_seq() == self.key_seq(),
    {
        proof {
            use_type_invariant(self);
        }
        let mut out: Vec<(String, String)> = Vec::new();
        let mut i: usize = 0;
        while i < self.entries.len()
            invariant
                0 <= i <= self.entries.len(),
                out@.len() == i,
                distinct_keys(self.entries@),
                forall|j: int|
                    0 <= j < i ==> #[trigger] out@[j].0@ == self.entries@[j].0@ && out@[j].1
                        == self.entries@[j].1,
            decreases self.entries.len() - i,
        {
            let k = self.entries[i].0.clone();
            let v = self.entries[i].1.clone();
            let ghost before = out@;
            out.push((k, v));
            assert forall|j: int| 0 <= j < i + 1 implies #[trigger] out@[j].0@
                == self.entries@[j].0@ && out@[j].1 == self.entries@[j].1 by {
                if j < i {
                    assert(out@[j] == before[j]);
                }
            }
            i = i + 1;
        }
        proof {
            lemma_same_map(self.entries@, out@);
            assert(distinct_keys(out@));
        }
        let r = StrMap { entries: out };
        assert(keys_of(r.entries@) =~= keys_of(self.entries@));
        r
    }
}

/// The map of entries with distinct keys has as many keys as entries.
pub proof fn lemma_map_of_len<V>(ps: Seq<(String, V)>)
    requires
        distinct_keys(ps),
    ensures
        map_of(ps).dom().finite(),
        map_of(ps).dom().len() == ps.len(),
    decreases ps.len(),
{
    if ps.len() == 0 {
        assert(map_of(ps).dom() =~= Set::<Seq<char>>::empty());
    } else {
        let qs = ps.drop_last();
        lemma_map_of_len(qs);
        let k = ps.last().0@;
        assert(!map_of(qs).dom().contains(k)) by {
            if has_key(qs, k) {
                let j = index_of_key(qs, k);
                assert(ps[j].0@ == k);
            }
        }
        assert forall|x: Seq<char>| #[trigger]
            map_of(ps).dom().contains(x) == map_of(qs).dom().insert(k).contains(x) by {
            if has_key(ps, x) {
                let j = index_of_key(ps, x);
                if j < qs.len() {
                    assert(qs[j].0@ == x);
                }
            }
            if has_key(qs, x) {
                let j = index_of_key(qs, x);
                assert(ps[j].0@ == x);
            }
            if x == k {
                assert(ps[ps.len() - 1].0@ == x);
            }
        }
        assert(map_of(ps).dom() =~= map_of(qs).dom().insert(k));
    }
}

} // verus!
