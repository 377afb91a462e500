//! The order of strings by code point, and sorting by it.
use vstd::prelude::*;
use vstd::relations::{sorted_by, total_ordering};

use crate::text::str_chars;

verus! {

/// Whether `a` comes no later than `b` in lexicographic order by code point (the order of
/// `str`'s `Ord`, which compares UTF-8 bytes).
pub open spec fn char_seq_le(a: Seq<char>, b: Seq<char>) -> bool
    decreases a.len(),
{
    if a.len() == 0 {
        true
    } else if b.len() == 0 {
        false
    } else if a[0] != b[0] {
        (a[0] as u32) < (b[0] as u32)
    } else {
        char_seq_le(a.drop_first(), b.drop_first())
    }
}

/// The order as a relation.
pub open spec fn text_order() -> spec_fn(Seq<char>, Seq<char>) -> bool {
    |a: Seq<char>, b: Seq<char>| char_seq_le(a, b)
}

proof fn lemma_code_points_differ(a: char, b: char)
    requires
        a != b,
    ensures
        (a as u32) != (b as u32),
{
}

proof fn lemma_le_reflexive(a: Seq<char>)
    ensures
        char_seq_le(a, a),
    decreases a.len(),
{
    if a.len() > 0 {
        lemma_le_reflexive(a.drop_first());
    }
}

proof fn lemma_le_antisymmetric(a: Seq<char>, b: Seq<char>)
    requires
        char_seq_le(a, b),
        char_seq_le(b, a),
    ensures
        a == b,
    decreases a.len(),
{
    if a.len() > 0 && b.len() > 0 {
        if a[0] == b[0] {
            lemma_le_antisymmetric(a.drop_first(), b.drop_first());
            assert(a =~= seq![a[0]] + a.drop_first());
            assert(b =~= seq![b[0]] + b.drop_first());
        } else {
            lemma_code_points_differ(a[0], b[0]);
        }
    } else if a.len() == 0 {
        assert(b.len() == 0);
        assert(a =~= b);
    }
}

proof fn lemma_le_transitive(a: Seq<char>, b: Seq<char>, c: Seq<char>)
    requires
        char_seq_le(a, b),
        char_seq_le(b, c),
    ensures
        char_seq_le(a, c),
    decreases a.len(),
{
    if a.len() > 0 && b.len() > 0 && c.len() > 0 {
        if a[0] == b[0] && b[0] == c[0] {
            lemma_le_transitive(a.drop_first(), b.drop_first(), c.drop_first());
        }
    }
}

proof fn lemma_le_total(a: Seq<char>, b: Seq<char>)
    ensures
        char_seq_le(a, b) || char_seq_le(b, a),
    decreases a.len(),
{
    if a.len() > 0 && b.len() > 0 {
        if a[0] == b[0] {
            lemma_le_total(a.drop_first(), b.drop_first());
        } else {
            lemma_code_points_differ(a[0], b[0]);
        }
    }
}

/// The order is a total order.
pub proof fn lemma_text_order_total()
    ensures
        total_ordering(text_order()),
{
    assert forall|a: Seq<char>| #[trigger] text_order()(a, a) by {
        lemma_le_reflexive(a);
    }
    assert forall|a: Seq<char>, b: Seq<char>|
        #[trigger] text_order()(a, b) && #[trigger] text_order()(b, a) implies a == b by {
        lemma_le_antisymmetric(a, b);
    }
    assert forall|a: Seq<char>, b: Seq<char>, c: Seq<char>|
        #[trigger] text_order()(a, b) && #[trigger] text_order()(b, c) implies text_order()(
        a,
        c,
    ) by {
        lemma_le_transitive(a, b, c);
    }
    assert forall|a: Seq<char>, b: Seq<char>|
        #[trigger] text_order()(a, b) || #[trigger] text_order()(b, a) by {
        lemma_le_total(a, b);
    }
}

/// Whether `a` comes no later than `b`.
pub fn str_le(a: &str, b: &str) -> (r: bool)
    ensures
        r == char_seq_le(a@, b@),
{
    let ac = str_chars(a);
    let bc = str_chars(b);
    let mut i: usize = 0;
    assert(ac@.skip(0) =~= ac@);
    assert(bc@.skip(0) =~= bc@);
    while i < ac.len() && i < bc.len() && ac[i] == bc[i]
        invariant
            0 <= i <= ac.len(),
            i <= bc.len(),
            ac@ == a@,
            bc@ == b@,
            char_seq_le(a@, b@) == char_seq_le(ac@.skip(i as int), bc@.skip(i as int)),
        decreases ac.len() - i,
    {
        assert(ac@.skip(i as int).drop_first() =~= ac@.skip(i + 1));
        assert(bc@.skip(i as int).drop_first() =~= bc@.skip(i + 1));
        i = i + 1;
    }
    if i == ac.len() {
        true
    } else if i == bc.len() {
        false
    } else {
        (ac[i] as u32) < (bc[i] as u32)
    }
}

/// The strings in order: a sorted rearrangement of `v`.
pub fn sort_strings(v: Vec<String>) -> (r: Vec<String>)
    ensures
        sorted_by(r.deep_view(), text_order()),
        r.deep_view().to_multiset() == v.deep_view().to_multiset(),
{
    proof {
        lemma_text_order_total();
    }
    let ghost all = v.deep_view();
    let mut rest = v;
    let mut out: Vec<String> = Vec::new();
    let ghost mut k: int = 0;
    assert(all.take(0) =~= out.deep_view());
    assert(all.skip(0) =~= all);
    while rest.len() > 0
        invariant
            0 <= k <= all.len(),
            rest.deep_view() == all.skip(k),
            sorted_by(out.deep_view(), text_order()),
            out.deep_view().to_multiset() == all.take(k).to_multiset(),
            total_ordering(text_order()),
        decreases rest.len(),
    {
        let ghost rest_before = rest.deep_view();
        let x = rest.remove(0);
        assert(rest_before[0] == x@);
        assert(rest.deep_view() =~= rest_before.skip(1));
        assert(all[k] == x@);
        let mut p: usize = 0;
        while p < out.len() && str_le(out[p].as_str(), x.as_str())
            invariant
                0 <= p <= out.len(),
                forall|j: int| 0 <= j < p ==> char_seq_le(#[trigger] out.deep_view()[j], x@),
            decreases out.len() - p,
        {
            p = p + 1;
        }
        let ghost before = out.deep_view();
        out.insert(p, x);
        assert(out.deep_view() =~= before.insert(p as int, x@));
        proof {
            if p < before.len() {
                assert(!char_seq_le(before[p as int], x@));
                lemma_le_total(before[p as int], x@);
            }
            assert forall|i: int, j: int|
                0 <= i < j < out.deep_view().len() implies #[trigger] text_order()(
                out.deep_view()[i],
                out.deep_view()[j],
            ) by {
                let s = out.deep_view();
                if j < p {
                    assert(text_order()(before[i], before[j]));
                } else if j == p {
                    assert(char_seq_le(before[i], x@));
                } else if i == p {
                    if j - 1 > p {
                        assert(text_order()(before[p as int], before[j - 1]));
                        lemma_le_transitive(x@, before[p as int], before[j - 1]);
                    }
                } else if i < p {
                    assert(char_seq_le(before[i], x@));
                    assert(text_order()(before[p as int], before[j - 1]) || j - 1 == p);
                    if j - 1 > p {
                        lemma_le_transitive(x@, before[p as int], before[j - 1]);
                    }
                    lemma_le_transitive(before[i], x@, before[j - 1]);
                } else {
                    assert(text_order()(before[i - 1], before[j - 1]));
                }
            }
            vstd::seq_lib::to_multiset_insert(before, p as int, x@);
            vstd::seq_lib::to_multiset_build(all.take(k), x@);
            assert(all.take(k + 1) =~= all.take(k).push(x@));
            k = k + 1;
        }
    }
    assert(all.take(k) =~= all);
    out
}

/// The texts of `s` in increasing order.
pub open spec fn ordered(s: Seq<Seq<char>>) -> Seq<Seq<char>> {
    s.sort_by(text_order())
}

/// A sorted rearrangement of `s` is its ordered form.
pub proof fn lemma_ordered(s: Seq<Seq<char>>, t: Seq<Seq<char>>)
    requires
        sorted_by(t, text_order()),
        t.to_multiset() == s.to_multiset(),
    ensures
        t == ordered(s),
{
    lemma_text_order_total();
    s.lemma_sort_by_ensures(text_order());
    vstd::seq_lib::lemma_sorted_unique(t, ordered(s), text_order());
}

/// The ordered form of `s` holds the same texts as `s`.
pub proof fn lemma_ordered_members(s: Seq<Seq<char>>, x: Seq<char>)
    ensures
        ordered(s).contains(x) == s.contains(x),
{
    lemma_text_order_total();
    s.lemma_sort_by_ensures(text_order());
    vstd::seq_lib::to_multiset_contains(s, x);
    vstd::seq_lib::to_multiset_contains(ordered(s), x);
}

} // verus!
