//! Stable orderings: a sequence of keyed items is put in the order of its
//! keys, and items with equal keys keep their relative order.
use vstd::prelude::*;

use crate::text::{
    lemma_seq_lt_irreflexive, lemma_seq_lt_transitive, lemma_seq_lt_trichotomy, seq_lt, str_eq,
    str_lt,
};

verus! {

/// The items of `s` whose key is `k`, in order.
pub open spec fn with_key<U>(s: Seq<(int, U)>, k: int) -> Seq<(int, U)>
    decreases s.len(),
{
    if s.len() == 0 {
        Seq::empty()
    } else if s.last().0 == k {
        with_key(s.drop_last(), k).push(s.last())
    } else {
        with_key(s.drop_last(), k)
    }
}

/// The keys of `s` never go down.
pub open spec fn keys_ascending<U>(s: Seq<(int, U)>) -> bool {
    forall|i: int, j: int| 0 <= i <= j < s.len() ==> (#[trigger] s[i]).0 <= (#[trigger] s[j]).0
}

/// `r` is `s` put in the order of its keys, items with equal keys in the
/// order they have in `s`.
pub open spec fn stably_ordered<U>(r: Seq<(int, U)>, s: Seq<(int, U)>) -> bool {
    &&& keys_ascending(r)
    &&& forall|k: int| #[trigger] with_key(r, k) == with_key(s, k)
}

pub proof fn lemma_with_key_append<U>(a: Seq<(int, U)>, b: Seq<(int, U)>, k: int)
    ensures
        with_key(a + b, k) == with_key(a, k) + with_key(b, k),
    decreases b.len(),
{
    if b.len() == 0 {
        assert(a + b =~= a);
        assert(with_key(a, k) + with_key(b, k) =~= with_key(a, k));
    } else {
        assert((a + b).drop_last() =~= a + b.drop_last());
        lemma_with_key_append(a, b.drop_last(), k);
        if b.last().0 == k {
            assert(with_key(a, k) + with_key(b.drop_last(), k).push(b.last()) =~= (with_key(a, k)
                + with_key(b.drop_last(), k)).push(b.last()));
        }
    }
}

pub proof fn lemma_with_key_push<U>(s: Seq<(int, U)>, e: (int, U), k: int)
    ensures
        with_key(s.push(e), k) == (if e.0 == k {
            with_key(s, k).push(e)
        } else {
            with_key(s, k)
        }),
{
    assert(s.push(e).drop_last() =~= s);
}

proof fn lemma_with_key_none<U>(b: Seq<(int, U)>, k: int)
    requires
        forall|i: int| 0 <= i < b.len() ==> (#[trigger] b[i]).0 != k,
    ensures
        with_key(b, k) == Seq::<(int, U)>::empty(),
    decreases b.len(),
{
    if b.len() > 0 {
        lemma_with_key_none(b.drop_last(), k);
    }
}

/// Inserting `x` after every item whose key is at most its own keeps the
/// keys ascending, and adds `x` last among the items with its key.
pub proof fn lemma_insert_after_keys<U>(before: Seq<(int, U)>, x: (int, U), p: int)
    requires
        0 <= p <= before.len(),
        keys_ascending(before),
        forall|k: int| 0 <= k < p ==> (#[trigger] before[k]).0 <= x.0,
        p < before.len() ==> before[p].0 > x.0,
    ensures
        keys_ascending(before.take(p).push(x) + before.skip(p)),
        forall|k: int|
            #[trigger] with_key(before.take(p).push(x) + before.skip(p), k) == with_key(
                before.push(x),
                k,
            ),
{
    let a = before.take(p);
    let b = before.skip(p);
    let after = a.push(x) + b;
    assert(before =~= a + b);
    assert forall|k: int| 0 <= k < b.len() implies (#[trigger] b[k]).0 > x.0 by {
        assert(b[k] == before[p + k]);
        assert(before[p].0 <= before[p + k].0);
    }
    assert forall|i: int, j: int| 0 <= i <= j < after.len() implies (#[trigger] after[i]).0 <= (
    #[trigger] after[j]).0 by {
        if i < p && j > p {
            assert(after[j] == before[j - 1]);
        } else if i > p {
            assert(after[i] == before[i - 1]);
            assert(after[j] == before[j - 1]);
        } else if i == p && j > p {
            assert(after[j] == b[j - 1 - p]);
        }
    }
    assert forall|k: int| #[trigger] with_key(after, k) == with_key(before.push(x), k) by {
        lemma_with_key_append(a.push(x), b, k);
        lemma_with_key_append(a, b, k);
        assert(a.push(x).drop_last() =~= a);
        assert(before.push(x).drop_last() =~= before);
        if k == x.0 {
            lemma_with_key_none(b, k);
            assert(with_key(a, k) + b.take(0) =~= with_key(a, k));
            assert(with_key(a.push(x), k) + b.take(0) =~= with_key(a.push(x), k));
        }
    }
}

/// Three strings, ordered by the first, then the second, then the third.
pub type Triple = (Seq<char>, Seq<char>, Seq<char>);

pub open spec fn triple_lt(a: Triple, b: Triple) -> bool {
    ||| seq_lt(a.0, b.0)
    ||| a.0 == b.0 && seq_lt(a.1, b.1)
    ||| a.0 == b.0 && a.1 == b.1 && seq_lt(a.2, b.2)
}

pub open spec fn triple_le(a: Triple, b: Triple) -> bool {
    triple_lt(a, b) || a == b
}

pub proof fn lemma_triple_order(a: Triple, b: Triple, c: Triple)
    ensures
        !triple_lt(a, a),
        triple_lt(a, b) || triple_lt(b, a) || a == b,
        !(triple_lt(a, b) && triple_lt(b, a)),
        triple_lt(a, b) && triple_lt(b, c) ==> triple_lt(a, c),
{
    lemma_seq_lt_irreflexive(a.0);
    lemma_seq_lt_irreflexive(a.1);
    lemma_seq_lt_irreflexive(a.2);
    lemma_seq_lt_trichotomy(a.0, b.0);
    lemma_seq_lt_trichotomy(a.1, b.1);
    lemma_seq_lt_trichotomy(a.2, b.2);
    if seq_lt(a.0, b.0) && seq_lt(b.0, c.0) {
        lemma_seq_lt_transitive(a.0, b.0, c.0);
    }
    if seq_lt(a.1, b.1) && seq_lt(b.1, c.1) {
        lemma_seq_lt_transitive(a.1, b.1, c.1);
    }
    if seq_lt(a.2, b.2) && seq_lt(b.2, c.2) {
        lemma_seq_lt_transitive(a.2, b.2, c.2);
    }
}

/// `a <= b` on triples of strings.
pub fn triple_le_exec(a0: &str, a1: &str, a2: &str, b0: &str, b1: &str, b2: &str) -> (r: bool)
    ensures
        r == triple_le((a0@, a1@, a2@), (b0@, b1@, b2@)),
{
    proof {
        lemma_seq_lt_irreflexive(a0@);
        lemma_seq_lt_irreflexive(a1@);
        lemma_seq_lt_irreflexive(a2@);
        lemma_seq_lt_trichotomy(a0@, b0@);
        lemma_seq_lt_trichotomy(a1@, b1@);
        lemma_seq_lt_trichotomy(a2@, b2@);
    }
    if str_lt(a0, b0) {
        true
    } else if !str_eq(a0, b0) {
        false
    } else if str_lt(a1, b1) {
        true
    } else if !str_eq(a1, b1) {
        false
    } else {
        str_lt(a2, b2) || str_eq(a2, b2)
    }
}

/// The items of `s` whose key is `t`, in order.
pub open spec fn with_triple<U>(s: Seq<(Triple, U)>, t: Triple) -> Seq<(Triple, U)>
    decreases s.len(),
{
    if s.len() == 0 {
        Seq::empty()
    } else if s.last().0 == t {
        with_triple(s.drop_last(), t).push(s.last())
    } else {
        with_triple(s.drop_last(), t)
    }
}

/// The keys of `s` never go down.
pub open spec fn triples_ascending<U>(s: Seq<(Triple, U)>) -> bool {
    forall|i: int, j: int|
        0 <= i <= j < s.len() ==> triple_le((#[trigger] s[i]).0, (#[trigger] s[j]).0)
}

/// `r` is `s` put in the order of its keys, items with equal keys in the
/// order they have in `s`.
pub open spec fn stably_sorted<U>(r: Seq<(Triple, U)>, s: Seq<(Triple, U)>) -> bool {
    &&& triples_ascending(r)
    &&& forall|t: Triple| #[trigger] with_triple(r, t) == with_triple(s, t)
}

pub proof fn lemma_with_triple_append<U>(a: Seq<(Triple, U)>, b: Seq<(Triple, U)>, t: Triple)
    ensures
        with_triple(a + b, t) == with_triple(a, t) + with_triple(b, t),
    decreases b.len(),
{
    if b.len() == 0 {
        assert(a + b =~= a);
        assert(with_triple(a, t) + with_triple(b, t) =~= with_triple(a, t));
    } else {
        assert((a + b).drop_last() =~= a + b.drop_last());
        lemma_with_triple_append(a, b.drop_last(), t);
        if b.last().0 == t {
            assert(with_triple(a, t) + with_triple(b.drop_last(), t).push(b.last()) =~= (
            with_triple(a, t) + with_triple(b.drop_last(), t)).push(b.last()));
        }
    }
}

pub proof fn lemma_with_triple_push<U>(s: Seq<(Triple, U)>, e: (Triple, U), t: Triple)
    ensures
        with_triple(s.push(e), t) == (if e.0 == t {
            with_triple(s, t).push(e)
        } else {
            with_triple(s, t)
        }),
{
    assert(s.push(e).drop_last() =~= s);
}

proof fn lemma_with_triple_none<U>(b: Seq<(Triple, U)>, t: Triple)
    requires
        forall|i: int| 0 <= i < b.len() ==> (#[trigger] b[i]).0 != t,
    ensures
        with_triple(b, t) == Seq::<(Triple, U)>::empty(),
    decreases b.len(),
{
    if b.len() > 0 {
        lemma_with_triple_none(b.drop_last(), t);
    }
}

/// Inserting `x` after every item whose key is at most its own keeps the
/// keys ascending, and adds `x` last among the items with its key.
pub proof fn lemma_insert_after_triples<U>(before: Seq<(Triple, U)>, x: (Triple, U), p: int)
    requires
        0 <= p <= before.len(),
        triples_ascending(before),
        forall|k: int| 0 <= k < p ==> triple_le((#[trigger] before[k]).0, x.0),
        p < before.len() ==> !triple_le(before[p].0, x.0),
    ensures
        triples_ascending(before.take(p).push(x) + before.skip(p)),
        forall|t: Triple|
            #[trigger] with_triple(before.take(p).push(x) + before.skip(p), t) == with_triple(
                before.push(x),
                t,
            ),
{
    let a = before.take(p);
    let b = before.skip(p);
    let after = a.push(x) + b;
    assert(before =~= a + b);
    assert forall|k: int| 0 <= k < b.len() implies triple_lt(x.0, (#[trigger] b[k]).0) by {
        assert(b[k] == before[p + k]);
        assert(triple_le(before[p].0, before[p + k].0));
        lemma_triple_order(x.0, before[p].0, before[p + k].0);
        lemma_triple_order(before[p].0, x.0, before[p + k].0);
    }
    assert forall|i: int, j: int| 0 <= i <= j < after.len() implies triple_le(
        (#[trigger] after[i]).0,
        (#[trigger] after[j]).0,
    ) by {
        if i < p && j > p {
            assert(after[j] == before[j - 1]);
            assert(after[j] == b[j - 1 - p]);
            lemma_triple_order(after[i].0, x.0, after[j].0);
        } else if i > p {
            assert(after[i] == before[i - 1]);
            assert(after[j] == before[j - 1]);
        } else if i == p && j > p {
            assert(after[j] == b[j - 1 - p]);
        } else if i < p && j < p {
            assert(after[i] == before[i]);
            assert(after[j] == before[j]);
        }
    }
    assert forall|t: Triple| #[trigger] with_triple(after, t) == with_triple(before.push(x), t) by {
        lemma_with_triple_append(a.push(x), b, t);
        lemma_with_triple_append(a, b, t);
        assert(a.push(x).drop_last() =~= a);
        assert(before.push(x).drop_last() =~= before);
        if t == x.0 {
            assert forall|i: int| 0 <= i < b.len() implies (#[trigger] b[i]).0 != t by {
                lemma_triple_order(x.0, x.0, x.0);
            }
            lemma_with_triple_none(b, t);
            assert(with_triple(a, t) + b.take(0) =~= with_triple(a, t));
            assert(with_triple(a.push(x), t) + b.take(0) =~= with_triple(a.push(x), t));
        }
    }
}

} // verus!
