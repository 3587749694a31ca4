//! Byte-wise lexicographic order: executable comparisons and the facts
//! the map and the sorted replies rely on.

use vstd::prelude::*;

verus! {

use crate::resp::model::{lex_lt, pairs_insert, pairs_insert_all, pairs_sorted, FrameVal};

/// Restricting the comparison to suffixes past a common prefix changes
/// nothing.
pub proof fn lemma_lex_lt_common(a: Seq<u8>, b: Seq<u8>, j: int)
    requires
        0 <= j <= a.len(),
        j <= b.len(),
        forall|i: int| 0 <= i < j ==> a[i] == b[i],
    ensures
        lex_lt(a, b) == lex_lt(a.skip(j), b.skip(j)),
    decreases j,
{
    if j == 0 {
        assert(a.skip(0) =~= a);
        assert(b.skip(0) =~= b);
    } else {
        assert(a.len() > 0 && b.len() > 0);
        assert(a[0] == b[0]);
        lemma_lex_lt_common(a.drop_first(), b.drop_first(), j - 1);
        assert(a.drop_first().skip(j - 1) =~= a.skip(j));
        assert(b.drop_first().skip(j - 1) =~= b.skip(j));
    }
}

/// Exactly one of `a < b`, `a == b`, `b < a` holds.
pub proof fn lemma_lex_lt_trichotomy(a: Seq<u8>, b: Seq<u8>)
    ensures
        lex_lt(a, b) || lex_lt(b, a) || a == b,
        lex_lt(a, b) ==> !lex_lt(b, a) && a != b,
        lex_lt(b, a) ==> !lex_lt(a, b) && a != b,
    decreases a.len(),
{
    if a.len() == 0 || b.len() == 0 {
        if a.len() == 0 && b.len() == 0 {
            assert(a =~= b);
        }
    } else if a[0] == b[0] {
        lemma_lex_lt_trichotomy(a.drop_first(), b.drop_first());
        if a.drop_first() == b.drop_first() {
            assert(a =~= b) by {
                assert(forall|i: int|
                    1 <= i < a.len() ==> #[trigger] a[i] == a.drop_first()[i - 1]);
                assert(forall|i: int|
                    1 <= i < b.len() ==> #[trigger] b[i] == b.drop_first()[i - 1]);
            }
        }
        if a == b {
            assert(a.drop_first() == b.drop_first());
        }
    } else {
    }
}

pub proof fn lemma_lex_lt_trans(a: Seq<u8>, b: Seq<u8>, c: Seq<u8>)
    requires
        lex_lt(a, b),
        lex_lt(b, c),
    ensures
        lex_lt(a, c),
    decreases a.len(),
{
    if b.len() == 0 {
    } else if a.len() == 0 {
        assert(c.len() > 0);
    } else {
        assert(c.len() > 0);
        if a[0] < b[0] {
            if b[0] < c[0] {
            } else {
                assert(b[0] == c[0]);
            }
        } else {
            assert(a[0] == b[0]);
            if b[0] < c[0] {
            } else {
                assert(b[0] == c[0]);
                lemma_lex_lt_trans(a.drop_first(), b.drop_first(), c.drop_first());
            }
        }
    }
}

/// Every key of an inserted sequence is the new key or one of the old
/// keys.
pub proof fn lemma_pairs_insert_keys(ps: Seq<(Seq<u8>, FrameVal)>, k: Seq<u8>, v: FrameVal)
    ensures
        forall|i: int|
            0 <= i < pairs_insert(ps, k, v).len() ==> (#[trigger] pairs_insert(ps, k, v)[i]).0
                == k || exists|j: int| 0 <= j < ps.len() && pairs_insert(ps, k, v)[i].0 == (
            #[trigger] ps[j]).0,
    decreases ps.len(),
{
    if ps.len() == 0 {
    } else if lex_lt(ps[0].0, k) {
        lemma_pairs_insert_keys(ps.drop_first(), k, v);
        let r = pairs_insert(ps, k, v);
        let rt = pairs_insert(ps.drop_first(), k, v);
        assert forall|i: int|
            0 <= i < r.len() implies (#[trigger] r[i]).0 == k || exists|j: int|
            0 <= j < ps.len() && r[i].0 == (#[trigger] ps[j]).0 by {
            if i == 0 {
                assert(r[i].0 == ps[0].0);
            } else {
                assert(r[i] == rt[i - 1]);
                if rt[i - 1].0 == k {
                } else {
                    let tail = ps.drop_first();
                    let j = choose|j: int|
                        0 <= j < tail.len() && rt[i - 1].0 == (#[trigger] tail[j]).0;
                    assert(tail[j] == ps[j + 1]);
                }
            }
        }
    } else {
    }
}

/// Insertion keeps the entries strictly sorted.
pub proof fn lemma_pairs_insert_sorted(ps: Seq<(Seq<u8>, FrameVal)>, k: Seq<u8>, v: FrameVal)
    requires
        pairs_sorted(ps),
    ensures
        pairs_sorted(pairs_insert(ps, k, v)),
    decreases ps.len(),
{
    let r = pairs_insert(ps, k, v);
    if ps.len() == 0 {
        assert(pairs_sorted(r));
    } else if lex_lt(ps[0].0, k) {
        let tail = ps.drop_first();
        assert(pairs_sorted(tail)) by {
            assert(forall|i: int, j: int|
                0 <= i < j < tail.len() ==> (#[trigger] tail[i]) == ps[i + 1] && (
                #[trigger] tail[j]) == ps[j + 1]);
        }
        lemma_pairs_insert_sorted(tail, k, v);
        lemma_pairs_insert_keys(tail, k, v);
        let rt = pairs_insert(tail, k, v);
        assert forall|i: int, j: int| 0 <= i < j < r.len() implies lex_lt(
            (#[trigger] r[i]).0,
            (#[trigger] r[j]).0,
        ) by {
            if i == 0 {
                assert(r[j] == rt[j - 1]);
                if rt[j - 1].0 == k {
                    assert(lex_lt(ps[0].0, k));
                } else {
                    let j2 = choose|j2: int|
                        0 <= j2 < tail.len() && rt[j - 1].0 == (#[trigger] tail[j2]).0;
                    assert(tail[j2] == ps[j2 + 1]);
                    assert(lex_lt(ps[0].0, ps[j2 + 1].0));
                }
            } else {
                assert(r[i] == rt[i - 1]);
                assert(r[j] == rt[j - 1]);
            }
        }
    } else if ps[0].0 == k {
        assert forall|i: int, j: int| 0 <= i < j < r.len() implies lex_lt(
            (#[trigger] r[i]).0,
            (#[trigger] r[j]).0,
        ) by {
            if i == 0 {
                assert(r[j] == ps.drop_first()[j - 1]);
                assert(ps.drop_first()[j - 1] == ps[j]);
                assert(lex_lt(ps[0].0, ps[j].0));
            } else {
                assert(r[i] == ps[i]);
                assert(r[j] == ps[j]);
            }
        }
    } else {
        lemma_lex_lt_trichotomy(ps[0].0, k);
        assert(lex_lt(k, ps[0].0));
        assert forall|i: int, j: int| 0 <= i < j < r.len() implies lex_lt(
            (#[trigger] r[i]).0,
            (#[trigger] r[j]).0,
        ) by {
            if i == 0 {
                assert(r[j] == ps[j - 1]);
                if j == 1 {
                } else {
                    assert(lex_lt(ps[0].0, ps[j - 1].0));
                    lemma_lex_lt_trans(k, ps[0].0, ps[j - 1].0);
                }
            } else {
                assert(r[i] == ps[i - 1]);
                assert(r[j] == ps[j - 1]);
            }
        }
    }
}

/// The result of inserting any entry sequence into the empty map, left
/// to right, is strictly sorted by key: decoded maps and the flattened
/// HGETALL reply list their fields in ascending byte order.
pub proof fn lemma_pairs_insert_all_sorted(ps: Seq<(Seq<u8>, FrameVal)>)
    ensures
        pairs_sorted(pairs_insert_all(ps)),
    decreases ps.len(),
{
    if ps.len() == 0 {
        assert(pairs_sorted(pairs_insert_all(ps)));
    } else {
        lemma_pairs_insert_all_sorted(ps.drop_last());
        lemma_pairs_insert_sorted(pairs_insert_all(ps.drop_last()), ps.last().0, ps.last().1);
    }
}

/// Inserting a key above every existing key appends at the end.
pub proof fn lemma_pairs_insert_at_end(ps: Seq<(Seq<u8>, FrameVal)>, k: Seq<u8>, v: FrameVal)
    requires
        forall|i: int| 0 <= i < ps.len() ==> lex_lt((#[trigger] ps[i]).0, k),
    ensures
        pairs_insert(ps, k, v) == ps + seq![(k, v)],
    decreases ps.len(),
{
    if ps.len() == 0 {
        assert(pairs_insert(ps, k, v) =~= ps + seq![(k, v)]);
    } else {
        assert(lex_lt(ps[0].0, k));
        let tail = ps.drop_first();
        assert(forall|i: int| 0 <= i < tail.len() ==> lex_lt((#[trigger] tail[i]).0, k)) by {
            assert(forall|i: int| 0 <= i < tail.len() ==> (#[trigger] tail[i]) == ps[i + 1]);
        }
        lemma_pairs_insert_at_end(tail, k, v);
        assert(seq![ps[0]] + (tail + seq![(k, v)]) =~= ps + seq![(k, v)]);
    }
}

/// A sorted entry sequence is already the result of inserting its own
/// entries left to right.
pub proof fn lemma_insert_all_sorted_id(ps: Seq<(Seq<u8>, FrameVal)>)
    requires
        pairs_sorted(ps),
    ensures
        pairs_insert_all(ps) == ps,
    decreases ps.len(),
{
    if ps.len() == 0 {
        assert(pairs_insert_all(ps) =~= ps);
    } else {
        let prefix = ps.drop_last();
        assert(pairs_sorted(prefix)) by {
            assert(forall|i: int|
                0 <= i < prefix.len() ==> (#[trigger] prefix[i]) == ps[i]);
        }
        lemma_insert_all_sorted_id(prefix);
        assert(forall|i: int| 0 <= i < prefix.len() ==> lex_lt((#[trigger] prefix[i]).0, ps.last().0)) by {
            assert(forall|i: int| 0 <= i < prefix.len() ==> (#[trigger] prefix[i]) == ps[i]);
        }
        lemma_pairs_insert_at_end(prefix, ps.last().0, ps.last().1);
        assert(prefix + seq![(ps.last().0, ps.last().1)] =~= ps);
    }
}

/// Byte-wise "strictly less" on slices.
pub fn bytes_lt(a: &[u8], b: &[u8]) -> (r: bool)
    ensures
        r == lex_lt(a@, b@),
{
    let mut j: usize = 0;
    while j < a.len() && j < b.len()
        invariant
            0 <= j <= a@.len(),
            j <= b@.len(),
            forall|i: int| 0 <= i < j ==> a@[i] == b@[i],
        decreases a@.len() - j,
    {
        let x = a[j];
        let y = b[j];
        proof {
            lemma_lex_lt_common(a@, b@, j as int);
            assert(a@.skip(j as int)[0] == a@[j as int]);
            assert(b@.skip(j as int)[0] == b@[j as int]);
        }
        if x < y {
            return true;
        }
        if x > y {
            return false;
        }
        j = j + 1;
    }
    proof {
        lemma_lex_lt_common(a@, b@, j as int);
        if a@.len() < b@.len() {
            assert(a@.skip(j as int).len() == 0);
            assert(b@.skip(j as int).len() > 0);
        } else {
            assert(b@.skip(j as int).len() == 0);
        }
    }
    a.len() < b.len()
}

/// Byte-wise equality on slices.
pub fn bytes_eq(a: &[u8], b: &[u8]) -> (r: bool)
    ensures
        r == (a@ == b@),
{
    if a.len() != b.len() {
        return false;
    }
    let mut j: usize = 0;
    while j < a.len()
        invariant
            0 <= j <= a@.len(),
            a@.len() == b@.len(),
            forall|i: int| 0 <= i < j ==> a@[i] == b@[i],
        decreases a@.len() - j,
    {
        if a[j] != b[j] {
            return false;
        }
        j = j + 1;
    }
    proof {
        assert(a@ =~= b@);
    }
    true
}

} // verus!
