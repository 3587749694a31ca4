//! The `%` map frame: entries from SimpleString keys to frames, kept
//! strictly sorted by key so that encoding is deterministic.

use vstd::prelude::*;

verus! {

use crate::resp::frame::{entries_view, RespFrame};
use crate::resp::model::{lex_lt, pairs_insert, FrameVal, SpecParse};
use crate::resp::RespError;
use crate::resp::order::{bytes_eq, bytes_lt};

/// A RESP map, held as key-sorted entries.
#[derive(Debug, Clone, PartialEq, Eq, Hash)]
pub struct RespMap(pub Vec<(Vec<u8>, RespFrame)>);

impl View for RespMap {
    type V = Seq<(Seq<u8>, FrameVal)>;

    open spec fn view(&self) -> Seq<(Seq<u8>, FrameVal)> {
        entries_view(self.0@)
    }
}

/// Where the first `j` keys are below `k` and the key at `j` (if any) is
/// not, `pairs_insert` splices or replaces exactly at `j`.
proof fn lemma_pairs_insert_at(ps: Seq<(Seq<u8>, FrameVal)>, k: Seq<u8>, v: FrameVal, j: int)
    requires
        0 <= j <= ps.len(),
        forall|i: int| 0 <= i < j ==> lex_lt((#[trigger] ps[i]).0, k),
        j < ps.len() ==> !lex_lt(ps[j].0, k),
    ensures
        pairs_insert(ps, k, v) == if j < ps.len() && ps[j].0 == k {
            ps.subrange(0, j) + seq![(k, v)] + ps.subrange(j + 1, ps.len() as int)
        } else {
            ps.subrange(0, j) + seq![(k, v)] + ps.subrange(j, ps.len() as int)
        },
    decreases j,
{
    if ps.len() == 0 {
        assert(pairs_insert(ps, k, v) =~= ps.subrange(0, j) + seq![(k, v)] + ps.subrange(
            j,
            ps.len() as int,
        ));
    } else if j == 0 {
        if ps[0].0 == k {
            assert(pairs_insert(ps, k, v) =~= ps.subrange(0, 0) + seq![(k, v)] + ps.subrange(
                1,
                ps.len() as int,
            ));
        } else {
            assert(!lex_lt(ps[0].0, k));
            assert(pairs_insert(ps, k, v) =~= ps.subrange(0, 0) + seq![(k, v)] + ps.subrange(
                0,
                ps.len() as int,
            ));
        }
    } else {
        assert(lex_lt(ps[0].0, k));
        let tail = ps.drop_first();
        assert(forall|i: int| 0 <= i < j - 1 ==> lex_lt((#[trigger] tail[i]).0, k));
        assert(j - 1 < tail.len() ==> !lex_lt(tail[j - 1].0, k));
        lemma_pairs_insert_at(tail, k, v, j - 1);
        if j < ps.len() && ps[j].0 == k {
            assert(tail[j - 1].0 == k);
            assert(seq![ps[0]] + (tail.subrange(0, j - 1) + seq![(k, v)] + tail.subrange(
                j,
                tail.len() as int,
            )) =~= ps.subrange(0, j) + seq![(k, v)] + ps.subrange(j + 1, ps.len() as int));
        } else {
            assert(seq![ps[0]] + (tail.subrange(0, j - 1) + seq![(k, v)] + tail.subrange(
                j - 1,
                tail.len() as int,
            )) =~= ps.subrange(0, j) + seq![(k, v)] + ps.subrange(j, ps.len() as int));
        }
    }
}

impl RespMap {
    pub fn new() -> (r: Self)
        ensures
            r@ == Seq::<(Seq<u8>, FrameVal)>::empty(),
    {
        let r = RespMap(Vec::new());
        proof {
            assert(r@ =~= Seq::<(Seq<u8>, FrameVal)>::empty());
        }
        r
    }

    /// Insert an entry, replacing the value of an existing key, keeping
    /// the entries sorted.
    pub fn insert(&mut self, key: Vec<u8>, value: RespFrame)
        ensures
            final(self)@ == pairs_insert(old(self)@, key@, value@),
    {
        let ghost ps = self@;
        let ghost kv = key@;
        let ghost vv = value@;
        let ghost entries = self.0@;
        proof {
            crate::resp::frame::lemma_entries_view(entries);
        }
        let mut i: usize = 0;
        while i < self.0.len() && bytes_lt(self.0[i].0.as_slice(), key.as_slice())
            invariant
                0 <= i <= self.0@.len(),
                self.0@ == entries,
                ps == entries_view(entries),
                ps.len() == entries.len(),
                key@ == kv,
                forall|j: int| 0 <= j < i ==> lex_lt((#[trigger] ps[j]).0, kv),
            decreases self.0@.len() - i,
        {
            proof {
                crate::resp::frame::lemma_entries_view(entries);
                assert(ps[i as int].0 == entries[i as int].0@);
            }
            i = i + 1;
        }
        proof {
            crate::resp::frame::lemma_entries_view(entries);
            assert(i < ps.len() ==> !lex_lt(ps[i as int].0, kv));
            lemma_pairs_insert_at(ps, kv, value@, i as int);
        }
        if i < self.0.len() && bytes_eq(self.0[i].0.as_slice(), key.as_slice()) {
            proof {
                crate::resp::frame::lemma_entries_view(entries);
                assert(ps[i as int].0 == kv);
            }
            self.0.remove(i);
            self.0.insert(i, (key, value));
            proof {
                crate::resp::frame::lemma_entries_view(self.0@);
                let t = ps.subrange(0, i as int) + seq![(kv, vv)] + ps.subrange(
                    i + 1,
                    ps.len() as int,
                );
                assert(self.0@.len() == entries.len());
                assert forall|j: int| 0 <= j < self@.len() implies self@[j] == t[j] by {
                    assert(self.0@ == entries.remove(i as int).insert(i as int, self.0@[i as int]));
                    if j < i {
                        assert(self.0@[j] == entries[j]);
                    } else if j == i {
                        assert(self.0@[j].0@ == kv && self.0@[j].1@ == vv);
                    } else {
                        assert(self.0@[j] == entries[j]);
                    }
                }
                assert(self@ =~= t);
            }
        } else {
            proof {
                crate::resp::frame::lemma_entries_view(entries);
                if i < ps.len() {
                    assert(ps[i as int].0 != kv);
                }
            }
            self.0.insert(i, (key, value));
            proof {
                crate::resp::frame::lemma_entries_view(self.0@);
                let t = ps.subrange(0, i as int) + seq![(kv, vv)] + ps.subrange(
                    i as int,
                    ps.len() as int,
                );
                assert(self.0@.len() == entries.len() + 1);
                assert forall|j: int| 0 <= j < self@.len() implies self@[j] == t[j] by {
                    assert(self.0@ == entries.insert(i as int, self.0@[i as int]));
                    if j < i {
                        assert(self.0@[j] == entries[j]);
                    } else if j == i {
                        assert(self.0@[j].0@ == kv && self.0@[j].1@ == vv);
                    } else {
                        assert(self.0@[j] == entries[j - 1]);
                    }
                }
                assert(self@ =~= t);
            }
        }
    }

    /// Decode one `%` frame from the front of the buffer, consuming
    /// exactly its bytes; on any error the buffer is unchanged.
    pub fn decode(buf: &mut Vec<u8>) -> (r: Result<RespMap, RespError>)
        ensures
            ({
                let d = crate::resp::model::spec_decode_map(old(buf)@, 0);
                match r {
                    Ok(f) => d matches SpecParse::Parsed(v, n) && v == FrameVal::MapV(f@) && final(buf)@ == old(buf)@.skip(n),
                    Err(e) => final(buf)@ == old(buf)@ && match d {
                        SpecParse::Incomplete => e is NotCompleteFrame,
                        SpecParse::Fail(k) => crate::resp::matches_err(e, k),
                        SpecParse::Parsed(v, n) => false,
                    },
                }
            }),
    {
        match crate::resp::decode::map_at(buf.as_slice(), 0) {
            Ok((f, n)) => {
                crate::resp::decode::consume(buf, n);
                Ok(f)
            },
            Err(e) => Err(e),
        }
    }

    /// Byte count of the `%` frame at the start of the buffer,
    /// preflighting every key and value.
    pub fn expect_length(buf: &[u8]) -> (r: Result<usize, RespError>)
        ensures
            ({
                match crate::resp::model::spec_length_header(buf@, 0, 37) {
                    crate::resp::model::SpecHead::Head(len, n) => if len < 0 {
                        r matches Err(e) && e matches RespError::InvalidFrameLength(l) && l as int
                            == len
                    } else {
                        match crate::resp::model::spec_expect_pairs(buf@, n, len) {
                            crate::resp::model::SpecLen::Len(t) => r matches Ok(m) && m as int == n
                                + t,
                            crate::resp::model::SpecLen::Incomplete => r matches Err(e)
                                && e is NotCompleteFrame,
                            crate::resp::model::SpecLen::Fail(k) => r matches Err(e)
                                && crate::resp::matches_err(e, k),
                        }
                    },
                    crate::resp::model::SpecHead::Incomplete => r matches Err(e)
                        && e is NotCompleteFrame,
                    crate::resp::model::SpecHead::WrongType => r matches Err(e)
                        && e is InvalidFrameType,
                    crate::resp::model::SpecHead::Fail(k) => r matches Err(e)
                        && crate::resp::matches_err(e, k),
                }
            }),
    {
        crate::resp::decode::aggregate_expect_length(buf, 37)
    }
}

} // verus!
