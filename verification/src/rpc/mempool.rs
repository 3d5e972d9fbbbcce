//! The pool of submitted transactions not yet in a vertex.
use vstd::prelude::*;
use crate::primitives::transaction::Transaction;
use crate::consensus::proposer::{tx_id, holds_id};

verus! {

/// Pending transactions, first in first out, each hash once.
pub struct Mempool {
    pending: Vec<Transaction>,
    max_size: usize,
}

impl Mempool {
    pub closed spec fn contents(&self) -> Seq<Transaction> {
        self.pending@
    }

    pub closed spec fn capacity(&self) -> usize {
        self.max_size
    }

    /// No hash twice, and within capacity.
    pub closed spec fn wf(&self) -> bool {
        &&& forall|i: int, j: int| 0 <= i < j < self.pending@.len() ==> tx_id(#[trigger] self.pending@[i]) != tx_id(#[trigger] self.pending@[j])
        &&& self.pending@.len() <= self.max_size
    }

    pub fn new(max_size: usize) -> (p: Self)
        ensures p.wf(), p.contents().len() == 0, p.capacity() == max_size,
    {
        Mempool { pending: Vec::new(), max_size }
    }

    /// Adds a transaction unless its hash is pooled already or the pool is
    /// full.
    pub fn add(&mut self, tx: Transaction) -> (r: bool)
        requires old(self).wf(),
        ensures
            final(self).wf(),
            final(self).capacity() == old(self).capacity(),
            r == (!holds_id(old(self).contents(), tx_id(tx)) && old(self).contents().len() < old(self).capacity()),
            r ==> final(self).contents() == old(self).contents().push(tx),
            !r ==> final(self).contents() == old(self).contents(),
    {
        let hash = tx.hash();
        let mut i: usize = 0;
        while i < self.pending.len()
            invariant
                self.wf(),
                self.pending@ == old(self).pending@,
                self.max_size == old(self).max_size,
                i <= self.pending@.len(),
                hash.0@ == tx_id(tx),
                forall|k: int| 0 <= k < i ==> tx_id(#[trigger] self.pending@[k]) != tx_id(tx),
            decreases self.pending@.len() - i,
        {
            if self.pending[i].hash() == hash {
                return false;
            }
            i = i + 1;
        }
        if self.pending.len() >= self.max_size {
            return false;
        }
        let ghost old_p = self.pending@;
        self.pending.push(tx);
        proof {
            assert forall|a: int, b: int| 0 <= a < b < self.pending@.len() implies tx_id(#[trigger] self.pending@[a]) != tx_id(#[trigger] self.pending@[b]) by {
                if b == old_p.len() {
                    assert(self.pending@[a] == old_p[a]);
                } else {
                    assert(self.pending@[a] == old_p[a] && self.pending@[b] == old_p[b]);
                }
            }
        }
        true
    }

    /// The pooled transactions with the given hashes, in the order asked;
    /// hashes not pooled are skipped.
    pub fn get_by_hashes(&self, hashes: &[crate::primitives::types::Hash]) -> (r: Vec<&Transaction>)
        ensures
            r@.len() == found_count(self.contents(), hashes@),
            forall|i: int| 0 <= i < r@.len() ==> self.contents().contains(*(#[trigger] r@[i])),
            forall|i: int| 0 <= i < r@.len() ==> found_hashes(self.contents(), hashes@)[i] == tx_id(*(#[trigger] r@[i])),
    {
        let mut out: Vec<&Transaction> = Vec::new();
        let mut k: usize = 0;
        assert(hashes@.take(0) =~= Seq::<crate::primitives::types::Hash>::empty());
        while k < hashes.len()
            invariant
                k <= hashes@.len(),
                out@.len() == found_count(self.contents(), hashes@.take(k as int)),
                forall|i: int| 0 <= i < out@.len() ==> self.contents().contains(*(#[trigger] out@[i])),
                forall|i: int| 0 <= i < out@.len() ==> found_hashes(self.contents(), hashes@.take(k as int))[i] == tx_id(*(#[trigger] out@[i])),
            decreases hashes@.len() - k,
        {
            assert(hashes@.take(k + 1).drop_last() =~= hashes@.take(k as int));
            assert(hashes@.take(k + 1).last() == hashes@[k as int]);
            let h = hashes[k];
            let mut i: usize = 0;
            while i < self.pending.len()
                invariant
                    i <= self.pending@.len(),
                    forall|q: int| 0 <= q < i ==> tx_id(#[trigger] self.pending@[q]) != h.0@,
                ensures
                    i <= self.pending@.len(),
                    i < self.pending@.len() ==> tx_id(self.pending@[i as int]) == h.0@,
                    forall|q: int| 0 <= q < i ==> tx_id(#[trigger] self.pending@[q]) != h.0@,
                decreases self.pending@.len() - i,
            {
                if self.pending[i].hash() == h {
                    break;
                }
                i = i + 1;
            }
            if i < self.pending.len() {
                assert(holds_id(self.contents(), h.0@)) by {
                    assert(tx_id(self.pending@[i as int]) == h.0@);
                }
                let ghost o = out@;
                out.push(&self.pending[i]);
                proof {
                    assert(self.contents().contains(self.pending@[i as int]));
                    assert forall|q: int| 0 <= q < out@.len() implies found_hashes(self.contents(), hashes@.take(k + 1))[q] == tx_id(*(#[trigger] out@[q])) by {
                        if q < o.len() { assert(out@[q] == o[q]); }
                    }
                }
            } else {
                assert(!holds_id(self.contents(), h.0@));
            }
            k = k + 1;
        }
        assert(hashes@.take(k as int) =~= hashes@);
        out
    }

    /// Takes up to `limit` of the oldest transactions out of the pool.
    pub fn drain_batch(&mut self, limit: usize) -> (r: Vec<Transaction>)
        requires old(self).wf(),
        ensures
            final(self).wf(),
            final(self).capacity() == old(self).capacity(),
            ({
                let n = if limit < old(self).contents().len() { limit as int } else { old(self).contents().len() as int };
                &&& r@ == old(self).contents().subrange(0, n)
                &&& final(self).contents() == old(self).contents().subrange(n, old(self).contents().len() as int)
            }),
    {
        let n = if limit < self.pending.len() { limit } else { self.pending.len() };
        let mut batch = self.pending.split_off(n);
        std::mem::swap(&mut batch, &mut self.pending);
        proof {
            assert forall|a: int, b: int| 0 <= a < b < self.pending@.len() implies tx_id(#[trigger] self.pending@[a]) != tx_id(#[trigger] self.pending@[b]) by {
                assert(self.pending@[a] == old(self).pending@[a + n] && self.pending@[b] == old(self).pending@[b + n]);
            }
        }
        batch
    }

    pub fn len(&self) -> (r: usize)
        ensures r == self.contents().len(),
    {
        self.pending.len()
    }

    pub fn is_empty(&self) -> (r: bool)
        ensures r == (self.contents().len() == 0),
    {
        self.pending.len() == 0
    }
}

/// The hashes asked for that the pool holds, in the order asked.
pub open spec fn found_hashes(txs: Seq<Transaction>, hashes: Seq<crate::primitives::types::Hash>) -> Seq<Seq<u8>>
    decreases hashes.len(),
{
    if hashes.len() == 0 {
        Seq::empty()
    } else if holds_id(txs, hashes.last().0@) {
        found_hashes(txs, hashes.drop_last()).push(hashes.last().0@)
    } else {
        found_hashes(txs, hashes.drop_last())
    }
}

/// How many of the hashes asked for the pool holds.
pub open spec fn found_count(txs: Seq<Transaction>, hashes: Seq<crate::primitives::types::Hash>) -> nat {
    found_hashes(txs, hashes).len()
}

} // verus!
