//! The wallet's transaction history: one record per transaction id,
//! upserted idempotently by chain replay and chain sync, queried by id or
//! by confirmation-height range.

use vstd::prelude::*;

use crate::engine::WalletEngine;
use crate::types::{Txid, TxRecord};

verus! {

/// Whether some record of the sequence carries the given id.
pub open spec fn txs_has(s: Seq<TxRecord>, txid: Txid) -> bool {
    exists|i: int| 0 <= i < s.len() && (#[trigger] s[i]).txid == txid
}

/// The history after an upsert: the record under its id is replaced, or
/// appended when new.
pub open spec fn txs_after(s: Seq<TxRecord>, rec: TxRecord) -> Seq<TxRecord> {
    if txs_has(s, rec.txid) {
        s.map(|i: int, t: TxRecord| if t.txid == rec.txid { rec } else { t })
    } else {
        s.push(rec)
    }
}

/// Recording the same fact twice leaves the same history as once.
pub proof fn lemma_record_idempotent(s: Seq<TxRecord>, rec: TxRecord)
    ensures
        txs_after(txs_after(s, rec), rec) == txs_after(s, rec),
{
    let s1 = txs_after(s, rec);
    if txs_has(s, rec.txid) {
        let w = choose|i: int| 0 <= i < s.len() && (#[trigger] s[i]).txid == rec.txid;
        assert(s1[w].txid == rec.txid);
        assert(txs_has(s1, rec.txid));
        assert(txs_after(s1, rec) =~= s1);
    } else {
        assert(s1[s.len() as int] == rec);
        assert(txs_has(s1, rec.txid));
        assert(txs_after(s1, rec) =~= s1);
    }
}

/// The records among the requested ids, in store order.
pub open spec fn txs_with_ids(s: Seq<TxRecord>, ids: Seq<Txid>) -> Seq<TxRecord>
    decreases s.len(),
{
    if s.len() == 0 {
        Seq::empty()
    } else {
        let prefix = txs_with_ids(s.drop_last(), ids);
        if ids.contains(s.last().txid) {
            prefix.push(s.last())
        } else {
            prefix
        }
    }
}

/// The first `limit` records confirmed between `start` and `end`, in store
/// order.
pub open spec fn confirmed_page(s: Seq<TxRecord>, start: u32, end: u32, limit: int) -> Seq<
    TxRecord,
>
    decreases s.len(),
{
    if s.len() == 0 {
        Seq::empty()
    } else {
        let prefix = confirmed_page(s.drop_last(), start, end, limit);
        if (match s.last().height {
            Some(h) => start <= h <= end,
            None => false,
        }) && prefix.len() < limit {
            prefix.push(s.last())
        } else {
            prefix
        }
    }
}

/// Whether the id sequence holds `x`.
pub fn contains_txid(v: &Vec<Txid>, x: Txid) -> (r: bool)
    ensures
        r == v@.contains(x),
{
    let n = v.len();
    let mut i: usize = 0;
    while i < n
        invariant
            n == v@.len(),
            i <= n,
            forall|j: int| 0 <= j < i ==> v@[j] != x,
        decreases n - i,
    {
        if v[i] == x {
            return true;
        }
        i = i + 1;
    }
    false
}

impl WalletEngine {
    /// Upsert of one transaction record, keyed by id.
    pub fn record_transaction(&mut self, rec: TxRecord)
        requires
            old(self).wf(),
        ensures
            final(self).wf(),
            final(self).txs@ == txs_after(old(self).txs@, rec),
            final(self).store == old(self).store,
            final(self).drafts@ == old(self).drafts@,
            final(self).labels@ == old(self).labels@,
            final(self).rescan == old(self).rescan,
            final(self).tip_height == old(self).tip_height,
    {
        let n = self.txs.len();
        let mut i: usize = 0;
        while i < n
            invariant
                *self == *old(self),
                self.wf(),
                n == self.txs@.len(),
                i <= n,
                forall|j: int| 0 <= j < i ==> (#[trigger] self.txs@[j]).txid != rec.txid,
            decreases n - i,
        {
            if self.txs[i].txid == rec.txid {
                self.txs[i] = rec;
                proof {
                    assert(self.txs@ =~= txs_after(old(self).txs@, rec));
                }
                return ;
            }
            i = i + 1;
        }
        self.txs.push(rec);
        proof {
            assert(self.txs@ =~= txs_after(old(self).txs@, rec));
        }
    }

    /// The records stored under the requested ids, in store order.
    pub fn list_transactions(&self, txids: &Vec<Txid>) -> (r: Vec<TxRecord>)
        ensures
            r@ == txs_with_ids(self.txs@, txids@),
    {
        let n = self.txs.len();
        let mut out: Vec<TxRecord> = Vec::new();
        let mut i: usize = 0;
        while i < n
            invariant
                n == self.txs@.len(),
                i <= n,
                out@ == txs_with_ids(self.txs@.take(i as int), txids@),
            decreases n - i,
        {
            proof {
                assert(self.txs@.take(i + 1).drop_last() =~= self.txs@.take(i as int));
                assert(self.txs@.take(i + 1).last() == self.txs@[i as int]);
            }
            if contains_txid(txids, self.txs[i].txid) {
                out.push(self.txs[i]);
            }
            i = i + 1;
        }
        proof {
            assert(self.txs@.take(n as int) =~= self.txs@);
        }
        out
    }

    /// The first `limit` records confirmed at a height between `start` and
    /// `end`, in store order.
    pub fn list_confirmed(&self, start: u32, end: u32, limit: u64) -> (r: Vec<TxRecord>)
        ensures
            r@ == confirmed_page(self.txs@, start, end, limit as int),
    {
        let n = self.txs.len();
        let mut out: Vec<TxRecord> = Vec::new();
        let mut i: usize = 0;
        while i < n
            invariant
                n == self.txs@.len(),
                i <= n,
                out@ == confirmed_page(self.txs@.take(i as int), start, end, limit as int),
                out@.len() <= i,
            decreases n - i,
        {
            proof {
                assert(self.txs@.take(i + 1).drop_last() =~= self.txs@.take(i as int));
                assert(self.txs@.take(i + 1).last() == self.txs@[i as int]);
            }
            let in_range = match self.txs[i].height {
                Some(h) => start <= h && h <= end,
                None => false,
            };
            if in_range && (out.len() as u64) < limit {
                out.push(self.txs[i]);
            }
            i = i + 1;
        }
        proof {
            assert(self.txs@.take(n as int) =~= self.txs@);
        }
        out
    }
}

} // verus!
