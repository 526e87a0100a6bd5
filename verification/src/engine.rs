//! The control façade over the wallet state: spend-draft construction and
//! lifecycle, recovery sweeps, the rescan state machine, labels and queries.
//! Every operation either fully succeeds with a well-defined mutation or
//! fully fails leaving the state unchanged, except where a contract says a
//! draft is kept for retry.

use vstd::prelude::*;

use crate::coin_store::{
    lemma_coin_at_of_contains, seq_after_confirm, seq_after_deposit, seq_after_revert,
    seq_after_spend, seq_after_spent, seq_has, sum_coins, CoinStore,
};
use crate::select::{
    change_of, fee_for, select_coins, spec_dust_threshold, Selection,
};
use crate::types::{
    draft_like, ChainEvent, Coin, CoinStatus, Dest, Draft, NodeResponse, OutPoint, Txid,
    WalletError, MAX_FEERATE, MAX_MONEY,
};

verus! {

/// The subsequence of `s` whose coins satisfy `p`, in store order.
pub open spec fn coins_where(s: Seq<Coin>, p: spec_fn(Coin) -> bool) -> Seq<Coin>
    decreases s.len(),
{
    if s.len() == 0 {
        Seq::empty()
    } else {
        let prefix = coins_where(s.drop_last(), p);
        if p(s.last()) {
            prefix.push(s.last())
        } else {
            prefix
        }
    }
}

/// What a filter pass guarantees: every kept coin satisfies the predicate
/// and comes from the source, every matching source coin is kept, the kept
/// value never exceeds the source value, and distinct outpoints stay
/// distinct.
pub proof fn lemma_coins_where(s: Seq<Coin>, p: spec_fn(Coin) -> bool)
    requires
        forall|i: int, j: int|
            0 <= i < j < s.len() ==> (#[trigger] s[i]).outpoint != (#[trigger] s[j]).outpoint,
    ensures
        forall|a: int|
            0 <= a < coins_where(s, p).len() ==> p(#[trigger] coins_where(s, p)[a]) && s.contains(
                coins_where(s, p)[a],
            ),
        forall|i: int| 0 <= i < s.len() && p(#[trigger] s[i]) ==> coins_where(s, p).contains(s[i]),
        0 <= sum_coins(coins_where(s, p)) <= sum_coins(s),
        forall|a: int, b: int|
            0 <= a < b < coins_where(s, p).len() ==> (#[trigger] coins_where(s, p)[a]).outpoint
                != (#[trigger] coins_where(s, p)[b]).outpoint,
        coins_where(s, p).len() <= s.len(),
    decreases s.len(),
{
    if s.len() > 0 {
        lemma_coins_where(s.drop_last(), p);
        let pre = coins_where(s.drop_last(), p);
        let f = coins_where(s, p);
        assert forall|a: int| 0 <= a < f.len() implies p(#[trigger] f[a]) && s.contains(f[a]) by {
            if a < pre.len() {
                assert(pre[a] == f[a]);
                let w = choose|w: int| 0 <= w < s.drop_last().len() && s.drop_last()[w] == pre[a];
                assert(s[w] == f[a]);
            } else {
                assert(f[a] == s.last());
                assert(s[s.len() - 1] == s.last());
            }
        }
        assert forall|i: int| 0 <= i < s.len() && p(#[trigger] s[i]) implies f.contains(s[i]) by {
            if i < s.len() - 1 {
                assert(s.drop_last()[i] == s[i]);
                assert(pre.contains(s[i]));
                let w = choose|w: int| 0 <= w < pre.len() && pre[w] == s[i];
                assert(f[w] == s[i]);
            } else {
                if p(s.last()) {
                    assert(f[f.len() - 1] == s[i]);
                }
            }
        }
        if p(s.last()) {
            crate::coin_store::lemma_sum_push(pre, s.last());
            assert forall|a: int, b: int|
                0 <= a < b < f.len() implies (#[trigger] f[a]).outpoint != (
            #[trigger] f[b]).outpoint by {
                if b == f.len() - 1 {
                    let w = choose|w: int|
                        0 <= w < s.drop_last().len() && s.drop_last()[w] == pre[a];
                    assert(s[w] == f[a]);
                    assert(s[s.len() - 1] == f[b]);
                }
            }
        }
        assert(sum_coins(s) == sum_coins(s.drop_last()) + s.last().amount);
    }
}

/// Total amount requested across a destination list, in satoshis.
pub open spec fn dest_total(s: Seq<Dest>) -> int
    decreases s.len(),
{
    if s.len() == 0 {
        0
    } else {
        dest_total(s.drop_last()) + s.last().amount
    }
}

/// A destination list the engine accepts: at least one payment, each amount
/// positive and within the money supply, and so their total.
pub open spec fn dests_valid(s: Seq<Dest>) -> bool {
    &&& s.len() >= 1
    &&& forall|i: int| 0 <= i < s.len() ==> 1 <= (#[trigger] s[i]).amount <= MAX_MONEY
    &&& dest_total(s) <= MAX_MONEY
}

/// No outpoint listed twice.
pub open spec fn ops_distinct(s: Seq<OutPoint>) -> bool {
    forall|i: int, j: int| 0 <= i < j < s.len() ==> s[i] != s[j]
}

/// The request-level checks of a spend creation.
pub open spec fn params_ok(dests: Seq<Dest>, feerate: u64, ops: Seq<OutPoint>) -> bool {
    &&& dests_valid(dests)
    &&& 1 <= feerate <= MAX_FEERATE
    &&& ops_distinct(ops)
}

/// The engine: all wallet state behind one façade. Callers are linearized,
/// so each operation sees and leaves a consistent state.
pub struct WalletEngine {
    pub store: CoinStore,
    pub drafts: Vec<Draft>,
    pub labels: Vec<(String, String)>,
    /// Transaction history, one record per transaction id.
    pub txs: Vec<crate::types::TxRecord>,
    /// `(start_timestamp, progress_height)` of the rescan in flight, if any.
    pub rescan: Option<(u32, u32)>,
    pub tip_height: u32,
    /// Blocks after confirmation before a coin's recovery path matures.
    pub recovery_timelock: u16,
    /// Whether the wallet runs on the main network; addresses and label
    /// items are validated against it.
    pub mainnet: bool,
    /// Address change outputs pay to.
    pub change_address: String,
    pub next_derivation_index: u32,
}

/// Whether some stored draft consumes the outpoint: the soft reservation
/// that keeps concurrent draft creation from double-spending a coin.
pub open spec fn spec_reserved(e: WalletEngine, op: OutPoint) -> bool {
    exists|i: int| 0 <= i < e.drafts@.len() && (#[trigger] e.drafts@[i]).inputs@.contains(op)
}

/// Whether the coin may fund a new spend: not spent or spending, and not
/// reserved by a stored draft.
pub open spec fn selectable_coin(e: WalletEngine, c: Coin) -> bool {
    &&& (c.status == CoinStatus::Unconfirmed || c.status == CoinStatus::Confirmed)
    &&& !spec_reserved(e, c.outpoint)
}

/// Whether the outpoint names a coin that may fund a new spend.
pub open spec fn selectable_op(e: WalletEngine, op: OutPoint) -> bool {
    e.store.has_coin(op) && selectable_coin(e, e.store.coin_at(op))
}

/// Every spendable coin, in store order.
pub open spec fn spendable_seq(e: WalletEngine) -> Seq<Coin> {
    coins_where(e.store.coins@, |c: Coin| selectable_coin(e, c))
}

/// The spendable coins among the requested outpoints, in store order.
pub open spec fn requested_seq(e: WalletEngine, ops: Seq<OutPoint>) -> Seq<Coin> {
    coins_where(e.store.coins@, |c: Coin| ops.contains(c.outpoint) && selectable_coin(e, c))
}

/// The coins a spend creation selects from: everything spendable, or the
/// requested subset when outpoints were given.
pub open spec fn candidate_set(e: WalletEngine, ops: Seq<OutPoint>) -> Seq<Coin> {
    if ops.len() == 0 {
        spendable_seq(e)
    } else {
        requested_seq(e, ops)
    }
}

/// Whether each requested outpoint names a spendable coin.
pub open spec fn all_requested_ok(e: WalletEngine, ops: Seq<OutPoint>) -> bool {
    forall|a: int| 0 <= a < ops.len() ==> selectable_op(e, #[trigger] ops[a])
}

/// Whether a draft with this id is stored.
pub open spec fn has_draft(e: WalletEngine, txid: Txid) -> bool {
    exists|i: int| 0 <= i < e.drafts@.len() && (#[trigger] e.drafts@[i]).txid == txid
}

/// Index of the stored draft with this id; meaningful when `has_draft`.
pub open spec fn draft_index(e: WalletEngine, txid: Txid) -> int {
    choose|i: int| 0 <= i < e.drafts@.len() && (#[trigger] e.drafts@[i]).txid == txid
}

/// Total value the store records for a list of outpoints.
pub open spec fn sum_outpoints(st: CoinStore, ops: Seq<OutPoint>) -> int
    decreases ops.len(),
{
    if ops.len() == 0 {
        0
    } else {
        sum_outpoints(st, ops.drop_last()) + st.coin_at(ops.last()).amount
    }
}

/// The fields no draft operation touches.
pub open spec fn same_aux(a: WalletEngine, b: WalletEngine) -> bool {
    &&& a.labels@ == b.labels@
    &&& a.txs@ == b.txs@
    &&& a.rescan == b.rescan
    &&& a.tip_height == b.tip_height
    &&& a.recovery_timelock == b.recovery_timelock
    &&& a.mainnet == b.mainnet
    &&& a.change_address == b.change_address
    &&& a.next_derivation_index == b.next_derivation_index
}

/// Internal consistency of one stored draft against the coin store.
pub open spec fn draft_wf(st: CoinStore, d: Draft) -> bool {
    &&& d.inputs@.len() >= 1
    &&& ops_distinct(d.inputs@)
    &&& forall|a: int| 0 <= a < d.inputs@.len() ==> st.has_coin(#[trigger] d.inputs@[a])
    &&& match d.change_index {
        Some(i) => i + 1 == d.outputs@.len(),
        None => true,
    }
}

/// Two drafts never consume the same outpoint.
pub open spec fn drafts_disjoint(d1: Draft, d2: Draft) -> bool {
    forall|a: int, b: int|
        0 <= a < d1.inputs@.len() && 0 <= b < d2.inputs@.len() ==> #[trigger] d1.inputs@[a]
            != #[trigger] d2.inputs@[b]
}

impl WalletEngine {
    /// Well-formedness, preserved by every operation: a consistent coin
    /// store, internally consistent drafts with distinct ids and pairwise
    /// disjoint input sets, and distinct label keys.
    pub open spec fn wf(self) -> bool {
        &&& self.store.wf()
        &&& forall|i: int| 0 <= i < self.drafts@.len() ==> draft_wf(self.store, #[trigger] self.drafts@[i])
        &&& forall|i: int, j: int|
            0 <= i < j < self.drafts@.len() ==> (#[trigger] self.drafts@[i]).txid != (
            #[trigger] self.drafts@[j]).txid
        &&& forall|i: int, j: int|
            0 <= i < j < self.drafts@.len() ==> drafts_disjoint(
                #[trigger] self.drafts@[i],
                #[trigger] self.drafts@[j],
            )
        &&& forall|i: int, j: int|
            0 <= i < j < self.labels@.len() ==> (#[trigger] self.labels@[i]).0@ != (
            #[trigger] self.labels@[j]).0@
        &&& forall|i: int, j: int|
            0 <= i < j < self.txs@.len() ==> (#[trigger] self.txs@[i]).txid != (
            #[trigger] self.txs@[j]).txid
    }

    /// A fresh engine for a wallet with the given recovery timelock whose
    /// change outputs pay `change_address`.
    pub fn new(recovery_timelock: u16, change_address: String, mainnet: bool) -> (r: WalletEngine)
        ensures
            r.wf(),
            r.store.coins@.len() == 0,
            r.drafts@.len() == 0,
            r.labels@.len() == 0,
            r.txs@.len() == 0,
            r.rescan is None,
            r.tip_height == 0,
            r.recovery_timelock == recovery_timelock,
            r.change_address == change_address,
            r.mainnet == mainnet,
            r.next_derivation_index == 0,
    {
        WalletEngine {
            store: CoinStore::new(),
            drafts: Vec::new(),
            labels: Vec::new(),
            txs: Vec::new(),
            rescan: None,
            tip_height: 0,
            recovery_timelock,
            mainnet,
            change_address,
            next_derivation_index: 0,
        }
    }

    /// Whether some stored draft reserves the outpoint.
    pub fn is_reserved(&self, op: OutPoint) -> (r: bool)
        ensures
            r == spec_reserved(*self, op),
    {
        let n = self.drafts.len();
        let mut i: usize = 0;
        while i < n
            invariant
                n == self.drafts@.len(),
                i <= n,
                forall|j: int| 0 <= j < i ==> !(#[trigger] self.drafts@[j]).inputs@.contains(op),
            decreases n - i,
        {
            if crate::coin_store::contains_outpoint(&self.drafts[i].inputs, op) {
                return true;
            }
            i = i + 1;
        }
        false
    }

    /// Whether a draft with this id is stored.
    pub fn find_draft(&self, txid: Txid) -> (r: Option<usize>)
        requires
            self.wf(),
        ensures
            match r {
                Some(i) => i < self.drafts@.len() && self.drafts@[i as int].txid == txid
                    && draft_index(*self, txid) == i as int,
                None => !has_draft(*self, txid),
            },
    {
        let n = self.drafts.len();
        let mut i: usize = 0;
        while i < n
            invariant
                self.wf(),
                n == self.drafts@.len(),
                i <= n,
                forall|j: int| 0 <= j < i ==> (#[trigger] self.drafts@[j]).txid != txid,
            decreases n - i,
        {
            if self.drafts[i].txid == txid {
                proof {
                    assert(self.drafts@[i as int].txid == txid);
                    let w = draft_index(*self, txid);
                    assert(0 <= w < self.drafts@.len() && self.drafts@[w].txid == txid);
                    if w < i as int {
                        assert(self.drafts@[w].txid != txid);
                    } else if w > i as int {
                        assert(self.drafts@[i as int].txid != self.drafts@[w].txid);
                    }
                }
                return Some(i);
            }
            i = i + 1;
        }
        None
    }

    /// Whether the coin's status lets it fund a new spend.
    pub(crate) fn status_selectable(c: &Coin) -> (r: bool)
        ensures
            r == (c.status == CoinStatus::Unconfirmed || c.status == CoinStatus::Confirmed),
    {
        matches!(c.status, CoinStatus::Unconfirmed) || matches!(c.status, CoinStatus::Confirmed)
    }

    /// Every spendable coin, in store order.
    pub fn spendable_coins(&self) -> (r: Vec<Coin>)
        requires
            self.wf(),
        ensures
            r@ == spendable_seq(*self),
    {
        let ghost p = |c: Coin| selectable_coin(*self, c);
        let n = self.store.coins.len();
        let mut out: Vec<Coin> = Vec::new();
        let mut i: usize = 0;
        while i < n
            invariant
                self.wf(),
                n == self.store.coins@.len(),
                i <= n,
                p == (|c: Coin| selectable_coin(*self, c)),
                out@ == coins_where(self.store.coins@.take(i as int), p),
            decreases n - i,
        {
            let c = self.store.coins[i];
            proof {
                assert(self.store.coins@.take(i + 1).drop_last() =~= self.store.coins@.take(
                    i as int,
                ));
                assert(self.store.coins@.take(i + 1).last() == self.store.coins@[i as int]);
            }
            if Self::status_selectable(&c) && !self.is_reserved(c.outpoint) {
                out.push(c);
            }
            i = i + 1;
        }
        proof {
            assert(self.store.coins@.take(n as int) =~= self.store.coins@);
        }
        out
    }

    /// The spendable coins among the requested outpoints, in store order.
    pub(crate) fn requested_coins(&self, ops: &Vec<OutPoint>) -> (r: Vec<Coin>)
        requires
            self.wf(),
        ensures
            r@ == requested_seq(*self, ops@),
    {
        let ghost p = |c: Coin| ops@.contains(c.outpoint) && selectable_coin(*self, c);
        let n = self.store.coins.len();
        let mut out: Vec<Coin> = Vec::new();
        let mut i: usize = 0;
        while i < n
            invariant
                self.wf(),
                n == self.store.coins@.len(),
                i <= n,
                p == (|c: Coin| ops@.contains(c.outpoint) && selectable_coin(*self, c)),
                out@ == coins_where(self.store.coins@.take(i as int), p),
            decreases n - i,
        {
            let c = self.store.coins[i];
            proof {
                assert(self.store.coins@.take(i + 1).drop_last() =~= self.store.coins@.take(
                    i as int,
                ));
                assert(self.store.coins@.take(i + 1).last() == self.store.coins@[i as int]);
            }
            if crate::coin_store::contains_outpoint(ops, c.outpoint) && Self::status_selectable(&c)
                && !self.is_reserved(c.outpoint) {
                out.push(c);
            }
            i = i + 1;
        }
        proof {
            assert(self.store.coins@.take(n as int) =~= self.store.coins@);
        }
        out
    }
}

/// Taking one more element keeps a sequence duplicate-free exactly when the
/// element is new.
pub proof fn lemma_distinct_step(s: Seq<OutPoint>, i: int)
    requires
        0 <= i < s.len(),
    ensures
        ops_distinct(s.take(i + 1)) == (ops_distinct(s.take(i)) && !s.take(i).contains(s[i])),
{
    let t0 = s.take(i);
    let t1 = s.take(i + 1);
    if ops_distinct(t1) {
        assert(ops_distinct(t0)) by {
            assert(forall|a: int, b: int| 0 <= a < b < i ==> t0[a] == t1[a] && t0[b] == t1[b]);
        }
        if t0.contains(s[i]) {
            let w = choose|w: int| 0 <= w < t0.len() && t0[w] == s[i];
            assert(t1[w] == t1[i]);
            assert(false);
        }
    }
    if ops_distinct(t0) && !t0.contains(s[i]) {
        assert forall|a: int, b: int| 0 <= a < b < t1.len() implies t1[a] != t1[b] by {
            if b < i {
                assert(t0[a] != t0[b]);
            } else {
                assert(t0[a] == t1[a]);
                if t1[a] == s[i] {
                    assert(t0.contains(s[i]));
                }
            }
        }
    }
}

impl WalletEngine {
    /// Validates a destination list and computes its total. Returns the
    /// total when the list is one the engine accepts.
    pub(crate) fn check_dests(destinations: &Vec<Dest>) -> (r: Option<u64>)
        ensures
            match r {
                Some(t) => dests_valid(destinations@) && t == dest_total(destinations@),
                None => !dests_valid(destinations@),
            },
    {
        let nd = destinations.len();
        if nd == 0 {
            return None;
        }
        let mut total: u128 = 0;
        let mut i: usize = 0;
        while i < nd
            invariant
                nd == destinations@.len(),
                i <= nd,
                total == dest_total(destinations@.take(i as int)),
                total <= (i as int) * (MAX_MONEY as int),
                forall|j: int| 0 <= j < i ==> 1 <= (#[trigger] destinations@[j]).amount <= MAX_MONEY,
            decreases nd - i,
        {
            let a = destinations[i].amount;
            if a < 1 || a > MAX_MONEY {
                return None;
            }
            proof {
                assert(destinations@.take(i + 1).drop_last() =~= destinations@.take(i as int));
                assert(destinations@.take(i + 1).last() == destinations@[i as int]);
            }
            total = total + (a as u128);
            i = i + 1;
        }
        proof {
            assert(destinations@.take(nd as int) =~= destinations@);
        }
        if total > (MAX_MONEY as u128) {
            return None;
        }
        Some(total as u64)
    }

    /// Builds, reserves and stores a new spend draft under the given id,
    /// choosing coins at `feerate` to cover `destinations`; an empty
    /// `candidate_ops` lets the selector draw on every spendable coin,
    /// a non-empty one restricts it to those outpoints. The id and the
    /// serialized payload come from the caller's transaction builder.
    #[verifier::rlimit(100)]
    pub fn create_spend_with_id(
        &mut self,
        destinations: &Vec<Dest>,
        candidate_ops: &Vec<OutPoint>,
        feerate: u64,
        txid: Txid,
        payload: Vec<u8>,
    ) -> (r: Result<Draft, WalletError>)
        requires
            old(self).wf(),
        ensures
            final(self).wf(),
            same_aux(*final(self), *old(self)),
            final(self).store == old(self).store,
            match r {
                Ok(d) => {
                    &&& final(self).drafts@.len() == old(self).drafts@.len() + 1
                    &&& final(self).drafts@.drop_last() == old(self).drafts@
                    &&& draft_like(d, final(self).drafts@.last())
                    &&& d.txid == txid
                    &&& !has_draft(*old(self), txid)
                    &&& d.feerate == feerate
                    &&& d.payload@ == payload@
                    &&& params_ok(destinations@, feerate, candidate_ops@)
                    &&& all_requested_ok(*old(self), candidate_ops@)
                    &&& d.inputs@.len() >= 1
                    &&& ops_distinct(d.inputs@)
                    &&& forall|a: int|
                        0 <= a < d.inputs@.len() ==> selectable_op(
                            *old(self),
                            #[trigger] d.inputs@[a],
                        )
                    &&& (candidate_ops@.len() > 0 ==> forall|a: int|
                        0 <= a < d.inputs@.len() ==> candidate_ops@.contains(
                            #[trigger] d.inputs@[a],
                        ))
                    &&& sum_outpoints(old(self).store, d.inputs@) == dest_total(d.outputs@) + d.fee
                    &&& forall|i: int|
                        0 <= i < destinations@.len() ==> #[trigger] d.outputs@[i]
                            == destinations@[i]
                    &&& (d.change_index is Some ==> d.outputs@.len() == destinations@.len() + 1
                        && d.change_index == Some(destinations@.len() as usize)
                        && d.outputs@.last().address == old(self).change_address
                        && d.outputs@.last().amount >= spec_dust_threshold(feerate) && d.fee
                        == fee_for(feerate, d.inputs@.len() as int, d.outputs@.len() as int))
                    &&& (d.change_index is None ==> d.outputs@.len() == destinations@.len()
                        && d.fee >= fee_for(feerate, d.inputs@.len() as int, d.outputs@.len() as int)
                        && d.fee < fee_for(feerate, d.inputs@.len() as int, d.outputs@.len() as int + 1)
                            + spec_dust_threshold(feerate))
                },
                Err(e) => {
                    &&& *final(self) == *old(self)
                    &&& (e is InvalidParams <==> !params_ok(destinations@, feerate, candidate_ops@))
                    &&& (e is InvalidOutpoint ==> params_ok(destinations@, feerate, candidate_ops@)
                        && !all_requested_ok(*old(self), candidate_ops@))
                    &&& (params_ok(destinations@, feerate, candidate_ops@) && !all_requested_ok(
                        *old(self),
                        candidate_ops@,
                    ) ==> e is InvalidOutpoint)
                    &&& (e is InsufficientFunds ==> params_ok(destinations@, feerate, candidate_ops@)
                        && all_requested_ok(*old(self), candidate_ops@) && sum_coins(
                        candidate_set(*old(self), candidate_ops@),
                    ) < dest_total(destinations@) + fee_for(
                        feerate,
                        candidate_set(*old(self), candidate_ops@).len() as int,
                        destinations@.len() as int,
                    ))
                    &&& (e is DuplicateDraftId ==> params_ok(destinations@, feerate, candidate_ops@)
                        && all_requested_ok(*old(self), candidate_ops@) && has_draft(
                        *old(self),
                        txid,
                    ))
                    &&& (e matches WalletError::DuplicateDraftId(t) ==> t == txid)
                    &&& (e is InvalidParams || e is InvalidOutpoint || e is InsufficientFunds
                        || e is DuplicateDraftId)
                },
            },
    {
        // request-level validation
        let dt_opt = Self::check_dests(destinations);
        let m = candidate_ops.len();
        let mut dup = false;
        let mut seen: Vec<OutPoint> = Vec::new();
        let mut i: usize = 0;
        while i < m
            invariant
                m == candidate_ops@.len(),
                i <= m,
                seen@ == candidate_ops@.take(i as int),
                dup == !ops_distinct(candidate_ops@.take(i as int)),
            decreases m - i,
        {
            proof {
                lemma_distinct_step(candidate_ops@, i as int);
                assert(candidate_ops@.take(i + 1).drop_last() =~= candidate_ops@.take(i as int));
                assert(candidate_ops@.take(i + 1).last() == candidate_ops@[i as int]);
            }
            if crate::coin_store::contains_outpoint(&seen, candidate_ops[i]) {
                dup = true;
            }
            seen.push(candidate_ops[i]);
            i = i + 1;
        }
        proof {
            assert(candidate_ops@.take(m as int) =~= candidate_ops@);
        }
        let feerate_ok = 1 <= feerate && feerate <= MAX_FEERATE;
        let dt = match dt_opt {
            Some(t) => t,
            None => 0,
        };
        if dt_opt.is_none() || !feerate_ok || dup {
            return Err(WalletError::InvalidParams("destinations, feerate or outpoints".to_owned()));
        }

        // availability of every requested outpoint
        let mut i2: usize = 0;
        while i2 < m
            invariant
                old(self) == self,
                self.wf(),
                m == candidate_ops@.len(),
                i2 <= m,
                params_ok(destinations@, feerate, candidate_ops@),
                forall|a: int|
                    0 <= a < i2 ==> selectable_op(*self, #[trigger] candidate_ops@[a]),
            decreases m - i2,
        {
            let op = candidate_ops[i2];
            let found = self.store.find_index(op);
            match found {
                None => {
                    proof {
                        assert(!selectable_op(*self, candidate_ops@[i2 as int]));
                        assert(!all_requested_ok(*self, candidate_ops@));
                    }
                    return Err(WalletError::InvalidOutpoint(op));
                },
                Some(ci) => {
                    let c = self.store.coins[ci];
                    proof {
                        assert(self.store.coins@.contains(c));
                        lemma_coin_at_of_contains(self.store, c);
                    }
                    if !Self::status_selectable(&c) || self.is_reserved(op) {
                        proof {
                            assert(!selectable_op(*self, candidate_ops@[i2 as int]));
                            assert(!all_requested_ok(*self, candidate_ops@));
                        }
                        return Err(WalletError::InvalidOutpoint(op));
                    }
                    proof {
                        assert(selectable_op(*self, op));
                    }
                },
            }
            i2 = i2 + 1;
        }

        // coin selection over the candidate set
        let cands = if m == 0 {
            self.spendable_coins()
        } else {
            self.requested_coins(candidate_ops)
        };
        proof {
            assert(cands@ == candidate_set(*self, candidate_ops@));
            if m == 0 {
                lemma_coins_where(self.store.coins@, |c: Coin| selectable_coin(*self, c));
            } else {
                lemma_coins_where(
                    self.store.coins@,
                    |c: Coin| candidate_ops@.contains(c.outpoint) && selectable_coin(*self, c),
                );
            }
        }
        let sel = match select_coins(&cands, dt, destinations.len(), feerate) {
            Ok(s) => s,
            Err(_) => {
                return Err(WalletError::InsufficientFunds);
            },
        };

        // establish the selection facts the storing step relies on
        proof {
            assert forall|a: int|
                0 <= a < sel.coins@.len() implies selectable_coin(*self, #[trigger] sel.coins@[a])
                && self.store.coins@.contains(sel.coins@[a]) && (candidate_ops@.len() == 0
                || candidate_ops@.contains(sel.coins@[a].outpoint)) by {
                let w = choose|w: int| 0 <= w < cands@.len() && cands@[w] == sel.coins@[a];
                if m == 0 {
                    let p = |c: Coin| selectable_coin(*self, c);
                    assert(p(cands@[w]));
                } else {
                    let p = |c: Coin| candidate_ops@.contains(c.outpoint) && selectable_coin(
                        *self,
                        c,
                    );
                    assert(p(cands@[w]));
                }
            }
        }
        self.store_spend(destinations, feerate, sel, txid, payload)
    }

    /// Stores a draft assembled from a finished selection under the given
    /// id, soft-reserving its coins.
    #[verifier::rlimit(100)]
    pub(crate) fn store_spend(
        &mut self,
        destinations: &Vec<Dest>,
        feerate: u64,
        sel: Selection,
        txid: Txid,
        payload: Vec<u8>,
    ) -> (r: Result<Draft, WalletError>)
        requires
            old(self).wf(),
            destinations@.len() >= 1,
            1 <= feerate <= MAX_FEERATE,
            sel.coins@.len() >= 1,
            forall|a: int, b: int|
                0 <= a < b < sel.coins@.len() ==> (#[trigger] sel.coins@[a]).outpoint != (
                #[trigger] sel.coins@[b]).outpoint,
            forall|a: int|
                0 <= a < sel.coins@.len() ==> selectable_coin(*old(self), #[trigger] sel.coins@[a])
                    && old(self).store.coins@.contains(sel.coins@[a]),
            sum_coins(sel.coins@) == dest_total(destinations@) + sel.fee + change_of(sel),
            sel.change_amount is Some ==> change_of(sel) >= spec_dust_threshold(feerate)
                && sel.fee == fee_for(
                feerate,
                sel.coins@.len() as int,
                destinations@.len() as int + 1,
            ),
            sel.change_amount is None ==> sel.fee >= fee_for(
                feerate,
                sel.coins@.len() as int,
                destinations@.len() as int,
            ) && sel.fee < fee_for(feerate, sel.coins@.len() as int, destinations@.len() as int + 1)
                + spec_dust_threshold(feerate),
        ensures
            final(self).wf(),
            same_aux(*final(self), *old(self)),
            final(self).store == old(self).store,
            match r {
                Ok(d) => {
                    &&& final(self).drafts@.len() == old(self).drafts@.len() + 1
                    &&& final(self).drafts@.drop_last() == old(self).drafts@
                    &&& draft_like(d, final(self).drafts@.last())
                    &&& d.txid == txid
                    &&& !has_draft(*old(self), txid)
                    &&& d.feerate == feerate
                    &&& d.fee == sel.fee
                    &&& d.payload@ == payload@
                    &&& d.inputs@.len() == sel.coins@.len()
                    &&& forall|a: int|
                        0 <= a < d.inputs@.len() ==> #[trigger] d.inputs@[a]
                            == sel.coins@[a].outpoint
                    &&& ops_distinct(d.inputs@)
                    &&& forall|a: int|
                        0 <= a < d.inputs@.len() ==> selectable_op(
                            *old(self),
                            #[trigger] d.inputs@[a],
                        )
                    &&& sum_outpoints(old(self).store, d.inputs@) == dest_total(d.outputs@) + d.fee
                    &&& forall|i: int|
                        0 <= i < destinations@.len() ==> #[trigger] d.outputs@[i]
                            == destinations@[i]
                    &&& (d.change_index is Some <==> sel.change_amount is Some)
                    &&& (d.change_index is Some ==> d.outputs@.len() == destinations@.len() + 1
                        && d.change_index == Some(destinations@.len() as usize)
                        && d.outputs@.last().address == old(self).change_address
                        && d.outputs@.last().amount == change_of(sel)
                        && d.outputs@.last().amount >= spec_dust_threshold(feerate) && d.fee
                        == fee_for(feerate, d.inputs@.len() as int, d.outputs@.len() as int))
                    &&& (d.change_index is None ==> d.outputs@.len() == destinations@.len()
                        && d.fee >= fee_for(feerate, d.inputs@.len() as int, d.outputs@.len() as int)
                        && d.fee < fee_for(
                            feerate,
                            d.inputs@.len() as int,
                            d.outputs@.len() as int + 1,
                        ) + spec_dust_threshold(feerate))
                },
                Err(e) => {
                    &&& *final(self) == *old(self)
                    &&& e is DuplicateDraftId
                    &&& (e matches WalletError::DuplicateDraftId(t) ==> t == txid)
                    &&& has_draft(*old(self), txid)
                },
            },
    {
        // id freshness
        match self.find_draft(txid) {
            Some(_) => {
                return Err(WalletError::DuplicateDraftId(txid));
            },
            None => {},
        }

        // assemble the draft
        let sc = sel.coins;
        let k = sc.len();
        let mut inputs: Vec<OutPoint> = Vec::new();
        let mut a: usize = 0;
        while a < k
            invariant
                self.wf(),
                k == sc@.len(),
                a <= k,
                inputs@.len() == a,
                forall|b: int| 0 <= b < a ==> #[trigger] inputs@[b] == sc@[b].outpoint,
                sum_outpoints(self.store, inputs@) == sum_coins(sc@.take(a as int)),
                forall|b: int|
                    0 <= b < sc@.len() ==> selectable_coin(*self, #[trigger] sc@[b])
                        && self.store.coins@.contains(sc@[b]),
            decreases k - a,
        {
            let c = sc[a];
            proof {
                lemma_coin_at_of_contains(self.store, c);
                assert(inputs@.push(c.outpoint).drop_last() =~= inputs@);
                assert(sc@.take(a + 1).drop_last() =~= sc@.take(a as int));
                assert(sc@.take(a + 1).last() == sc@[a as int]);
            }
            inputs.push(c.outpoint);
            a = a + 1;
        }
        proof {
            assert(sc@.take(k as int) =~= sc@);
            assert forall|b: int|
                0 <= b < inputs@.len() implies selectable_op(*self, #[trigger] inputs@[b]) by {
                lemma_coin_at_of_contains(self.store, sc@[b]);
            }
            assert forall|b1: int, b2: int|
                0 <= b1 < b2 < inputs@.len() implies inputs@[b1] != inputs@[b2] by {}
        }

        let mut outputs = destinations.clone();
        proof {
            assert(outputs@ =~= destinations@);
        }
        let change_index: Option<usize>;
        match sel.change_amount {
            Some(ch) => {
                proof {
                    assert(outputs@.push(
                        Dest { address: self.change_address, amount: ch },
                    ).drop_last() =~= outputs@);
                }
                outputs.push(Dest { address: self.change_address.clone(), amount: ch });
                change_index = Some(destinations.len());
            },
            None => {
                change_index = None;
            },
        }

        let d = Draft {
            txid,
            inputs,
            outputs,
            change_index,
            feerate,
            fee: sel.fee,
            payload,
        };
        let ret = d.clone();
        proof {
            // the new draft is consistent and disjoint from every stored one
            assert forall|j: int, b1: int, b2: int|
                0 <= j < self.drafts@.len() && 0 <= b1 < self.drafts@[j].inputs@.len() && 0 <= b2
                    < d.inputs@.len() implies #[trigger] self.drafts@[j].inputs@[b1]
                != #[trigger] d.inputs@[b2] by {
                if self.drafts@[j].inputs@[b1] == d.inputs@[b2] {
                    assert(self.drafts@[j].inputs@.contains(d.inputs@[b2]));
                    assert(spec_reserved(*self, d.inputs@[b2]));
                }
            }
        }
        self.drafts.push(d);
        proof {
            assert(self.drafts@.drop_last() =~= old(self).drafts@);
            assert forall|i3: int, j3: int|
                0 <= i3 < j3 < self.drafts@.len() implies drafts_disjoint(
                #[trigger] self.drafts@[i3],
                #[trigger] self.drafts@[j3],
            ) by {
                if j3 < self.drafts@.len() - 1 {
                    assert(drafts_disjoint(old(self).drafts@[i3], old(self).drafts@[j3]));
                }
            }
        }
        Ok(ret)
    }
}

/// Every `a` outpoint occurs in `b`.
pub open spec fn op_subset(a: Seq<OutPoint>, b: Seq<OutPoint>) -> bool {
    forall|i: int| 0 <= i < a.len() ==> b.contains(#[trigger] a[i])
}

/// The two lists name the same set of outpoints.
pub open spec fn same_input_set(a: Seq<OutPoint>, b: Seq<OutPoint>) -> bool {
    op_subset(a, b) && op_subset(b, a)
}

/// Whether every `a` outpoint occurs in `b`.
pub fn check_op_subset(a: &Vec<OutPoint>, b: &Vec<OutPoint>) -> (r: bool)
    ensures
        r == op_subset(a@, b@),
{
    let n = a.len();
    let mut i: usize = 0;
    while i < n
        invariant
            n == a@.len(),
            i <= n,
            forall|j: int| 0 <= j < i ==> b@.contains(#[trigger] a@[j]),
        decreases n - i,
    {
        if !crate::coin_store::contains_outpoint(b, a[i]) {
            return false;
        }
        i = i + 1;
    }
    true
}

/// The drafts left after removing the one with the given id, in order.
pub open spec fn drafts_without(s: Seq<Draft>, txid: Txid) -> Seq<Draft>
    decreases s.len(),
{
    if s.len() == 0 {
        Seq::empty()
    } else {
        let prefix = drafts_without(s.drop_last(), txid);
        if s.last().txid == txid {
            prefix
        } else {
            prefix.push(s.last())
        }
    }
}

/// Removing an id that occurs nowhere changes nothing.
pub proof fn lemma_without_absent(s: Seq<Draft>, txid: Txid)
    requires
        forall|i: int| 0 <= i < s.len() ==> (#[trigger] s[i]).txid != txid,
    ensures
        drafts_without(s, txid) == s,
    decreases s.len(),
{
    if s.len() > 0 {
        lemma_without_absent(s.drop_last(), txid);
        assert(s[s.len() - 1] == s.last());
        assert(drafts_without(s, txid) =~= s);
    }
}

/// With distinct ids, removal by id is removal of the one holder's index.
pub proof fn lemma_without_unique(s: Seq<Draft>, txid: Txid, i: int)
    requires
        0 <= i < s.len(),
        s[i].txid == txid,
        forall|j: int| 0 <= j < s.len() && j != i ==> (#[trigger] s[j]).txid != txid,
    ensures
        drafts_without(s, txid) == s.remove(i),
    decreases s.len(),
{
    if i == s.len() - 1 {
        assert forall|j: int|
            0 <= j < s.drop_last().len() implies (#[trigger] s.drop_last()[j]).txid != txid by {
            assert(s.drop_last()[j] == s[j]);
        }
        lemma_without_absent(s.drop_last(), txid);
        assert(drafts_without(s, txid) =~= s.remove(i));
    } else {
        lemma_without_unique(s.drop_last(), txid, i);
        assert(s[s.len() - 1] == s.last());
        assert(drafts_without(s, txid) =~= s.remove(i));
    }
}

/// Nothing left after removal carries the removed id.
pub proof fn lemma_without_no_id(s: Seq<Draft>, txid: Txid)
    ensures
        forall|i: int|
            0 <= i < drafts_without(s, txid).len() ==> (#[trigger] drafts_without(s, txid)[i]).txid
                != txid,
    decreases s.len(),
{
    if s.len() > 0 {
        lemma_without_no_id(s.drop_last(), txid);
    }
}

/// Removal by id is idempotent: a second pass changes nothing.
pub proof fn lemma_delete_idempotent(s: Seq<Draft>, txid: Txid)
    ensures
        drafts_without(drafts_without(s, txid), txid) == drafts_without(s, txid),
{
    lemma_without_no_id(s, txid);
    lemma_without_absent(drafts_without(s, txid), txid);
}

/// Two stores with pointwise-equal outpoints record the same outpoints.
pub proof fn lemma_has_same_outpoints(s1: Seq<Coin>, s2: Seq<Coin>, op: OutPoint)
    requires
        s1.len() == s2.len(),
        forall|j: int| 0 <= j < s1.len() ==> (#[trigger] s2[j]).outpoint == s1[j].outpoint,
    ensures
        seq_has(s1, op) == seq_has(s2, op),
{
    if seq_has(s1, op) {
        let w = choose|w: int| 0 <= w < s1.len() && (#[trigger] s1[w]).outpoint == op;
        assert(s2[w].outpoint == op);
    }
    if seq_has(s2, op) {
        let w = choose|w: int| 0 <= w < s2.len() && (#[trigger] s2[w]).outpoint == op;
        assert(s1[w].outpoint == op);
    }
}

/// Draft bookkeeping survives removing one draft, against any store that
/// still records every outpoint the remaining drafts consume.
pub proof fn lemma_wf_drafts_removed(
    pre: Seq<Draft>,
    post: Seq<Draft>,
    st_pre: CoinStore,
    st_post: CoinStore,
    di: int,
)
    requires
        0 <= di < pre.len(),
        post == pre.remove(di),
        forall|i: int| 0 <= i < pre.len() ==> draft_wf(st_pre, #[trigger] pre[i]),
        forall|i: int, j: int|
            0 <= i < j < pre.len() ==> (#[trigger] pre[i]).txid != (#[trigger] pre[j]).txid,
        forall|i: int, j: int|
            0 <= i < j < pre.len() ==> drafts_disjoint(#[trigger] pre[i], #[trigger] pre[j]),
        forall|op: OutPoint| st_pre.has_coin(op) ==> #[trigger] st_post.has_coin(op),
    ensures
        forall|i: int| 0 <= i < post.len() ==> draft_wf(st_post, #[trigger] post[i]),
        forall|i: int, j: int|
            0 <= i < j < post.len() ==> (#[trigger] post[i]).txid != (#[trigger] post[j]).txid,
        forall|i: int, j: int|
            0 <= i < j < post.len() ==> drafts_disjoint(#[trigger] post[i], #[trigger] post[j]),
{
    assert forall|i: int| 0 <= i < post.len() implies draft_wf(st_post, #[trigger] post[i]) by {
        let oi = if i < di {
            i
        } else {
            i + 1
        };
        assert(post[i] == pre[oi]);
        assert(draft_wf(st_pre, pre[oi]));
    }
    assert forall|i: int, j: int|
        0 <= i < j < post.len() implies (#[trigger] post[i]).txid != (#[trigger] post[j]).txid by {
        let oi = if i < di {
            i
        } else {
            i + 1
        };
        let oj = if j < di {
            j
        } else {
            j + 1
        };
        assert(post[i] == pre[oi] && post[j] == pre[oj]);
    }
    assert forall|i: int, j: int|
        0 <= i < j < post.len() implies drafts_disjoint(
        #[trigger] post[i],
        #[trigger] post[j],
    ) by {
        let oi = if i < di {
            i
        } else {
            i + 1
        };
        let oj = if j < di {
            j
        } else {
            j + 1
        };
        assert(post[i] == pre[oi] && post[j] == pre[oj]);
        assert(drafts_disjoint(pre[oi], pre[oj]));
    }
}

impl WalletEngine {
    /// Replaces the stored draft's payload after checking that the new
    /// payload consumes the identical input set, supporting incremental
    /// multi-party signature collection.
    pub fn update_spend(&mut self, txid: Txid, new_inputs: &Vec<OutPoint>, new_payload: Vec<u8>)
        -> (r: Result<(), WalletError>)
        requires
            old(self).wf(),
        ensures
            final(self).wf(),
            same_aux(*final(self), *old(self)),
            final(self).store == old(self).store,
            match r {
                Ok(()) => {
                    &&& has_draft(*old(self), txid)
                    &&& same_input_set(
                        new_inputs@,
                        old(self).drafts@[draft_index(*old(self), txid)].inputs@,
                    )
                    &&& final(self).drafts@.len() == old(self).drafts@.len()
                    &&& forall|j: int|
                        0 <= j < old(self).drafts@.len() && j != draft_index(*old(self), txid)
                            ==> #[trigger] final(self).drafts@[j] == old(self).drafts@[j]
                    &&& {
                        let pre = old(self).drafts@[draft_index(*old(self), txid)];
                        let post = final(self).drafts@[draft_index(*old(self), txid)];
                        post.txid == txid && post.inputs@ == pre.inputs@ && post.outputs@
                            == pre.outputs@ && post.change_index == pre.change_index
                            && post.feerate == pre.feerate && post.fee == pre.fee
                            && post.payload@ == new_payload@
                    }
                },
                Err(e) => {
                    &&& *final(self) == *old(self)
                    &&& (e is UnknownSpend <==> !has_draft(*old(self), txid))
                    &&& (e is InputSetMismatch <==> has_draft(*old(self), txid)
                        && !same_input_set(
                        new_inputs@,
                        old(self).drafts@[draft_index(*old(self), txid)].inputs@,
                    ))
                    &&& (e is UnknownSpend || e is InputSetMismatch)
                },
            },
    {
        let di = match self.find_draft(txid) {
            None => {
                return Err(WalletError::UnknownSpend(txid));
            },
            Some(i) => i,
        };
        let same = check_op_subset(new_inputs, &self.drafts[di].inputs) && check_op_subset(
            &self.drafts[di].inputs,
            new_inputs,
        );
        if !same {
            return Err(WalletError::InputSetMismatch);
        }
        let d = self.drafts[di].clone();
        let d2 = Draft { payload: new_payload, ..d };
        proof {
            assert(draft_wf(self.store, self.drafts@[di as int]));
        }
        self.drafts[di] = d2;
        proof {
            assert forall|i3: int, j3: int|
                0 <= i3 < j3 < self.drafts@.len() implies drafts_disjoint(
                #[trigger] self.drafts@[i3],
                #[trigger] self.drafts@[j3],
            ) by {
                assert(drafts_disjoint(old(self).drafts@[i3], old(self).drafts@[j3]));
            }
        }
        Ok(())
    }

    /// Removes the draft and releases its soft-reserved coins. Deleting an
    /// unknown id is a no-op, not an error.
    pub fn delete_spend(&mut self, txid: Txid)
        requires
            old(self).wf(),
        ensures
            final(self).wf(),
            same_aux(*final(self), *old(self)),
            final(self).store == old(self).store,
            final(self).drafts@ == drafts_without(old(self).drafts@, txid),
    {
        let di = match self.find_draft(txid) {
            None => {
                proof {
                    lemma_without_absent(old(self).drafts@, txid);
                }
                return ;
            },
            Some(i) => i,
        };
        proof {
            assert forall|j: int|
                0 <= j < self.drafts@.len() && j != di as int implies (
            #[trigger] self.drafts@[j]).txid != txid by {
                if j < di as int {
                    assert(self.drafts@[j].txid != self.drafts@[di as int].txid);
                }
            }
            lemma_without_unique(self.drafts@, txid, di as int);
            lemma_wf_drafts_removed(
                self.drafts@,
                self.drafts@.remove(di as int),
                self.store,
                self.store,
                di as int,
            );
        }
        self.drafts.remove(di);
    }

    /// The store contents after marking every listed outpoint as being
    /// spent by `spender`.
    pub open spec fn spend_all(s: Seq<Coin>, ops: Seq<OutPoint>, spender: Txid) -> Seq<Coin>
        decreases ops.len(),
    {
        if ops.len() == 0 {
            s
        } else {
            seq_after_spend(Self::spend_all(s, ops.drop_last(), spender), ops.last(), spender)
        }
    }

    /// Settles a broadcast attempt. The caller first asks the finalizer
    /// whether the draft is fully signed and, only then, hands the
    /// transaction to the node; both verdicts come in as arguments. On an
    /// accepted broadcast the consumed coins move to `Spending` and the
    /// draft leaves the active set; on any failure the draft is kept intact
    /// for retry.
    pub fn broadcast_spend(&mut self, txid: Txid, sigs_complete: bool, node: &NodeResponse) -> (r:
        Result<(), WalletError>)
        requires
            old(self).wf(),
        ensures
            final(self).wf(),
            same_aux(*final(self), *old(self)),
            match r {
                Ok(()) => {
                    &&& has_draft(*old(self), txid)
                    &&& sigs_complete
                    &&& node is Accepted
                    &&& final(self).store.coins@ == Self::spend_all(
                        old(self).store.coins@,
                        old(self).drafts@[draft_index(*old(self), txid)].inputs@,
                        txid,
                    )
                    &&& final(self).drafts@ == drafts_without(old(self).drafts@, txid)
                },
                Err(e) => {
                    &&& *final(self) == *old(self)
                    &&& (e is UnknownSpend <==> !has_draft(*old(self), txid))
                    &&& (e is IncompleteSignatures <==> has_draft(*old(self), txid)
                        && !sigs_complete)
                    &&& (e is BroadcastRejected <==> has_draft(*old(self), txid) && sigs_complete
                        && node is Rejected)
                    &&& (e matches WalletError::BroadcastRejected(m) ==> (node matches
                    NodeResponse::Rejected(m2) && m@ == m2@))
                    &&& (e is NodeUnavailable <==> has_draft(*old(self), txid) && sigs_complete
                        && node is Unavailable)
                    &&& (e is UnknownSpend || e is IncompleteSignatures || e is BroadcastRejected
                        || e is NodeUnavailable)
                },
            },
    {
        let di = match self.find_draft(txid) {
            None => {
                return Err(WalletError::UnknownSpend(txid));
            },
            Some(i) => i,
        };
        if !sigs_complete {
            return Err(WalletError::IncompleteSignatures);
        }
        match node {
            NodeResponse::Rejected(reason) => {
                return Err(WalletError::BroadcastRejected(reason.clone()));
            },
            NodeResponse::Unavailable => {
                return Err(WalletError::NodeUnavailable);
            },
            NodeResponse::Accepted => {},
        }

        let ins = self.drafts[di].inputs.clone();
        proof {
            assert(ins@ =~= self.drafts@[di as int].inputs@);
        }
        let n = ins.len();
        let mut i: usize = 0;
        while i < n
            invariant
                n == ins@.len(),
                i <= n,
                self.store.wf(),
                self.store.coins@ == Self::spend_all(old(self).store.coins@, ins@.take(i as int), txid),
                self.store.coins@.len() == old(self).store.coins@.len(),
                forall|j: int|
                    0 <= j < self.store.coins@.len() ==> (#[trigger] self.store.coins@[j]).outpoint
                        == old(self).store.coins@[j].outpoint,
                self.drafts@ == old(self).drafts@,
                self.labels@ == old(self).labels@,
                self.txs@ == old(self).txs@,
                self.rescan == old(self).rescan,
                self.tip_height == old(self).tip_height,
                self.recovery_timelock == old(self).recovery_timelock,
                self.mainnet == old(self).mainnet,
                self.change_address == old(self).change_address,
                self.next_derivation_index == old(self).next_derivation_index,
            decreases n - i,
        {
            proof {
                assert(ins@.take(i + 1).drop_last() =~= ins@.take(i as int));
                assert(ins@.take(i + 1).last() == ins@[i as int]);
            }
            let prev_len: Ghost<int> = Ghost(self.store.coins@.len() as int);
            self.store.apply_spend(ins[i], txid);
            proof {
                assert forall|j: int|
                    0 <= j < self.store.coins@.len() implies (
                #[trigger] self.store.coins@[j]).outpoint == old(self).store.coins@[j].outpoint
                    by {}
            }
            i = i + 1;
        }
        proof {
            assert(ins@.take(n as int) =~= ins@);
        }

        proof {
            assert forall|j: int|
                0 <= j < self.drafts@.len() && j != di as int implies (
            #[trigger] self.drafts@[j]).txid != txid by {
                if j < di as int {
                    assert(self.drafts@[j].txid != self.drafts@[di as int].txid);
                }
            }
            lemma_without_unique(self.drafts@, txid, di as int);
            assert forall|op: OutPoint|
                old(self).store.has_coin(op) implies #[trigger] self.store.has_coin(op) by {
                lemma_has_same_outpoints(old(self).store.coins@, self.store.coins@, op);
            }
            lemma_wf_drafts_removed(
                self.drafts@,
                self.drafts@.remove(di as int),
                old(self).store,
                self.store,
                di as int,
            );
        }
        self.drafts.remove(di);
        Ok(())
    }
}

/// Whether the coin's recovery path has matured under timelock `tl`: its
/// funding is confirmed, the confirmation height plus the timelock does not
/// exceed the current chain height, and no draft holds it.
pub open spec fn recoverable(e: WalletEngine, tl: u16, c: Coin) -> bool {
    &&& c.status == CoinStatus::Confirmed
    &&& match c.confirmation_height {
        Some(h) => h + tl <= e.tip_height,
        None => false,
    }
    &&& !spec_reserved(e, c.outpoint)
}

/// Every coin whose recovery path has matured under timelock `tl`, in
/// store order.
pub open spec fn recovery_seq(e: WalletEngine, tl: u16) -> Seq<Coin> {
    coins_where(e.store.coins@, |c: Coin| recoverable(e, tl, c))
}

/// The outpoints of the coins, in order.
pub open spec fn outpoints_of(s: Seq<Coin>) -> Seq<OutPoint> {
    s.map(|i: int, c: Coin| c.outpoint)
}

impl WalletEngine {
    /// Builds, reserves and stores a recovery sweep draft: it spends every
    /// coin whose recovery timelock has matured — under the wallet's own
    /// timelock, or `timelock` when given — into a single output at
    /// `address`, minus the fee at `feerate`, serializes the unsigned
    /// transaction, and keys the draft by that transaction's id.
    #[verifier::rlimit(100)]
    pub fn create_recovery(
        &mut self,
        address: String,
        feerate: u64,
        timelock: Option<u16>,
    ) -> (r: Result<Draft, WalletError>)
        requires
            old(self).wf(),
        ensures
            final(self).wf(),
            same_aux(*final(self), *old(self)),
            final(self).store == old(self).store,
            ({
                let tl = match timelock {
                    Some(t) => t,
                    None => old(self).recovery_timelock,
                };
                let rs = recovery_seq(*old(self), tl);
                match r {
                    Ok(d) => {
                        &&& final(self).drafts@.len() == old(self).drafts@.len() + 1
                        &&& final(self).drafts@.drop_last() == old(self).drafts@
                        &&& draft_like(d, final(self).drafts@.last())
                        &&& !has_draft(*old(self), d.txid)
                        &&& d.feerate == feerate
                        &&& 1 <= feerate <= MAX_FEERATE
                        &&& d.payload@ == crate::btc::tx_bytes_of(
                            d.inputs@,
                            crate::btc::dest_views(d.outputs@),
                        )
                        &&& d.txid == crate::btc::txid_hash(d.payload@)
                        &&& d.inputs@.len() == rs.len()
                        &&& rs.len() >= 1
                        &&& forall|a: int|
                            0 <= a < rs.len() ==> #[trigger] d.inputs@[a] == rs[a].outpoint
                        &&& ops_distinct(d.inputs@)
                        &&& d.outputs@.len() == 1
                        &&& d.outputs@[0].address == address
                        &&& d.change_index is None
                        &&& d.fee == fee_for(feerate, rs.len() as int, 1)
                        &&& d.outputs@[0].amount >= 1
                        &&& sum_outpoints(old(self).store, d.inputs@) == d.outputs@[0].amount
                            + d.fee
                    },
                    Err(e) => {
                        &&& *final(self) == *old(self)
                        &&& (e is InvalidParams <==> !(1 <= feerate <= MAX_FEERATE)
                            || !crate::btc::addr_parse_ok(address@))
                        &&& (e is NoMaturedCoins <==> 1 <= feerate <= MAX_FEERATE
                            && crate::btc::addr_parse_ok(address@) && rs.len() == 0)
                        &&& (e is InsufficientFunds <==> 1 <= feerate <= MAX_FEERATE
                            && crate::btc::addr_parse_ok(address@) && rs.len() >= 1 && sum_coins(
                            rs,
                        ) < fee_for(feerate, rs.len() as int, 1) + 1)
                        &&& (e is DuplicateDraftId ==> has_draft(
                            *old(self),
                            crate::btc::txid_hash(
                                crate::btc::tx_bytes_of(
                                    outpoints_of(rs),
                                    seq![
                                        (
                                            address@,
                                            (sum_coins(rs) - fee_for(
                                                feerate,
                                                rs.len() as int,
                                                1,
                                            )) as u64,
                                        ),
                                    ],
                                ),
                            ),
                        ))
                        &&& (e matches WalletError::DuplicateDraftId(t) ==> has_draft(
                            *old(self),
                            t,
                        ))
                        &&& (e is InvalidParams || e is NoMaturedCoins || e is InsufficientFunds
                            || e is DuplicateDraftId)
                    },
                }
            }),
    {
        if feerate < 1 || feerate > MAX_FEERATE || !crate::btc::address_parseable(&address) {
            return Err(WalletError::InvalidParams("feerate or address".to_owned()));
        }
        let tl = match timelock {
            Some(t) => t,
            None => self.recovery_timelock,
        };

        // collect every matured coin
        let ghost p = |c: Coin| recoverable(*self, tl, c);
        let n = self.store.coins.len();
        let mut elig: Vec<Coin> = Vec::new();
        let mut i: usize = 0;
        while i < n
            invariant
                self.wf(),
                n == self.store.coins@.len(),
                i <= n,
                p == (|c: Coin| recoverable(*self, tl, c)),
                elig@ == coins_where(self.store.coins@.take(i as int), p),
            decreases n - i,
        {
            let c = self.store.coins[i];
            proof {
                assert(self.store.coins@.take(i + 1).drop_last() =~= self.store.coins@.take(
                    i as int,
                ));
                assert(self.store.coins@.take(i + 1).last() == self.store.coins@[i as int]);
            }
            let mature = match c.confirmation_height {
                Some(h) => (h as u64) + (tl as u64) <= (self.tip_height as u64),
                None => false,
            };
            if matches!(c.status, CoinStatus::Confirmed) && mature && !self.is_reserved(
                c.outpoint,
            ) {
                elig.push(c);
            }
            i = i + 1;
        }
        proof {
            assert(self.store.coins@.take(n as int) =~= self.store.coins@);
            lemma_coins_where(self.store.coins@, p);
        }
        let k = elig.len();
        if k == 0 {
            return Err(WalletError::NoMaturedCoins);
        }

        // total matured value
        let mut total: u64 = 0;
        let mut i1: usize = 0;
        while i1 < k
            invariant
                k == elig@.len(),
                i1 <= k,
                total == sum_coins(elig@.take(i1 as int)),
                0 <= sum_coins(elig@) <= MAX_MONEY,
                total <= MAX_MONEY,
            decreases k - i1,
        {
            proof {
                assert(elig@.take(i1 + 1).drop_last() =~= elig@.take(i1 as int));
                assert(elig@.take(i1 + 1).last() == elig@[i1 as int]);
                crate::coin_store::lemma_sum_take_le(elig@, i1 + 1);
            }
            total = total + elig[i1].amount;
            i1 = i1 + 1;
        }
        proof {
            assert(elig@.take(k as int) =~= elig@);
        }

        let fee128 = crate::select::fee_exec(feerate, k, 1, 0);
        if (total as u128) < fee128 + 1 {
            return Err(WalletError::InsufficientFunds);
        }
        let amount = total - (fee128 as u64);

        // assemble the sweep draft
        let mut inputs: Vec<OutPoint> = Vec::new();
        let mut a: usize = 0;
        while a < k
            invariant
                self.wf(),
                k == elig@.len(),
                a <= k,
                inputs@.len() == a,
                forall|b: int| 0 <= b < a ==> #[trigger] inputs@[b] == elig@[b].outpoint,
                sum_outpoints(self.store, inputs@) == sum_coins(elig@.take(a as int)),
                forall|b: int|
                    0 <= b < elig@.len() ==> recoverable(*self, tl, #[trigger] elig@[b])
                        && self.store.coins@.contains(elig@[b]),
                forall|b1: int, b2: int|
                    0 <= b1 < b2 < elig@.len() ==> (#[trigger] elig@[b1]).outpoint != (
                    #[trigger] elig@[b2]).outpoint,
            decreases k - a,
        {
            let c = elig[a];
            proof {
                lemma_coin_at_of_contains(self.store, c);
                assert(inputs@.push(c.outpoint).drop_last() =~= inputs@);
                assert(elig@.take(a + 1).drop_last() =~= elig@.take(a as int));
                assert(elig@.take(a + 1).last() == elig@[a as int]);
            }
            inputs.push(c.outpoint);
            a = a + 1;
        }
        proof {
            assert(elig@.take(k as int) =~= elig@);
        }

        let mut outputs: Vec<Dest> = Vec::new();
        outputs.push(Dest { address, amount });
        let payload = crate::btc::unsigned_tx_bytes(&inputs, &outputs);
        let txid = crate::btc::txid_of_bytes(&payload);
        proof {
            let rs = recovery_seq(*self, tl);
            assert(elig@ == rs);
            assert(inputs@ =~= outpoints_of(rs));
            assert(crate::btc::dest_views(outputs@) =~= seq![(address@, amount)]);
            assert(amount == (sum_coins(rs) - fee_for(feerate, rs.len() as int, 1)) as u64);
        }
        match self.find_draft(txid) {
            Some(_) => {
                return Err(WalletError::DuplicateDraftId(txid));
            },
            None => {},
        }
        let d = Draft {
            txid,
            inputs,
            outputs,
            change_index: None,
            feerate,
            fee: fee128 as u64,
            payload,
        };
        let ret = d.clone();
        proof {
            assert forall|j: int, b1: int, b2: int|
                0 <= j < self.drafts@.len() && 0 <= b1 < self.drafts@[j].inputs@.len() && 0 <= b2
                    < d.inputs@.len() implies #[trigger] self.drafts@[j].inputs@[b1]
                != #[trigger] d.inputs@[b2] by {
                if self.drafts@[j].inputs@[b1] == d.inputs@[b2] {
                    assert(self.drafts@[j].inputs@.contains(d.inputs@[b2]));
                    assert(spec_reserved(*self, d.inputs@[b2]));
                    assert(recoverable(*self, tl, elig@[b2]));
                }
            }
        }
        self.drafts.push(d);
        proof {
            assert(self.drafts@.drop_last() =~= old(self).drafts@);
            assert forall|i3: int, j3: int|
                0 <= i3 < j3 < self.drafts@.len() implies drafts_disjoint(
                #[trigger] self.drafts@[i3],
                #[trigger] self.drafts@[j3],
            ) by {
                if j3 < self.drafts@.len() - 1 {
                    assert(drafts_disjoint(old(self).drafts@[i3], old(self).drafts@[j3]));
                }
            }
        }
        Ok(ret)
    }
}

/// The store contents after one chain event.
pub open spec fn apply_event(s: Seq<Coin>, e: ChainEvent) -> Seq<Coin> {
    match e {
        ChainEvent::Funded(d) => seq_after_deposit(s, d),
        ChainEvent::ConfirmedAt(op, h) => seq_after_confirm(s, op, h),
        ChainEvent::SpendSeen(op, sp) => seq_after_spend(s, op, sp),
        ChainEvent::SpendConfirmed(op) => seq_after_spent(s, op),
        ChainEvent::SpendReverted(op) => seq_after_revert(s, op),
    }
}

/// The store contents after a batch of chain events, applied in order.
pub open spec fn fold_events(s: Seq<Coin>, evs: Seq<ChainEvent>) -> Seq<Coin>
    decreases evs.len(),
{
    if evs.len() == 0 {
        s
    } else {
        apply_event(fold_events(s, evs.drop_last()), evs.last())
    }
}

/// Whether every deposit in the batch fits under the money supply at the
/// point it is applied.
pub open spec fn deposits_fit(s: Seq<Coin>, evs: Seq<ChainEvent>) -> bool
    decreases evs.len(),
{
    if evs.len() == 0 {
        true
    } else {
        deposits_fit(s, evs.drop_last()) && match evs.last() {
            ChainEvent::Funded(d) => seq_has(fold_events(s, evs.drop_last()), d.outpoint)
                || sum_coins(fold_events(s, evs.drop_last())) + d.amount <= MAX_MONEY,
            _ => true,
        }
    }
}

/// No chain event removes a recorded outpoint.
pub proof fn lemma_event_preserves_has(s: Seq<Coin>, e: ChainEvent, op: OutPoint)
    requires
        seq_has(s, op),
    ensures
        seq_has(apply_event(s, e), op),
{
    let w = choose|w: int| 0 <= w < s.len() && (#[trigger] s[w]).outpoint == op;
    match e {
        ChainEvent::Funded(d) => {
            if seq_has(s, d.outpoint) {
                assert(apply_event(s, e)[w].outpoint == op);
            } else if sum_coins(s) + d.amount <= MAX_MONEY {
                assert(apply_event(s, e)[w].outpoint == op);
            } else {
                assert(apply_event(s, e)[w].outpoint == op);
            }
        },
        ChainEvent::ConfirmedAt(op2, h) => {
            assert(apply_event(s, e)[w].outpoint == op);
        },
        ChainEvent::SpendSeen(op2, sp) => {
            assert(apply_event(s, e)[w].outpoint == op);
        },
        ChainEvent::SpendConfirmed(op2) => {
            assert(apply_event(s, e)[w].outpoint == op);
        },
        ChainEvent::SpendReverted(op2) => {
            assert(apply_event(s, e)[w].outpoint == op);
        },
    }
}

impl WalletEngine {
    /// Feeds a batch of discovered chain facts into the coin store, in
    /// order, each an idempotent upsert keyed by outpoint. Returns whether
    /// every deposit fit under the money supply; a deposit that did not is
    /// refused (the chain itself never produces one) and reported.
    pub fn apply_chain_events(&mut self, events: &Vec<ChainEvent>) -> (ok: bool)
        requires
            old(self).wf(),
        ensures
            final(self).wf(),
            same_aux(*final(self), *old(self)),
            final(self).drafts@ == old(self).drafts@,
            final(self).store.coins@ == fold_events(old(self).store.coins@, events@),
            ok == deposits_fit(old(self).store.coins@, events@),
    {
        let n = events.len();
        let mut ok = true;
        let mut i: usize = 0;
        while i < n
            invariant
                n == events@.len(),
                i <= n,
                self.store.wf(),
                self.store.coins@ == fold_events(old(self).store.coins@, events@.take(i as int)),
                ok == deposits_fit(old(self).store.coins@, events@.take(i as int)),
                self.drafts@ == old(self).drafts@,
                self.labels@ == old(self).labels@,
                self.txs@ == old(self).txs@,
                self.rescan == old(self).rescan,
                self.tip_height == old(self).tip_height,
                self.recovery_timelock == old(self).recovery_timelock,
                self.mainnet == old(self).mainnet,
                self.change_address == old(self).change_address,
                self.next_derivation_index == old(self).next_derivation_index,
                old(self).wf(),
                forall|di: int|
                    0 <= di < self.drafts@.len() ==> draft_wf(self.store, #[trigger] self.drafts@[di]),
            decreases n - i,
        {
            let ghost prev = self.store.coins@;
            proof {
                assert(events@.take(i + 1).drop_last() =~= events@.take(i as int));
                assert(events@.take(i + 1).last() == events@[i as int]);
            }
            match events[i] {
                ChainEvent::Funded(d) => {
                    let ap = self.store.apply_deposit(&d);
                    if !ap {
                        ok = false;
                    }
                },
                ChainEvent::ConfirmedAt(op, h) => {
                    self.store.apply_confirmation(op, h);
                },
                ChainEvent::SpendSeen(op, sp) => {
                    self.store.apply_spend(op, sp);
                },
                ChainEvent::SpendConfirmed(op) => {
                    self.store.apply_spend_confirmation(op);
                },
                ChainEvent::SpendReverted(op) => {
                    self.store.apply_reorg_revert(op);
                },
            }
            proof {
                assert(self.store.coins@ == apply_event(prev, events@[i as int]));
                assert forall|di: int|
                    0 <= di < self.drafts@.len() implies draft_wf(
                    self.store,
                    #[trigger] self.drafts@[di],
                ) by {
                    assert forall|b: int|
                        0 <= b < self.drafts@[di].inputs@.len() implies self.store.has_coin(
                        #[trigger] self.drafts@[di].inputs@[b],
                    ) by {
                        lemma_event_preserves_has(
                            prev,
                            events@[i as int],
                            self.drafts@[di].inputs@[b],
                        );
                    }
                }
            }
            i = i + 1;
        }
        proof {
            assert(events@.take(n as int) =~= events@);
        }
        ok
    }

    /// Begins a historical rescan from `timestamp`. At most one rescan may
    /// be in flight: a request while one is running is rejected, not
    /// queued.
    pub fn start_rescan(&mut self, timestamp: u32) -> (r: Result<(), WalletError>)
        requires
            old(self).wf(),
        ensures
            final(self).wf(),
            match r {
                Ok(()) => {
                    &&& old(self).rescan is None
                    &&& final(self).rescan == Some((timestamp, 0u32))
                    &&& final(self).store == old(self).store
                    &&& final(self).drafts@ == old(self).drafts@
                    &&& final(self).labels@ == old(self).labels@
                    &&& final(self).txs@ == old(self).txs@
                    &&& final(self).tip_height == old(self).tip_height
                },
                Err(e) => {
                    &&& *final(self) == *old(self)
                    &&& e is RescanAlreadyInProgress
                    &&& old(self).rescan is Some
                },
            },
    {
        if self.rescan.is_some() {
            return Err(WalletError::RescanAlreadyInProgress);
        }
        self.rescan = Some((timestamp, 0));
        Ok(())
    }

    /// One step of the rescan in flight: applies the facts discovered at
    /// `height` and advances the progress mark, which never decreases.
    /// When progress reaches the chain tip the rescan completes and the
    /// state returns to idle. On a node failure the caller simply stops
    /// stepping: the state stays in flight, so a restart can resume, and
    /// replaying an overlapping range is safe because every mutation is an
    /// idempotent upsert.
    pub fn rescan_step(&mut self, height: u32, events: &Vec<ChainEvent>) -> (r: Result<
        (),
        WalletError,
    >)
        requires
            old(self).wf(),
        ensures
            final(self).wf(),
            match old(self).rescan {
                None => *final(self) == *old(self) && r is Err && (r matches Err(e)
                    ==> e is NoRescanInProgress),
                Some((ts, prog)) => {
                    let np = if height > prog {
                        height
                    } else {
                        prog
                    };
                    &&& final(self).store.coins@ == fold_events(old(self).store.coins@, events@)
                    &&& final(self).drafts@ == old(self).drafts@
                    &&& final(self).labels@ == old(self).labels@
                    &&& final(self).txs@ == old(self).txs@
                    &&& final(self).tip_height == old(self).tip_height
                    &&& np >= prog
                    &&& final(self).rescan == (if np >= old(self).tip_height {
                        None
                    } else {
                        Some((ts, np))
                    })
                    &&& (r is Ok <==> deposits_fit(old(self).store.coins@, events@))
                    &&& (r matches Err(e) ==> e is InvalidParams)
                },
            },
    {
        let r0 = self.rescan;
        match r0 {
            None => Err(WalletError::NoRescanInProgress),
            Some((ts, prog)) => {
                let ok = self.apply_chain_events(events);
                let np = if height > prog {
                    height
                } else {
                    prog
                };
                if np >= self.tip_height {
                    self.rescan = None;
                } else {
                    self.rescan = Some((ts, np));
                }
                if ok {
                    Ok(())
                } else {
                    Err(WalletError::InvalidParams("deposit amount over the money supply".to_owned()))
                }
            },
        }
    }

    /// Hands out the next unused derivation index; the caller derives the
    /// receive address from it.
    pub fn get_new_address(&mut self) -> (r: u32)
        requires
            old(self).wf(),
            old(self).next_derivation_index < 0xFFFF_FFFFu32,
        ensures
            final(self).wf(),
            r == old(self).next_derivation_index,
            final(self).next_derivation_index == old(self).next_derivation_index + 1,
            final(self).store == old(self).store,
            final(self).drafts@ == old(self).drafts@,
            final(self).labels@ == old(self).labels@,
            final(self).txs@ == old(self).txs@,
            final(self).rescan == old(self).rescan,
            final(self).tip_height == old(self).tip_height,
    {
        let r = self.next_derivation_index;
        self.next_derivation_index = r + 1;
        r
    }

    /// Coins matching the optional status and outpoint filters, in store
    /// order; empty filters mean no filter on that dimension.
    pub fn list_coins(
        &self,
        statuses: &Vec<CoinStatus>,
        outpoints: &Vec<OutPoint>,
    ) -> (r: Vec<Coin>)
        ensures
            r@ == crate::coin_store::matching_coins(self.store.coins@, statuses@, outpoints@),
    {
        self.store.coins_matching(statuses, outpoints)
    }

    /// The stored drafts, in creation order.
    pub fn list_spend(&self) -> (r: Vec<Draft>)
        ensures
            r@.len() == self.drafts@.len(),
            forall|i: int|
                0 <= i < r@.len() ==> draft_like(#[trigger] r@[i], self.drafts@[i]),
    {
        let n = self.drafts.len();
        let mut out: Vec<Draft> = Vec::new();
        let mut i: usize = 0;
        while i < n
            invariant
                n == self.drafts@.len(),
                i <= n,
                out@.len() == i,
                forall|j: int| 0 <= j < i ==> draft_like(#[trigger] out@[j], self.drafts@[j]),
            decreases n - i,
        {
            out.push(self.drafts[i].clone());
            i = i + 1;
        }
        out
    }

    /// Records the chain tip the wallet currently sees.
    pub fn set_tip(&mut self, height: u32)
        requires
            old(self).wf(),
        ensures
            final(self).wf(),
            final(self).tip_height == height,
            final(self).store == old(self).store,
            final(self).drafts@ == old(self).drafts@,
            final(self).labels@ == old(self).labels@,
            final(self).txs@ == old(self).txs@,
            final(self).rescan == old(self).rescan,
    {
        self.tip_height = height;
    }
}

} // verus!
