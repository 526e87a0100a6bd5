//! Authoritative record of every UTXO the wallet descriptor controls.
//!
//! All mutators are idempotent upserts keyed by outpoint, so replaying an
//! overlapping range of chain history is always safe.

use vstd::prelude::*;

use crate::types::{Coin, CoinStatus, Deposit, OutPoint, coin_ok, MAX_MONEY};

verus! {

/// Whether some coin of the sequence sits at the given outpoint.
pub open spec fn seq_has(s: Seq<Coin>, op: OutPoint) -> bool {
    exists|i: int| 0 <= i < s.len() && (#[trigger] s[i]).outpoint == op
}

/// Total value of the coins, in satoshis.
pub open spec fn sum_coins(s: Seq<Coin>) -> int
    decreases s.len(),
{
    if s.len() == 0 {
        0
    } else {
        sum_coins(s.drop_last()) + s.last().amount
    }
}

pub proof fn lemma_sum_push(s: Seq<Coin>, c: Coin)
    ensures
        sum_coins(s.push(c)) == sum_coins(s) + c.amount,
{
    assert(s.push(c).drop_last() =~= s);
}

/// Sums are equal when the two sequences agree pointwise on amounts.
pub proof fn lemma_sum_amount_preserving(s1: Seq<Coin>, s2: Seq<Coin>)
    requires
        s1.len() == s2.len(),
        forall|i: int| 0 <= i < s1.len() ==> (#[trigger] s2[i]).amount == s1[i].amount,
    ensures
        sum_coins(s2) == sum_coins(s1),
    decreases s1.len(),
{
    if s1.len() > 0 {
        lemma_sum_amount_preserving(s1.drop_last(), s2.drop_last());
    }
}

/// A prefix of the coins never sums to more than all of them.
pub proof fn lemma_sum_take_le(s: Seq<Coin>, t: int)
    requires
        0 <= t <= s.len(),
    ensures
        sum_coins(s.take(t)) <= sum_coins(s),
    decreases s.len() - t,
{
    if t == s.len() {
        assert(s.take(t) =~= s);
    } else {
        lemma_sum_take_le(s, t + 1);
        assert(s.take(t + 1).drop_last() =~= s.take(t));
        assert(sum_coins(s.take(t)) == sum_coins(s.take(t + 1)) - s[t].amount);
    }
}

/// The coin record a fresh deposit creates.
pub open spec fn dep_new(d: Deposit) -> Coin {
    Coin {
        outpoint: d.outpoint,
        amount: d.amount,
        derivation_index: d.derivation_index,
        status: if d.height is Some { CoinStatus::Confirmed } else { CoinStatus::Unconfirmed },
        confirmation_height: if d.height is Some { d.height } else { None },
        spend_txid: None,
    }
}

/// How a deposit report changes an already-known coin: it can only confirm
/// a coin that was unconfirmed; everything else is left as recorded.
pub open spec fn dep_upd(c: Coin, d: Deposit) -> Coin {
    if c.status == CoinStatus::Unconfirmed && d.height is Some {
        Coin { status: CoinStatus::Confirmed, confirmation_height: d.height, ..c }
    } else {
        c
    }
}

/// How a confirmation at `height` changes a coin.
pub open spec fn conf_upd(c: Coin, height: u32) -> Coin {
    if c.status == CoinStatus::Unconfirmed {
        Coin { status: CoinStatus::Confirmed, confirmation_height: Some(height), ..c }
    } else {
        c
    }
}

/// How an observed spend by `spender` changes a coin: any coin not yet
/// known spent moves to `Spending`; a `Spent` coin is left alone.
pub open spec fn spend_upd(c: Coin, spender: crate::types::Txid) -> Coin {
    if c.status == CoinStatus::Spent {
        c
    } else {
        Coin { status: CoinStatus::Spending, spend_txid: Some(spender), ..c }
    }
}

/// How the confirmation of the spending transaction changes a coin.
pub open spec fn spent_upd(c: Coin) -> Coin {
    if c.status == CoinStatus::Spending {
        Coin { status: CoinStatus::Spent, ..c }
    } else {
        c
    }
}

/// How a reorg that invalidated the spend changes a coin: it falls back to
/// `Confirmed` or `Unconfirmed` depending on whether its own funding is
/// still confirmed.
pub open spec fn revert_upd(c: Coin) -> Coin {
    if c.status == CoinStatus::Spending || c.status == CoinStatus::Spent {
        Coin {
            status: if c.confirmation_height is Some {
                CoinStatus::Confirmed
            } else {
                CoinStatus::Unconfirmed
            },
            spend_txid: None,
            ..c
        }
    } else {
        c
    }
}

/// The sequence after a pointwise update of the coin at `op` (if present).
pub open spec fn seq_upd_at(s: Seq<Coin>, op: OutPoint, c2: Coin) -> Seq<Coin> {
    s.map(|i: int, c: Coin| if c.outpoint == op { c2 } else { c })
}

/// The store contents after a deposit report. A deposit that would push the
/// recorded total over the money supply is refused and changes nothing; the
/// chain itself never produces one.
pub open spec fn seq_after_deposit(s: Seq<Coin>, d: Deposit) -> Seq<Coin> {
    if seq_has(s, d.outpoint) {
        s.map(|i: int, c: Coin| if c.outpoint == d.outpoint { dep_upd(c, d) } else { c })
    } else if sum_coins(s) + d.amount <= MAX_MONEY {
        s.push(dep_new(d))
    } else {
        s
    }
}

/// The store contents after a confirmation report.
pub open spec fn seq_after_confirm(s: Seq<Coin>, op: OutPoint, height: u32) -> Seq<Coin> {
    s.map(|i: int, c: Coin| if c.outpoint == op { conf_upd(c, height) } else { c })
}

/// The store contents after an observed spend.
pub open spec fn seq_after_spend(s: Seq<Coin>, op: OutPoint, spender: crate::types::Txid) -> Seq<
    Coin,
> {
    s.map(|i: int, c: Coin| if c.outpoint == op { spend_upd(c, spender) } else { c })
}

/// The store contents after the spend of the coin confirmed.
pub open spec fn seq_after_spent(s: Seq<Coin>, op: OutPoint) -> Seq<Coin> {
    s.map(|i: int, c: Coin| if c.outpoint == op { spent_upd(c) } else { c })
}

/// The store contents after a reorg invalidated the spend of the coin.
pub open spec fn seq_after_revert(s: Seq<Coin>, op: OutPoint) -> Seq<Coin> {
    s.map(|i: int, c: Coin| if c.outpoint == op { revert_upd(c) } else { c })
}

/// The record of every UTXO the wallet descriptor controls.
pub struct CoinStore {
    pub coins: Vec<Coin>,
}

impl CoinStore {
    /// Well-formedness: one record per outpoint, each internally consistent,
    /// and the recorded total within the money supply.
    pub open spec fn wf(self) -> bool {
        &&& forall|i: int, j: int|
            0 <= i < j < self.coins@.len() ==> (#[trigger] self.coins@[i]).outpoint != (
            #[trigger] self.coins@[j]).outpoint
        &&& forall|i: int| 0 <= i < self.coins@.len() ==> coin_ok(#[trigger] self.coins@[i])
        &&& sum_coins(self.coins@) <= MAX_MONEY
    }

    /// Total value recorded in the store, in satoshis.
    pub fn total_value(&self) -> (r: u64)
        requires
            self.wf(),
        ensures
            r == sum_coins(self.coins@),
    {
        let n = self.coins.len();
        let mut acc: u64 = 0;
        let mut i: usize = 0;
        while i < n
            invariant
                self.wf(),
                n == self.coins@.len(),
                i <= n,
                acc == sum_coins(self.coins@.take(i as int)),
                acc <= MAX_MONEY,
            decreases n - i,
        {
            proof {
                assert(self.coins@.take(i + 1).drop_last() =~= self.coins@.take(i as int));
                assert(self.coins@.take(i + 1).last() == self.coins@[i as int]);
                lemma_sum_take_le(self.coins@, i + 1);
            }
            acc = acc + self.coins[i].amount;
            i = i + 1;
        }
        proof {
            assert(self.coins@.take(n as int) =~= self.coins@);
        }
        acc
    }

    pub open spec fn has_coin(self, op: OutPoint) -> bool {
        seq_has(self.coins@, op)
    }

    /// The coin recorded at `op`; meaningful only when `has_coin(op)`.
    pub open spec fn coin_at(self, op: OutPoint) -> Coin {
        self.coins@[choose|i: int| 0 <= i < self.coins@.len() && (#[trigger] self.coins@[i]).outpoint == op]
    }

    pub fn new() -> (r: CoinStore)
        ensures
            r.wf(),
            r.coins@.len() == 0,
    {
        CoinStore { coins: Vec::new() }
    }

    /// Index of the coin at `op`, if one is recorded.
    pub fn find_index(&self, op: OutPoint) -> (r: Option<usize>)
        ensures
            match r {
                Some(i) => i < self.coins@.len() && self.coins@[i as int].outpoint == op,
                None => !self.has_coin(op),
            },
    {
        let n = self.coins.len();
        let mut i: usize = 0;
        while i < n
            invariant
                n == self.coins@.len(),
                i <= n,
                forall|j: int| 0 <= j < i ==> (#[trigger] self.coins@[j]).outpoint != op,
            decreases n - i,
        {
            if self.coins[i].outpoint == op {
                return Some(i);
            }
            i = i + 1;
        }
        None
    }

    /// Upsert of a deposit report: creates the coin, or confirms a known
    /// unconfirmed one; never unseats a recorded spend. Returns whether the
    /// report was applied: a deposit that would push the total over the
    /// money supply is refused.
    pub fn apply_deposit(&mut self, d: &Deposit) -> (applied: bool)
        requires
            old(self).wf(),
        ensures
            final(self).wf(),
            final(self).coins@ == seq_after_deposit(old(self).coins@, *d),
            applied == (seq_has(old(self).coins@, d.outpoint) || sum_coins(old(self).coins@)
                + d.amount <= MAX_MONEY),
    {
        let idx = self.find_index(d.outpoint);
        match idx {
            Some(i) => {
                let c = self.coins[i];
                let c2 = if matches!(c.status, CoinStatus::Unconfirmed) && d.height.is_some() {
                    Coin {
                        status: CoinStatus::Confirmed,
                        confirmation_height: d.height,
                        ..c
                    }
                } else {
                    c
                };
                assert(c2 == dep_upd(c, *d));
                self.coins[i] = c2;
                proof {
                    assert(self.coins@ =~= seq_after_deposit(old(self).coins@, *d));
                    lemma_sum_amount_preserving(old(self).coins@, self.coins@);
                }
                true
            },
            None => {
                let tot = self.total_value();
                if (tot as u128) + (d.amount as u128) <= (MAX_MONEY as u128) {
                    let c2 = Coin {
                        outpoint: d.outpoint,
                        amount: d.amount,
                        derivation_index: d.derivation_index,
                        status: if d.height.is_some() {
                            CoinStatus::Confirmed
                        } else {
                            CoinStatus::Unconfirmed
                        },
                        confirmation_height: if d.height.is_some() {
                            d.height
                        } else {
                            None
                        },
                        spend_txid: None,
                    };
                    assert(c2 == dep_new(*d));
                    self.coins.push(c2);
                    proof {
                        assert(self.coins@ =~= seq_after_deposit(old(self).coins@, *d));
                        lemma_sum_push(old(self).coins@, dep_new(*d));
                    }
                    true
                } else {
                    proof {
                        assert(self.coins@ =~= seq_after_deposit(old(self).coins@, *d));
                    }
                    false
                }
            },
        }
    }

    /// Upsert of a confirmation report for the coin at `op`.
    pub fn apply_confirmation(&mut self, op: OutPoint, height: u32)
        requires
            old(self).wf(),
        ensures
            final(self).wf(),
            final(self).coins@ == seq_after_confirm(old(self).coins@, op, height),
    {
        let idx = self.find_index(op);
        match idx {
            Some(i) => {
                let c = self.coins[i];
                let c2 = if matches!(c.status, CoinStatus::Unconfirmed) {
                    Coin { status: CoinStatus::Confirmed, confirmation_height: Some(height), ..c }
                } else {
                    c
                };
                assert(c2 == conf_upd(c, height));
                self.coins[i] = c2;
                proof {
                    assert(self.coins@ =~= seq_after_confirm(old(self).coins@, op, height));
                    lemma_sum_amount_preserving(old(self).coins@, self.coins@);
                }
            },
            None => {
                proof {
                    assert(self.coins@ =~= seq_after_confirm(old(self).coins@, op, height));
                }
            },
        }
    }

    /// Upsert of an observed spend of the coin at `op` by `spender`.
    pub fn apply_spend(&mut self, op: OutPoint, spender: crate::types::Txid)
        requires
            old(self).wf(),
        ensures
            final(self).wf(),
            final(self).coins@ == seq_after_spend(old(self).coins@, op, spender),
    {
        let idx = self.find_index(op);
        match idx {
            Some(i) => {
                let c = self.coins[i];
                let c2 = if matches!(c.status, CoinStatus::Spent) {
                    c
                } else {
                    Coin { status: CoinStatus::Spending, spend_txid: Some(spender), ..c }
                };
                assert(c2 == spend_upd(c, spender));
                self.coins[i] = c2;
                proof {
                    assert(self.coins@ =~= seq_after_spend(old(self).coins@, op, spender));
                    lemma_sum_amount_preserving(old(self).coins@, self.coins@);
                }
            },
            None => {
                proof {
                    assert(self.coins@ =~= seq_after_spend(old(self).coins@, op, spender));
                }
            },
        }
    }

    /// Upsert: the spending transaction of the coin at `op` confirmed.
    pub fn apply_spend_confirmation(&mut self, op: OutPoint)
        requires
            old(self).wf(),
        ensures
            final(self).wf(),
            final(self).coins@ == seq_after_spent(old(self).coins@, op),
    {
        let idx = self.find_index(op);
        match idx {
            Some(i) => {
                let c = self.coins[i];
                let c2 = if matches!(c.status, CoinStatus::Spending) {
                    Coin { status: CoinStatus::Spent, ..c }
                } else {
                    c
                };
                assert(c2 == spent_upd(c));
                self.coins[i] = c2;
                proof {
                    assert(self.coins@ =~= seq_after_spent(old(self).coins@, op));
                    lemma_sum_amount_preserving(old(self).coins@, self.coins@);
                }
            },
            None => {
                proof {
                    assert(self.coins@ =~= seq_after_spent(old(self).coins@, op));
                }
            },
        }
    }

    /// Upsert of a reorg report that invalidated the spend of the coin.
    pub fn apply_reorg_revert(&mut self, op: OutPoint)
        requires
            old(self).wf(),
        ensures
            final(self).wf(),
            final(self).coins@ == seq_after_revert(old(self).coins@, op),
    {
        let idx = self.find_index(op);
        match idx {
            Some(i) => {
                let c = self.coins[i];
                let c2 = if matches!(c.status, CoinStatus::Spending) || matches!(
                    c.status,
                    CoinStatus::Spent,
                ) {
                    Coin {
                        status: if c.confirmation_height.is_some() {
                            CoinStatus::Confirmed
                        } else {
                            CoinStatus::Unconfirmed
                        },
                        spend_txid: None,
                        ..c
                    }
                } else {
                    c
                };
                assert(c2 == revert_upd(c));
                self.coins[i] = c2;
                proof {
                    assert(self.coins@ =~= seq_after_revert(old(self).coins@, op));
                    lemma_sum_amount_preserving(old(self).coins@, self.coins@);
                }
            },
            None => {
                proof {
                    assert(self.coins@ =~= seq_after_revert(old(self).coins@, op));
                }
            },
        }
    }
}

/// Whether the coin matches the two optional filter dimensions: an empty
/// filter sequence means no filter on that dimension, and both given means
/// their intersection.
pub open spec fn coin_matches(c: Coin, sts: Seq<CoinStatus>, ops: Seq<OutPoint>) -> bool {
    &&& (sts.len() == 0 || sts.contains(c.status))
    &&& (ops.len() == 0 || ops.contains(c.outpoint))
}

/// The subsequence of coins matching both filters, in store order.
pub open spec fn matching_coins(s: Seq<Coin>, sts: Seq<CoinStatus>, ops: Seq<OutPoint>) -> Seq<
    Coin,
>
    decreases s.len(),
{
    if s.len() == 0 {
        Seq::empty()
    } else {
        let prefix = matching_coins(s.drop_last(), sts, ops);
        if coin_matches(s.last(), sts, ops) {
            prefix.push(s.last())
        } else {
            prefix
        }
    }
}

/// Whether the status sequence holds `x`.
pub fn contains_status(v: &Vec<CoinStatus>, x: CoinStatus) -> (r: bool)
    ensures
        r == v@.contains(x),
{
    let n = v.len();
    let mut i: usize = 0;
    while i < n
        invariant
            n == v@.len(),
            i <= n,
            forall|j: int| 0 <= j < i ==> v@[j] != x,
        decreases n - i,
    {
        if v[i] == x {
            return true;
        }
        i = i + 1;
    }
    false
}

/// Whether the outpoint sequence holds `x`.
pub fn contains_outpoint(v: &Vec<OutPoint>, x: OutPoint) -> (r: bool)
    ensures
        r == v@.contains(x),
{
    let n = v.len();
    let mut i: usize = 0;
    while i < n
        invariant
            n == v@.len(),
            i <= n,
            forall|j: int| 0 <= j < i ==> v@[j] != x,
        decreases n - i,
    {
        if v[i] == x {
            return true;
        }
        i = i + 1;
    }
    false
}

impl CoinStore {
    /// Coins matching the two filters, in store order. Empty filter
    /// sequences mean no filter on that dimension.
    pub fn coins_matching(&self, statuses: &Vec<CoinStatus>, outpoints: &Vec<OutPoint>) -> (r: Vec<
        Coin,
    >)
        ensures
            r@ == matching_coins(self.coins@, statuses@, outpoints@),
    {
        let n = self.coins.len();
        let mut out: Vec<Coin> = Vec::new();
        let mut i: usize = 0;
        while i < n
            invariant
                n == self.coins@.len(),
                i <= n,
                out@ == matching_coins(self.coins@.take(i as int), statuses@, outpoints@),
            decreases n - i,
        {
            let c = self.coins[i];
            let st_ok = statuses.len() == 0 || contains_status(statuses, c.status);
            let op_ok = outpoints.len() == 0 || contains_outpoint(outpoints, c.outpoint);
            proof {
                assert(self.coins@.take(i + 1).drop_last() =~= self.coins@.take(i as int));
                assert(self.coins@.take(i + 1).last() == self.coins@[i as int]);
            }
            if st_ok && op_ok {
                out.push(c);
            }
            i = i + 1;
        }
        proof {
            assert(self.coins@.take(n as int) =~= self.coins@);
        }
        out
    }
}

/// In a well-formed store, a coin the store holds is the one recorded at
/// its outpoint.
pub proof fn lemma_coin_at_of_contains(st: CoinStore, c: Coin)
    requires
        st.wf(),
        st.coins@.contains(c),
    ensures
        st.has_coin(c.outpoint),
        st.coin_at(c.outpoint) == c,
{
    let i = choose|i: int| 0 <= i < st.coins@.len() && st.coins@[i] == c;
    assert(st.coins@[i].outpoint == c.outpoint);
    let j = choose|j: int|
        0 <= j < st.coins@.len() && (#[trigger] st.coins@[j]).outpoint == c.outpoint;
    assert(j == i);
}

// Idempotence: every mutator is an idempotent upsert keyed by outpoint, so
// replaying an overlapping range of chain history is safe.

/// Reporting the same deposit twice leaves the same store as reporting it
/// once.
pub proof fn lemma_deposit_idempotent(s: Seq<Coin>, d: Deposit)
    ensures
        seq_after_deposit(seq_after_deposit(s, d), d) == seq_after_deposit(s, d),
{
    let s1 = seq_after_deposit(s, d);
    if seq_has(s, d.outpoint) {
        let w = choose|i: int| 0 <= i < s.len() && (#[trigger] s[i]).outpoint == d.outpoint;
        assert(s1[w].outpoint == d.outpoint);
        assert(seq_has(s1, d.outpoint));
        assert(seq_after_deposit(s1, d) =~= s1);
    } else if sum_coins(s) + d.amount <= MAX_MONEY {
        assert(s1[s.len() as int] == dep_new(d));
        assert(seq_has(s1, d.outpoint));
        assert(seq_after_deposit(s1, d) =~= s1);
    } else {
        assert(s1 == s);
    }
}

/// Reporting the same confirmation twice leaves the same store as once.
pub proof fn lemma_confirmation_idempotent(s: Seq<Coin>, op: OutPoint, height: u32)
    ensures
        seq_after_confirm(seq_after_confirm(s, op, height), op, height) == seq_after_confirm(
            s,
            op,
            height,
        ),
{
    assert(seq_after_confirm(seq_after_confirm(s, op, height), op, height) =~= seq_after_confirm(
        s,
        op,
        height,
    ));
}

/// Reporting the same spend twice leaves the same store as once.
pub proof fn lemma_spend_idempotent(s: Seq<Coin>, op: OutPoint, spender: crate::types::Txid)
    ensures
        seq_after_spend(seq_after_spend(s, op, spender), op, spender) == seq_after_spend(
            s,
            op,
            spender,
        ),
{
    assert(seq_after_spend(seq_after_spend(s, op, spender), op, spender) =~= seq_after_spend(
        s,
        op,
        spender,
    ));
}

/// Reporting the spend confirmation twice leaves the same store as once.
pub proof fn lemma_spend_confirmation_idempotent(s: Seq<Coin>, op: OutPoint)
    ensures
        seq_after_spent(seq_after_spent(s, op), op) == seq_after_spent(s, op),
{
    assert(seq_after_spent(seq_after_spent(s, op), op) =~= seq_after_spent(s, op));
}

/// Reporting the same reorg revert twice leaves the same store as once.
pub proof fn lemma_revert_idempotent(s: Seq<Coin>, op: OutPoint)
    ensures
        seq_after_revert(seq_after_revert(s, op), op) == seq_after_revert(s, op),
{
    assert(seq_after_revert(seq_after_revert(s, op), op) =~= seq_after_revert(s, op));
}

} // verus!
