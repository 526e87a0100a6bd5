//! The boundary to the bitcoin library: address validation, transaction
//! serialization and hashing, and PSBT decoding. Each item here is trusted;
//! its contract names what the call returns and claims nothing more.

use vstd::prelude::*;
use vstd::string::StringSliceAdditionalSpecFns;

use std::str::FromStr;

use miniscript::bitcoin;
use miniscript::bitcoin::absolute::LockTime;
use miniscript::bitcoin::consensus::encode::serialize as serialize_tx;
use miniscript::bitcoin::hashes::Hash as BitcoinHashTrait;
use miniscript::bitcoin::psbt::PartiallySignedTransaction as Psbt;
use miniscript::bitcoin::{Address, Network, OutPoint as BOutPoint, Transaction, TxIn, TxOut, Txid as BTxid};

use crate::coin_store::sum_coins;
use crate::engine::{
    all_requested_ok, candidate_set, dest_total, has_draft, lemma_coins_where,
    lemma_distinct_step, ops_distinct, params_ok, same_aux, selectable_coin, selectable_op,
    sum_outpoints, WalletEngine,
};
use crate::select::{fee_for, select_coins, spec_dust_threshold, spec_selection};
use crate::types::{draft_like, Coin, Dest, Draft, OutPoint, Txid, WalletError, MAX_FEERATE};

verus! {

/// Whether the string parses as a bitcoin address, of any network.
pub uninterp spec fn addr_parse_ok(s: Seq<char>) -> bool;

/// Whether the string parses as a bitcoin address valid for the main
/// network (or, when `mainnet` is false, for the regression-test network).
pub uninterp spec fn addr_ok(s: Seq<char>, mainnet: bool) -> bool;

/// The consensus serialization of the unsigned transaction with the given
/// inputs and outputs.
pub uninterp spec fn tx_bytes_of(inputs: Seq<OutPoint>, outputs: Seq<(Seq<char>, u64)>) -> Seq<
    u8,
>;

/// The transaction id of the transaction these bytes serialize: the double
/// SHA-256 of the bytes, a function of the bytes alone.
pub uninterp spec fn txid_hash(b: Seq<u8>) -> Txid;

/// What a PSBT string decodes to: the unsigned transaction's id, its input
/// outpoints in order, and the full serialized form.
pub uninterp spec fn psbt_of(s: Seq<char>) -> Option<(Txid, Seq<OutPoint>, Seq<u8>)>;

/// The address and amount of each output.
pub open spec fn dest_views(s: Seq<Dest>) -> Seq<(Seq<char>, u64)> {
    s.map(|i: int, d: Dest| (d.address@, d.amount))
}

/// Relies on bitcoin's `Address::from_str`: whether the string is a
/// well-formed address of any network, a function of the string alone.
#[verifier::external_body]
pub fn address_parseable(s: &str) -> (r: bool)
    ensures
        r == addr_parse_ok(s@),
{
    Address::from_str(s).is_ok()
}

/// Relies on bitcoin's `Address::from_str` and `is_valid_for_network`:
/// whether the string is an address valid for the chosen network, a
/// function of the string and the network alone.
#[verifier::external_body]
pub fn address_valid(s: &str, mainnet: bool) -> (r: bool)
    ensures
        r == addr_ok(s@, mainnet),
{
    let net = if mainnet {
        Network::Bitcoin
    } else {
        Network::Regtest
    };
    match Address::from_str(s) {
        Ok(a) => a.is_valid_for_network(net),
        Err(_) => false,
    }
}

/// Relies on bitcoin's `Transaction` encoding via `consensus::encode::serialize`:
/// the serialization of the version-2 unsigned transaction over exactly
/// these inputs and outputs, a function of its arguments alone. Transaction
/// ids travel as 64-bit words of the display-order bytes, little-endian
/// within each word.
#[verifier::external_body]
pub fn unsigned_tx_bytes(inputs: &Vec<OutPoint>, outputs: &Vec<Dest>) -> (r: Vec<u8>)
    requires
        forall|i: int| 0 <= i < outputs@.len() ==> addr_parse_ok(#[trigger] outputs@[i].address@),
    ensures
        r@ == tx_bytes_of(inputs@, dest_views(outputs@)),
{
    let tx = Transaction {
        version: 2,
        lock_time: LockTime::ZERO,
        input: inputs.iter().map(|o| {
            let mut d = [0u8; 32];
            for k in 0..4 { d[8 * k..8 * k + 8].copy_from_slice(&[o.txid.w3, o.txid.w2, o.txid.w1, o.txid.w0][k].to_be_bytes()); }
            TxIn { previous_output: BOutPoint { txid: BTxid::from_byte_array(d), vout: o.vout }, ..Default::default() }
        }).collect(),
        output: outputs.iter().map(|d2| TxOut { value: d2.amount, script_pubkey: Address::from_str(&d2.address).unwrap().assume_checked().script_pubkey() }).collect(),
    };
    serialize_tx(&tx)
}

/// Relies on bitcoin's `Txid` hash: the double SHA-256 of the bytes,
/// returned as display-order words, a function of the bytes alone.
#[verifier::external_body]
pub fn txid_of_bytes(b: &Vec<u8>) -> (r: Txid)
    ensures
        r == txid_hash(b@),
{
    let d = BTxid::hash(b.as_slice()).to_byte_array();
    Txid { w0: u64::from_be_bytes(d[24..32].try_into().unwrap()), w1: u64::from_be_bytes(d[16..24].try_into().unwrap()), w2: u64::from_be_bytes(d[8..16].try_into().unwrap()), w3: u64::from_be_bytes(d[0..8].try_into().unwrap()) }
}

/// Relies on bitcoin's `PartiallySignedTransaction::from_str` and
/// `serialize`: the decoded unsigned transaction's id, its input outpoints
/// in order, and the serialized form, a function of the string alone.
#[verifier::external_body]
pub fn parse_psbt(s: &str) -> (r: Option<(Txid, Vec<OutPoint>, Vec<u8>)>)
    ensures
        match r {
            Some(p) => psbt_of(s@) == Some((p.0, p.1@, p.2@)),
            None => psbt_of(s@) is None,
        },
{
    let cv = |t: BTxid| {
        let d = t.to_byte_array();
        Txid { w0: u64::from_be_bytes(d[24..32].try_into().unwrap()), w1: u64::from_be_bytes(d[16..24].try_into().unwrap()), w2: u64::from_be_bytes(d[8..16].try_into().unwrap()), w3: u64::from_be_bytes(d[0..8].try_into().unwrap()) }
    };
    match Psbt::from_str(s) {
        Err(_) => None,
        Ok(p) => Some((
            cv(p.unsigned_tx.txid()),
            p.unsigned_tx.input.iter().map(|i| OutPoint { txid: cv(i.previous_output.txid), vout: i.previous_output.vout }).collect(),
            p.serialize(),
        )),
    }
}

/// Whether every destination address is a well-formed bitcoin address.
pub open spec fn dests_parseable(s: Seq<Dest>) -> bool {
    forall|i: int| 0 <= i < s.len() ==> addr_parse_ok((#[trigger] s[i]).address@)
}

/// A selection the greedy pass could have produced: distinct coins drawn
/// from the candidate set whose value exactly covers the destinations, the
/// change and the fee, under the selector's fee rules.
pub open spec fn covering_selection(
    e: WalletEngine,
    dests: Seq<Dest>,
    ops: Seq<OutPoint>,
    feerate: u64,
    coins: Seq<Coin>,
    change: Option<u64>,
    fee: u64,
) -> bool {
    &&& coins.len() >= 1
    &&& forall|a: int, b: int|
        0 <= a < b < coins.len() ==> (#[trigger] coins[a]).outpoint != (
        #[trigger] coins[b]).outpoint
    &&& forall|a: int| 0 <= a < coins.len() ==> candidate_set(e, ops).contains(#[trigger] coins[a])
    &&& sum_coins(coins) == dest_total(dests) + fee + (match change {
        Some(c) => c as int,
        None => 0,
    })
    &&& (change is Some ==> fee == fee_for(feerate, coins.len() as int, dests.len() as int + 1))
    &&& (change is None ==> fee >= fee_for(feerate, coins.len() as int, dests.len() as int))
}

/// The id of the unsigned transaction such a selection builds: the
/// destinations followed by the change output paying `change_addr`, when
/// one exists.
pub open spec fn selection_txid(
    dests: Seq<Dest>,
    coins: Seq<Coin>,
    change: Option<u64>,
    change_addr: Seq<char>,
) -> Txid {
    txid_hash(
        tx_bytes_of(
            crate::engine::outpoints_of(coins),
            dest_views(dests) + (match change {
                Some(c) => seq![(change_addr, c)],
                None => Seq::<(Seq<char>, u64)>::empty(),
            }),
        ),
    )
}

/// Exactly which failures a spend creation may report over the engine
/// state and the decoded request, and on which inputs each one comes.
pub open spec fn spend_err_ok(
    e: WalletEngine,
    dests: Seq<Dest>,
    ops: Seq<OutPoint>,
    feerate: u64,
    we: WalletError,
) -> bool {
    &&& (we is InvalidParams <==> !params_ok(dests, feerate, ops) || !dests_parseable(dests)
        || !addr_parse_ok(e.change_address@))
    &&& (we is InvalidOutpoint ==> !all_requested_ok(e, ops))
    &&& (params_ok(dests, feerate, ops) && dests_parseable(dests) && addr_parse_ok(
        e.change_address@,
    ) && !all_requested_ok(e, ops) ==> we is InvalidOutpoint)
    &&& (we is InsufficientFunds ==> sum_coins(candidate_set(e, ops)) < dest_total(dests)
        + fee_for(feerate, candidate_set(e, ops).len() as int, dests.len() as int)
        && spec_selection(
        candidate_set(e, ops),
        dest_total(dests) as u64,
        dests.len() as int,
        feerate,
    ) is None)
    &&& (we matches WalletError::DuplicateDraftId(t) ==> has_draft(e, t) && (exists|
        coins: Seq<Coin>,
        change: Option<u64>,
        fee: u64,
    |
        #[trigger] covering_selection(e, dests, ops, feerate, coins, change, fee) && t
            == selection_txid(dests, coins, change, e.change_address@)))
    &&& (we is InvalidParams || we is InvalidOutpoint || we is InsufficientFunds
        || we is DuplicateDraftId)
}

impl WalletEngine {
    /// Builds, reserves and stores a new spend draft: selects coins at
    /// `feerate` to cover `destinations` (an empty `candidate_ops` lets the
    /// selector draw on every spendable coin, a non-empty one restricts it
    /// to those outpoints), serializes the unsigned transaction, and keys
    /// the draft by that transaction's id.
    #[verifier::rlimit(100)]
    pub fn create_spend(
        &mut self,
        destinations: &Vec<Dest>,
        candidate_ops: &Vec<OutPoint>,
        feerate: u64,
    ) -> (r: Result<Draft, WalletError>)
        requires
            old(self).wf(),
        ensures
            final(self).wf(),
            same_aux(*final(self), *old(self)),
            final(self).store == old(self).store,
            match r {
                Ok(d) => {
                    &&& final(self).drafts@.len() == old(self).drafts@.len() + 1
                    &&& final(self).drafts@.drop_last() == old(self).drafts@
                    &&& draft_like(d, final(self).drafts@.last())
                    &&& d.payload@ == tx_bytes_of(d.inputs@, dest_views(d.outputs@))
                    &&& d.txid == txid_hash(d.payload@)
                    &&& !has_draft(*old(self), d.txid)
                    &&& d.feerate == feerate
                    &&& params_ok(destinations@, feerate, candidate_ops@)
                    &&& dests_parseable(destinations@)
                    &&& all_requested_ok(*old(self), candidate_ops@)
                    &&& d.inputs@.len() >= 1
                    &&& ops_distinct(d.inputs@)
                    &&& forall|a: int|
                        0 <= a < d.inputs@.len() ==> selectable_op(
                            *old(self),
                            #[trigger] d.inputs@[a],
                        )
                    &&& (candidate_ops@.len() > 0 ==> forall|a: int|
                        0 <= a < d.inputs@.len() ==> candidate_ops@.contains(
                            #[trigger] d.inputs@[a],
                        ))
                    &&& sum_outpoints(old(self).store, d.inputs@) == dest_total(d.outputs@) + d.fee
                    &&& forall|i: int|
                        0 <= i < destinations@.len() ==> #[trigger] d.outputs@[i]
                            == destinations@[i]
                    &&& (d.change_index is Some ==> d.outputs@.len() == destinations@.len() + 1
                        && d.change_index == Some(destinations@.len() as usize)
                        && d.outputs@.last().address == old(self).change_address
                        && d.outputs@.last().amount >= spec_dust_threshold(feerate) && d.fee
                        == fee_for(feerate, d.inputs@.len() as int, d.outputs@.len() as int))
                    &&& (d.change_index is None ==> d.outputs@.len() == destinations@.len()
                        && d.fee >= fee_for(feerate, d.inputs@.len() as int, d.outputs@.len() as int)
                        && d.fee < fee_for(
                            feerate,
                            d.inputs@.len() as int,
                            d.outputs@.len() as int + 1,
                        ) + spec_dust_threshold(feerate))
                    &&& (spec_selection(
                        candidate_set(*old(self), candidate_ops@),
                        dest_total(destinations@) as u64,
                        destinations@.len() as int,
                        feerate,
                    ) matches Some(tr) && d.inputs@ == crate::engine::outpoints_of(tr.0) && d.fee
                        == tr.2 && (d.change_index is Some <==> tr.1 is Some) && (
                    tr.1 matches Some(cv) ==> d.outputs@.last().amount == cv))
                },
                Err(e) => {
                    &&& *final(self) == *old(self)
                    &&& spend_err_ok(*old(self), destinations@, candidate_ops@, feerate, e)
                },
            },
    {
        // request-level validation
        let dt_opt = Self::check_dests(destinations);
        let m = candidate_ops.len();
        let mut dup = false;
        let mut seen: Vec<OutPoint> = Vec::new();
        let mut i: usize = 0;
        while i < m
            invariant
                m == candidate_ops@.len(),
                i <= m,
                seen@ == candidate_ops@.take(i as int),
                dup == !ops_distinct(candidate_ops@.take(i as int)),
            decreases m - i,
        {
            proof {
                lemma_distinct_step(candidate_ops@, i as int);
                assert(candidate_ops@.take(i + 1).drop_last() =~= candidate_ops@.take(i as int));
                assert(candidate_ops@.take(i + 1).last() == candidate_ops@[i as int]);
            }
            if crate::coin_store::contains_outpoint(&seen, candidate_ops[i]) {
                dup = true;
            }
            seen.push(candidate_ops[i]);
            i = i + 1;
        }
        proof {
            assert(candidate_ops@.take(m as int) =~= candidate_ops@);
        }
        let feerate_ok = 1 <= feerate && feerate <= MAX_FEERATE;
        let change_ok = address_parseable(&self.change_address);
        let nd = destinations.len();
        let mut all_parse = true;
        let mut ia: usize = 0;
        while ia < nd
            invariant
                nd == destinations@.len(),
                ia <= nd,
                all_parse == (forall|j: int|
                    0 <= j < ia ==> addr_parse_ok((#[trigger] destinations@[j]).address@)),
            decreases nd - ia,
        {
            if !address_parseable(&destinations[ia].address) {
                all_parse = false;
            }
            ia = ia + 1;
        }
        let dt = match dt_opt {
            Some(t) => t,
            None => 0,
        };
        if dt_opt.is_none() || !feerate_ok || dup || !all_parse || !change_ok {
            return Err(WalletError::InvalidParams("destinations, feerate or outpoints".to_owned()));
        }

        // availability of every requested outpoint
        let mut i2: usize = 0;
        while i2 < m
            invariant
                old(self) == self,
                self.wf(),
                m == candidate_ops@.len(),
                i2 <= m,
                params_ok(destinations@, feerate, candidate_ops@),
                dests_parseable(destinations@),
                addr_parse_ok(self.change_address@),
                forall|a: int|
                    0 <= a < i2 ==> selectable_op(*self, #[trigger] candidate_ops@[a]),
            decreases m - i2,
        {
            let op = candidate_ops[i2];
            let found = self.store.find_index(op);
            match found {
                None => {
                    proof {
                        assert(!selectable_op(*self, candidate_ops@[i2 as int]));
                        assert(!all_requested_ok(*self, candidate_ops@));
                    }
                    return Err(WalletError::InvalidOutpoint(op));
                },
                Some(ci) => {
                    let c = self.store.coins[ci];
                    proof {
                        assert(self.store.coins@.contains(c));
                        crate::coin_store::lemma_coin_at_of_contains(self.store, c);
                    }
                    if !Self::status_selectable(&c) || self.is_reserved(op) {
                        proof {
                            assert(!selectable_op(*self, candidate_ops@[i2 as int]));
                            assert(!all_requested_ok(*self, candidate_ops@));
                        }
                        return Err(WalletError::InvalidOutpoint(op));
                    }
                    proof {
                        assert(selectable_op(*self, op));
                    }
                },
            }
            i2 = i2 + 1;
        }

        // coin selection over the candidate set
        let cands = if m == 0 {
            self.spendable_coins()
        } else {
            self.requested_coins(candidate_ops)
        };
        proof {
            assert(cands@ == candidate_set(*self, candidate_ops@));
            if m == 0 {
                lemma_coins_where(self.store.coins@, |c: Coin| selectable_coin(*self, c));
            } else {
                lemma_coins_where(
                    self.store.coins@,
                    |c: Coin| candidate_ops@.contains(c.outpoint) && selectable_coin(*self, c),
                );
            }
        }
        proof {
            assert(dt == dest_total(destinations@) as u64);
        }
        let sel = match select_coins(&cands, dt, destinations.len(), feerate) {
            Ok(s) => s,
            Err(_) => {
                return Err(WalletError::InsufficientFunds);
            },
        };

        // serialize the unsigned transaction and hash its id
        let k = sel.coins.len();
        let mut inputs: Vec<OutPoint> = Vec::new();
        let mut a: usize = 0;
        while a < k
            invariant
                k == sel.coins@.len(),
                a <= k,
                inputs@.len() == a,
                forall|b: int| 0 <= b < a ==> #[trigger] inputs@[b] == sel.coins@[b].outpoint,
            decreases k - a,
        {
            inputs.push(sel.coins[a].outpoint);
            a = a + 1;
        }
        let mut outputs = destinations.clone();
        proof {
            assert(outputs@ =~= destinations@);
        }
        match sel.change_amount {
            Some(ch) => {
                outputs.push(Dest { address: self.change_address.clone(), amount: ch });
            },
            None => {},
        }
        let payload = unsigned_tx_bytes(&inputs, &outputs);
        let txid = txid_of_bytes(&payload);
        let ghost pay_view = payload@;

        // establish the selection facts the storing step relies on
        proof {
            assert forall|a2: int|
                0 <= a2 < sel.coins@.len() implies selectable_coin(*self, #[trigger] sel.coins@[a2])
                && self.store.coins@.contains(sel.coins@[a2]) && (candidate_ops@.len() == 0
                || candidate_ops@.contains(sel.coins@[a2].outpoint)) by {
                let w = choose|w: int| 0 <= w < cands@.len() && cands@[w] == sel.coins@[a2];
                if m == 0 {
                    let p = |c: Coin| selectable_coin(*self, c);
                    assert(p(cands@[w]));
                } else {
                    let p = |c: Coin| candidate_ops@.contains(c.outpoint) && selectable_coin(
                        *self,
                        c,
                    );
                    assert(p(cands@[w]));
                }
            }
        }
        let ghost sel_snapshot = sel.coins@;
        let ghost change_snapshot = sel.change_amount;
        let ghost fee_snapshot = sel.fee;
        proof {
            assert(covering_selection(
                *self,
                destinations@,
                candidate_ops@,
                feerate,
                sel_snapshot,
                change_snapshot,
                fee_snapshot,
            ));
            assert(inputs@ =~= crate::engine::outpoints_of(sel_snapshot));
            match change_snapshot {
                Some(c) => {
                    assert(dest_views(outputs@) =~= dest_views(destinations@) + seq![
                        (self.change_address@, c),
                    ]);
                },
                None => {
                    assert(dest_views(outputs@) =~= dest_views(destinations@) + Seq::<
                        (Seq<char>, u64),
                    >::empty());
                },
            }
            assert(txid == selection_txid(
                destinations@,
                sel_snapshot,
                change_snapshot,
                self.change_address@,
            ));
        }
        match self.store_spend(destinations, feerate, sel, txid, payload) {
            Err(e) => Err(e),
            Ok(d) => {
                proof {
                    assert(d.inputs@ =~= inputs@);
                    assert(d.outputs@ =~= outputs@);
                    assert(dest_views(d.outputs@) =~= dest_views(outputs@));
                    assert(spec_selection(
                        candidate_set(*old(self), candidate_ops@),
                        dest_total(destinations@) as u64,
                        destinations@.len() as int,
                        feerate,
                    ) == Some((sel_snapshot, change_snapshot, fee_snapshot)));
                    assert(inputs@ =~= crate::engine::outpoints_of(sel_snapshot));
                }
                Ok(d)
            },
        }
    }
}

} // verus!
