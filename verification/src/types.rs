//! Plain data the engine works on: identifiers, coins, destinations, drafts,
//! chain events and the error taxonomy.

use vstd::prelude::*;

verus! {

/// Total number of satoshis that can ever exist; no wallet controls more.
pub const MAX_MONEY: u64 = 2_100_000_000_000_000;

/// Largest target feerate the engine accepts, in satoshis per virtual
/// byte. This is a machine limit, not a policy: with the feerate capped
/// here and input and output counts bounded by a machine word, every
/// `feerate * vsize` product stays far below `u128::MAX`, which is what
/// the selector's overflow lemmas rest on.
pub const MAX_FEERATE: u64 = 10_000;

/// Longest label value accepted, in characters.
pub const MAX_LABEL_LEN: usize = 100;

/// A transaction identifier: the 32-byte hash as four 64-bit words, the first
/// word holding the first eight bytes little-endian, and so on.
#[derive(Clone, Copy, PartialEq, Eq, Structural, Hash, Debug)]
pub struct Txid {
    pub w0: u64,
    pub w1: u64,
    pub w2: u64,
    pub w3: u64,
}

/// A reference to one output of a transaction.
#[derive(Clone, Copy, PartialEq, Eq, Structural, Hash, Debug)]
pub struct OutPoint {
    pub txid: Txid,
    pub vout: u32,
}

/// Where a coin stands in its lifecycle. A coin that is `Spending` or `Spent`
/// is never selectable for a new spend or a recovery sweep.
#[derive(Clone, Copy, PartialEq, Eq, Structural, Debug)]
pub enum CoinStatus {
    Unconfirmed,
    Confirmed,
    Spending,
    Spent,
}

/// One UTXO paying the wallet descriptor.
#[derive(Clone, Copy, Debug)]
pub struct Coin {
    pub outpoint: OutPoint,
    pub amount: u64,
    pub derivation_index: u32,
    pub status: CoinStatus,
    /// Height of the block that confirmed the coin, absent while unconfirmed.
    pub confirmation_height: Option<u32>,
    /// Transaction observed to spend the coin, absent while the coin is free.
    pub spend_txid: Option<Txid>,
}

/// Internal consistency of one coin record.
pub open spec fn coin_ok(c: Coin) -> bool {
    &&& (c.status == CoinStatus::Confirmed ==> c.confirmation_height is Some)
    &&& (c.status == CoinStatus::Spending || c.status == CoinStatus::Spent
        ==> c.spend_txid is Some)
    &&& (c.status == CoinStatus::Unconfirmed ==> c.confirmation_height is None)
}

/// One requested payment: a destination address and an amount in satoshis.
#[derive(Debug)]
pub struct Dest {
    pub address: String,
    pub amount: u64,
}

impl Clone for Dest {
    fn clone(&self) -> (r: Dest)
        ensures
            r == *self,
    {
        Dest { address: self.address.clone(), amount: self.amount }
    }
}

/// A candidate spend transaction under construction: unsigned or partially
/// signed, stored until broadcast or deletion.
#[derive(Debug)]
pub struct Draft {
    /// Transaction id of the unsigned transaction; the draft's key.
    pub txid: Txid,
    /// Outpoints the transaction consumes; soft-reserved while the draft lives.
    pub inputs: Vec<OutPoint>,
    /// Destinations, with the change output last when one exists.
    pub outputs: Vec<Dest>,
    /// Index into `outputs` of the change output, when one exists.
    pub change_index: Option<usize>,
    /// Feerate the draft was built for, in satoshis per virtual byte.
    pub feerate: u64,
    /// Fee paid by the transaction, in satoshis.
    pub fee: u64,
    /// Serialized signature-bearing payload, replaced by signature merges.
    pub payload: Vec<u8>,
}

/// Value-level agreement of two drafts.
pub open spec fn draft_like(a: Draft, b: Draft) -> bool {
    &&& a.txid == b.txid
    &&& a.inputs@ == b.inputs@
    &&& a.outputs@ == b.outputs@
    &&& a.change_index == b.change_index
    &&& a.feerate == b.feerate
    &&& a.fee == b.fee
    &&& a.payload@ == b.payload@
}

impl Clone for Draft {
    fn clone(&self) -> (r: Draft)
        ensures
            draft_like(r, *self),
    {
        let inputs = self.inputs.clone();
        let outputs = self.outputs.clone();
        let payload = self.payload.clone();
        proof {
            assert(inputs@ =~= self.inputs@);
            assert(outputs@ =~= self.outputs@);
            assert(payload@ =~= self.payload@);
        }
        Draft {
            txid: self.txid,
            inputs,
            outputs,
            change_index: self.change_index,
            feerate: self.feerate,
            fee: self.fee,
            payload,
        }
    }
}

/// A deposit to the wallet reported by the chain: an output paying the
/// wallet descriptor, possibly already confirmed.
#[derive(Clone, Copy, Debug)]
pub struct Deposit {
    pub outpoint: OutPoint,
    pub amount: u64,
    pub derivation_index: u32,
    pub height: Option<u32>,
}

/// One fact about a wallet coin discovered by chain replay or chain sync.
#[derive(Clone, Copy, Debug)]
pub enum ChainEvent {
    /// An output paying the wallet was seen (new or already known).
    Funded(Deposit),
    /// The coin's funding transaction was confirmed at this height.
    ConfirmedAt(OutPoint, u32),
    /// A transaction spending the coin was seen in the mempool or a block.
    SpendSeen(OutPoint, Txid),
    /// The transaction spending the coin was confirmed.
    SpendConfirmed(OutPoint),
    /// A reorg invalidated the spend of the coin.
    SpendReverted(OutPoint),
}

/// One wallet-relevant transaction as chain replay reports it.
#[derive(Clone, Copy, Debug)]
pub struct TxRecord {
    pub txid: Txid,
    /// Height of the confirming block, absent while unconfirmed.
    pub height: Option<u32>,
    /// Block time of the confirming block, absent while unconfirmed.
    pub time: Option<u32>,
}

/// Outcome of handing a transaction to the node for broadcast.
#[derive(Clone, Debug)]
pub enum NodeResponse {
    Accepted,
    Rejected(String),
    Unavailable,
}

/// Every way an engine operation can fail. Each operation either fully
/// succeeds or fails with one of these and leaves the state unchanged,
/// except where a contract says the draft is kept for retry.
#[derive(Clone, Debug)]
pub enum WalletError {
    /// Malformed or out-of-range request input; nothing was mutated.
    InvalidParams(String),
    /// A requested outpoint is not currently spendable.
    InvalidOutpoint(OutPoint),
    /// No stored draft carries the given transaction id.
    UnknownSpend(Txid),
    /// An update tried to respend a different input set than the stored draft.
    InputSetMismatch,
    /// No subset of the spendable coins covers the target plus fee.
    InsufficientFunds,
    /// No coin's recovery timelock has matured at the given threshold.
    NoMaturedCoins,
    /// Broadcast was asked for a draft that is not fully signed.
    IncompleteSignatures,
    /// The node refused the transaction; the draft is kept for retry.
    BroadcastRejected(String),
    /// A rescan is already running; a new one is rejected, not queued.
    RescanAlreadyInProgress,
    /// A rescan step was handed in while no rescan is running.
    NoRescanInProgress,
    /// The node could not be reached; the state is unchanged and the call
    /// may be retried.
    NodeUnavailable,
    /// A draft with this transaction id is already stored. Ids come from
    /// the transaction hash, and two drafts can never consume the same input
    /// set, so this is never reached when ids are computed from the drafts.
    DuplicateDraftId(Txid),
}

} // verus!
