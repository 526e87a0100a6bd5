//! The request/response protocol surface: one operation per named command,
//! every field validated strictly before it reaches the engine, unknown
//! command names failing with a method-not-found condition, and every
//! failure leaving the wallet state untouched.

use vstd::prelude::*;
use vstd::string::StringSliceAdditionalSpecFns;

use crate::btc::{addr_ok, parse_psbt, psbt_of};
use crate::engine::{dest_total, drafts_without, has_draft, sum_outpoints, WalletEngine};
use crate::labels::label_of;
use crate::parse::{is_outpoint_str, is_txid_hex, parse_outpoint, parse_txid, spec_outpoint_of, spec_txid_of_hex};
use crate::types::{
    draft_like, Coin, CoinStatus, Dest, Draft, NodeResponse, OutPoint, TxRecord, WalletError,
};

verus! {

/// One JSON leaf value, as far as the protocol reads it. Anything deeper
/// or stranger arrives as `Other` and is rejected where a field needs it.
#[derive(Clone, Debug)]
pub enum JsonScalar {
    Null,
    Bool(bool),
    UInt(u64),
    Str(String),
    Other,
}

/// One JSON parameter value: a leaf, an array of leaves, or an object of
/// leaves.
#[derive(Clone, Debug)]
pub enum JsonVal {
    Scalar(JsonScalar),
    Arr(Vec<JsonScalar>),
    Obj(Vec<(String, JsonScalar)>),
    Other,
}

/// The parameters of a request: by position or by name.
#[derive(Clone, Debug)]
pub enum ReqParams {
    ByPosition(Vec<JsonVal>),
    ByName(Vec<(String, JsonVal)>),
}

/// One protocol request.
#[derive(Debug)]
pub struct Request {
    pub id: u64,
    pub method: String,
    pub params: Option<ReqParams>,
}

/// A protocol failure: a stable condition, with a human-readable reason
/// naming the offending field where parameters were at fault.
#[derive(Clone, Debug)]
pub enum RpcError {
    MethodNotFound,
    InvalidParams(String),
    Command(WalletError),
}

/// What a successful command returns.
#[derive(Debug)]
pub enum CommandOutput {
    Empty,
    SpendDraft(Draft),
    Coins(Vec<Coin>),
    Drafts(Vec<Draft>),
    Txs(Vec<TxRecord>),
    Labels(Vec<(String, String)>),
    Info(WalletInfo),
    Address(u32),
}

/// The daemon's summary state.
#[derive(Clone, Copy, Debug)]
pub struct WalletInfo {
    pub tip_height: u32,
    pub rescan_timestamp: Option<u32>,
    pub rescan_progress: Option<u32>,
    pub coin_count: usize,
    pub draft_count: usize,
}

/// One protocol response.
#[derive(Debug)]
pub struct Response {
    pub id: u64,
    pub output: CommandOutput,
}

/// The value stored under a name, first match in order.
pub open spec fn named_of(kvs: Seq<(String, JsonVal)>, k: Seq<char>) -> Option<JsonVal>
    decreases kvs.len(),
{
    if kvs.len() == 0 {
        None
    } else {
        let r = named_of(kvs.drop_last(), k);
        if r is Some {
            r
        } else if kvs.last().0@ == k {
            Some(kvs.last().1)
        } else {
            None
        }
    }
}

/// The parameter at a position or under a name.
pub open spec fn spec_get(p: ReqParams, idx: int, name: Seq<char>) -> Option<JsonVal> {
    match p {
        ReqParams::ByPosition(v) => if 0 <= idx < v@.len() {
            Some(v@[idx])
        } else {
            None
        },
        ReqParams::ByName(kvs) => named_of(kvs@, name),
    }
}

/// Looks a parameter up by position or by name.
pub fn get_param<'a>(p: &'a ReqParams, idx: usize, name: &String) -> (r: Option<&'a JsonVal>)
    ensures
        match r {
            Some(v) => spec_get(*p, idx as int, name@) == Some(*v),
            None => spec_get(*p, idx as int, name@) is None,
        },
{
    match p {
        ReqParams::ByPosition(v) => {
            if idx < v.len() {
                Some(&v[idx])
            } else {
                None
            }
        },
        ReqParams::ByName(kvs) => {
            let n = kvs.len();
            let mut i: usize = 0;
            while i < n
                invariant
                    *p == ReqParams::ByName(*kvs),
                    n == kvs@.len(),
                    i <= n,
                    named_of(kvs@.take(i as int), name@) is None,
                decreases n - i,
            {
                proof {
                    assert(kvs@.take(i + 1).drop_last() =~= kvs@.take(i as int));
                    assert(kvs@.take(i + 1).last() == kvs@[i as int]);
                }
                if kvs[i].0 == *name {
                    proof {
                        lemma_named_of_extend(kvs@, i + 1, name@);
                    }
                    return Some(&kvs[i].1);
                }
                i = i + 1;
            }
            proof {
                assert(kvs@.take(n as int) =~= kvs@);
            }
            None
        },
    }
}

/// A name found in a prefix is the lookup's answer.
pub proof fn lemma_named_of_extend(kvs: Seq<(String, JsonVal)>, t: int, k: Seq<char>)
    requires
        0 <= t <= kvs.len(),
        named_of(kvs.take(t), k) is Some,
    ensures
        named_of(kvs, k) == named_of(kvs.take(t), k),
    decreases kvs.len() - t,
{
    if t == kvs.len() {
        assert(kvs.take(t) =~= kvs);
    } else {
        assert(kvs.take(t + 1).drop_last() =~= kvs.take(t));
        lemma_named_of_extend(kvs, t + 1, k);
    }
}

/// Whether a label value is acceptable: free text of at most
/// `MAX_LABEL_LEN` characters.
pub open spec fn label_value_ok(sc: JsonScalar) -> bool {
    match sc {
        JsonScalar::Str(s) => s@.len() <= crate::types::MAX_LABEL_LEN,
        _ => false,
    }
}

/// Whether a label item string names an address of the wallet's network, a
/// transaction id, or an outpoint.
pub open spec fn label_item_ok(k: Seq<char>, mainnet: bool) -> bool {
    addr_ok(k, mainnet) || is_txid_hex(vstd::utf8::encode_utf8(k)) || is_outpoint_str(
        vstd::utf8::encode_utf8(k),
    )
}

/// Whether every entry of a labels object is acceptable.
pub open spec fn labels_obj_ok(kvs: Seq<(String, JsonScalar)>, mainnet: bool) -> bool {
    forall|i: int|
        0 <= i < kvs.len() ==> label_value_ok((#[trigger] kvs[i]).1) && label_item_ok(
            kvs[i].0@,
            mainnet,
        )
}

/// The answer a label query returns: for each queried item with a stored
/// label, in query order, the item and its value.
pub open spec fn found_labels(labels: Seq<(String, String)>, items: Seq<String>) -> Seq<
    (Seq<char>, Seq<char>),
>
    decreases items.len(),
{
    if items.len() == 0 {
        Seq::empty()
    } else {
        let prefix = found_labels(labels, items.drop_last());
        match label_of(labels, items.last()@) {
            Some(v) => prefix.push((items.last()@, v)),
            None => prefix,
        }
    }
}


/// The coin status a protocol string names, if any.
pub open spec fn status_of_str(s: Seq<char>) -> Option<CoinStatus> {
    if s == "unconfirmed"@ {
        Some(CoinStatus::Unconfirmed)
    } else if s == "confirmed"@ {
        Some(CoinStatus::Confirmed)
    } else if s == "spending"@ {
        Some(CoinStatus::Spending)
    } else if s == "spent"@ {
        Some(CoinStatus::Spent)
    } else {
        None
    }
}

/// Whether every entry of the array names a coin status.
pub open spec fn arr_statuses_ok(arr: Seq<JsonScalar>) -> bool {
    forall|i: int|
        0 <= i < arr.len() ==> ((#[trigger] arr[i]) matches JsonScalar::Str(s) && status_of_str(
            s@,
        ) is Some)
}

/// The statuses the array names; meaningful where every entry names one.
pub open spec fn statuses_of_arr(arr: Seq<JsonScalar>) -> Seq<CoinStatus>
    decreases arr.len(),
{
    if arr.len() == 0 {
        Seq::empty()
    } else {
        statuses_of_arr(arr.drop_last()).push(
            match arr.last() {
                JsonScalar::Str(s) => match status_of_str(s@) {
                    Some(st) => st,
                    None => CoinStatus::Unconfirmed,
                },
                _ => CoinStatus::Unconfirmed,
            },
        )
    }
}

/// Whether every entry of the array is a transaction id string.
pub open spec fn arr_txids_ok(arr: Seq<JsonScalar>) -> bool {
    forall|i: int|
        0 <= i < arr.len() ==> ((#[trigger] arr[i]) matches JsonScalar::Str(s) && is_txid_hex(
            vstd::utf8::encode_utf8(s@),
        ))
}

/// The transaction ids the array names; meaningful where every entry is one.
pub open spec fn txids_of_arr(arr: Seq<JsonScalar>) -> Seq<crate::types::Txid>
    decreases arr.len(),
{
    if arr.len() == 0 {
        Seq::empty()
    } else {
        txids_of_arr(arr.drop_last()).push(
            match arr.last() {
                JsonScalar::Str(s) => spec_txid_of_hex(vstd::utf8::encode_utf8(s@)),
                _ => crate::types::Txid { w0: 0, w1: 0, w2: 0, w3: 0 },
            },
        )
    }
}

/// Whether every entry of the array is a valid label item for the network.
pub open spec fn arr_items_ok(arr: Seq<JsonScalar>, mainnet: bool) -> bool {
    forall|i: int|
        0 <= i < arr.len() ==> ((#[trigger] arr[i]) matches JsonScalar::Str(s) && label_item_ok(
            s@,
            mainnet,
        ))
}

/// The strings among the array's entries, in order.
pub open spec fn strs_of_arr(arr: Seq<JsonScalar>) -> Seq<String>
    decreases arr.len(),
{
    if arr.len() == 0 {
        Seq::empty()
    } else {
        let prefix = strs_of_arr(arr.drop_last());
        match arr.last() {
            JsonScalar::Str(s) => prefix.push(s),
            _ => prefix,
        }
    }
}

/// The status filter a coin listing decodes from its parameters: an absent
/// or non-array entry means no filter on that dimension.
pub open spec fn lc_statuses(params: Option<ReqParams>) -> Seq<CoinStatus> {
    match params {
        None => Seq::empty(),
        Some(p) => match spec_get(p, 0, "statuses"@) {
            Some(JsonVal::Arr(v)) => statuses_of_arr(v@),
            _ => Seq::empty(),
        },
    }
}

/// The outpoint filter a coin listing decodes from its parameters.
pub open spec fn lc_outpoints(params: Option<ReqParams>) -> Seq<OutPoint> {
    match params {
        None => Seq::empty(),
        Some(p) => match spec_get(p, 1, "outpoints"@) {
            Some(JsonVal::Arr(v)) => ops_of_arr(v@),
            _ => Seq::empty(),
        },
    }
}

/// Whether the coin listing's given filters decode: every entry of a given
/// array names a status or an outpoint.
pub open spec fn lc_params_ok(params: Option<ReqParams>) -> bool {
    match params {
        None => true,
        Some(p) => (match spec_get(p, 0, "statuses"@) {
            Some(JsonVal::Arr(v)) => arr_statuses_ok(v@),
            _ => true,
        }) && (match spec_get(p, 1, "outpoints"@) {
            Some(JsonVal::Arr(v)) => arr_ops_ok(v@),
            _ => true,
        }),
    }
}

impl WalletEngine {
    /// Checks whether the string names an address of the wallet's network,
    /// a transaction id, or an outpoint.
    pub fn check_label_item(&self, item: &String) -> (r: bool)
        ensures
            r == label_item_ok(item@, self.mainnet),
    {
        if crate::btc::address_valid(item.as_str(), self.mainnet) {
            return true;
        }
        if parse_txid(item.as_str()).is_some() {
            return true;
        }
        parse_outpoint(item.as_str()).is_some()
    }

    /// Creates or overwrites every label of the object, after validating
    /// each item string against the wallet's network and each value's
    /// length. Nothing is stored unless every entry is acceptable.
    pub fn update_labels(&mut self, items: &Vec<(String, JsonScalar)>) -> (r: Result<
        (),
        RpcError,
    >)
        requires
            old(self).wf(),
        ensures
            final(self).wf(),
            r is Ok <==> labels_obj_ok(items@, old(self).mainnet),
            r is Err ==> *final(self) == *old(self) && (r matches Err(e) ==> e is InvalidParams),
            final(self).store == old(self).store,
            final(self).drafts@ == old(self).drafts@,
            final(self).txs@ == old(self).txs@,
            final(self).rescan == old(self).rescan,
            final(self).tip_height == old(self).tip_height,
            final(self).recovery_timelock == old(self).recovery_timelock,
            final(self).mainnet == old(self).mainnet,
            final(self).change_address == old(self).change_address,
            final(self).next_derivation_index == old(self).next_derivation_index,
            forall|k: Seq<char>|
                (forall|i: int| 0 <= i < items@.len() ==> (#[trigger] items@[i]).0@ != k)
                    ==> #[trigger] label_of(final(self).labels@, k) == label_of(
                    old(self).labels@,
                    k,
                ),
            r is Ok ==> forall|i: int|
                0 <= i < items@.len() && (forall|j: int|
                    i < j < items@.len() ==> (#[trigger] items@[j]).0@ != items@[i].0@)
                    ==> label_of(final(self).labels@, (#[trigger] items@[i]).0@) == Some(
                    items@[i].1->Str_0@,
                ),
    {
        // validate every entry before touching anything
        let n = items.len();
        let mut i: usize = 0;
        while i < n
            invariant
                *self == *old(self),
                self.wf(),
                n == items@.len(),
                i <= n,
                forall|j: int|
                    0 <= j < i ==> label_value_ok((#[trigger] items@[j]).1) && label_item_ok(
                        items@[j].0@,
                        self.mainnet,
                    ),
            decreases n - i,
        {
            let entry = &items[i];
            proof {
                assert(*entry == items@[i as int]);
            }
            let ok_value = match &entry.1 {
                JsonScalar::Str(s) => {
                    let st = s.as_str();
                    let l = vstd::string::StrSliceExecFns::unicode_len(st);
                    proof {
                        assert(entry.1 == JsonScalar::Str(*s));
                        assert(st@ == s@);
                    }
                    l <= crate::types::MAX_LABEL_LEN
                },
                _ => false,
            };
            proof {
                assert(ok_value == label_value_ok(items@[i as int].1));
            }
            if !ok_value {
                return Err(RpcError::InvalidParams("labels value".to_owned()));
            }
            if !self.check_label_item(&items[i].0) {
                return Err(RpcError::InvalidParams("labels item".to_owned()));
            }
            i = i + 1;
        }

        // store them, in order
        let mut i2: usize = 0;
        while i2 < n
            invariant
                self.wf(),
                n == items@.len(),
                i2 <= n,
                self.store == old(self).store,
                self.drafts@ == old(self).drafts@,
                self.txs@ == old(self).txs@,
                self.rescan == old(self).rescan,
                self.tip_height == old(self).tip_height,
                self.recovery_timelock == old(self).recovery_timelock,
                self.mainnet == old(self).mainnet,
                self.change_address == old(self).change_address,
                self.next_derivation_index == old(self).next_derivation_index,
                forall|k: Seq<char>|
                    (forall|i3: int| 0 <= i3 < n ==> (#[trigger] items@[i3]).0@ != k)
                        ==> #[trigger] label_of(self.labels@, k) == label_of(
                        old(self).labels@,
                        k,
                    ),
                forall|j: int|
                    0 <= j < n ==> label_value_ok((#[trigger] items@[j]).1),
                forall|j: int|
                    0 <= j < i2 && (forall|j2: int|
                        j < j2 < i2 ==> (#[trigger] items@[j2]).0@ != items@[j].0@)
                        ==> #[trigger] label_of(self.labels@, items@[j].0@) == Some(
                        items@[j].1->Str_0@,
                    ),
            decreases n - i2,
        {
            let v = match &items[i2].1 {
                JsonScalar::Str(s) => s.clone(),
                _ => String::new(),
            };
            self.set_label(&items[i2].0, &v);
            i2 = i2 + 1;
        }
        Ok(())
    }

    /// The labels stored under the requested items: exactly the queried
    /// items that have one, in query order, each with its stored value.
    pub fn get_labels(&self, items: &Vec<String>) -> (r: Vec<(String, String)>)
        requires
            self.wf(),
        ensures
            r@.len() == found_labels(self.labels@, items@).len(),
            forall|a: int|
                0 <= a < r@.len() ==> ((#[trigger] r@[a]).0@, r@[a].1@) == found_labels(
                    self.labels@,
                    items@,
                )[a],
            forall|a: int|
                0 <= a < r@.len() ==> label_of(self.labels@, (#[trigger] r@[a]).0@) == Some(
                    r@[a].1@,
                ),
    {
        let n = items.len();
        let mut out: Vec<(String, String)> = Vec::new();
        let mut i: usize = 0;
        while i < n
            invariant
                self.wf(),
                n == items@.len(),
                i <= n,
                out@.len() == found_labels(self.labels@, items@.take(i as int)).len(),
                forall|a: int|
                    0 <= a < out@.len() ==> ((#[trigger] out@[a]).0@, out@[a].1@) == found_labels(
                        self.labels@,
                        items@.take(i as int),
                    )[a],
                forall|a: int|
                    0 <= a < out@.len() ==> label_of(self.labels@, (#[trigger] out@[a]).0@)
                        == Some(out@[a].1@),
            decreases n - i,
        {
            proof {
                assert(items@.take(i + 1).drop_last() =~= items@.take(i as int));
                assert(items@.take(i + 1).last() == items@[i as int]);
            }
            match self.get_label(&items[i]) {
                Some(v) => {
                    out.push((items[i].clone(), v));
                },
                None => {},
            }
            i = i + 1;
        }
        proof {
            assert(items@.take(n as int) =~= items@);
        }
        out
    }
}

/// The destination list a JSON object of amounts denotes.
pub open spec fn dests_of_obj(kvs: Seq<(String, JsonScalar)>) -> Seq<Dest>
    decreases kvs.len(),
{
    if kvs.len() == 0 {
        Seq::empty()
    } else {
        dests_of_obj(kvs.drop_last()).push(
            Dest {
                address: kvs.last().0,
                amount: match kvs.last().1 {
                    JsonScalar::UInt(v) => v,
                    _ => 0,
                },
            },
        )
    }
}

/// Whether every value of the object is an unsigned amount.
pub open spec fn obj_amounts_ok(kvs: Seq<(String, JsonScalar)>) -> bool {
    forall|i: int| 0 <= i < kvs.len() ==> (#[trigger] kvs[i]).1 is UInt
}

/// The outpoints a JSON array of strings denotes; meaningful where every
/// entry is a well-formed outpoint string.
pub open spec fn ops_of_arr(arr: Seq<JsonScalar>) -> Seq<OutPoint>
    decreases arr.len(),
{
    if arr.len() == 0 {
        Seq::empty()
    } else {
        ops_of_arr(arr.drop_last()).push(
            match arr.last() {
                JsonScalar::Str(s) => spec_outpoint_of(vstd::utf8::encode_utf8(s@)),
                _ => OutPoint { txid: crate::types::Txid { w0: 0, w1: 0, w2: 0, w3: 0 }, vout: 0 },
            },
        )
    }
}

/// Whether every entry of the array is a well-formed outpoint string.
pub open spec fn arr_ops_ok(arr: Seq<JsonScalar>) -> bool {
    forall|i: int|
        0 <= i < arr.len() ==> ((#[trigger] arr[i]) matches JsonScalar::Str(s) && is_outpoint_str(
            vstd::utf8::encode_utf8(s@),
        ))
}

/// Extracts a string scalar, by position or by name.
fn get_str_param(p: &ReqParams, idx: usize, name: &String) -> (r: Option<String>)
    ensures
        match r {
            Some(s2) => (spec_get(*p, idx as int, name@) matches Some(
                JsonVal::Scalar(JsonScalar::Str(s0)),
            ) && s2@ == s0@),
            None => !(spec_get(*p, idx as int, name@) matches Some(
                JsonVal::Scalar(JsonScalar::Str(s0)),
            )),
        },
{
    match get_param(p, idx, name) {
        Some(JsonVal::Scalar(JsonScalar::Str(s))) => Some(s.clone()),
        _ => None,
    }
}

fn cmd_create_spend(e: &mut WalletEngine, params: &ReqParams) -> (r: Result<
    CommandOutput,
    RpcError,
>)
    requires
        old(e).wf(),
    ensures
        final(e).wf(),
        r is Err ==> *final(e) == *old(e),
        !(spec_get(*params, 2, "feerate"@) matches Some(JsonVal::Scalar(JsonScalar::UInt(v0))))
            ==> (r matches Err(ee) && ee is InvalidParams),
        spec_get(*params, 0, "destinations"@) matches Some(JsonVal::Obj(kv2)) ==> (
        obj_amounts_ok(kv2@) ==> (spec_get(*params, 1, "outpoints"@) matches Some(
            JsonVal::Arr(ar2),
        ) ==> (arr_ops_ok(ar2@) ==> ((spec_get(*params, 2, "feerate"@) is None ==> (r matches Err(
            RpcError::InvalidParams(m5),
        ) && m5@ == "Missing 'feerate' parameter."@)) && (spec_get(
            *params,
            2,
            "feerate"@,
        ) matches Some(jv5) ==> (!(jv5 matches JsonVal::Scalar(JsonScalar::UInt(v5))) ==> (
        r matches Err(RpcError::InvalidParams(m6)) && m6@
            == "Invalid 'feerate' parameter."@))))))),
        spec_get(*params, 0, "destinations"@) matches Some(JsonVal::Obj(kvs)) ==> (obj_amounts_ok(
            kvs@,
        ) ==> (spec_get(*params, 1, "outpoints"@) matches Some(JsonVal::Arr(arr)) ==> (arr_ops_ok(
            arr@,
        ) ==> (spec_get(*params, 2, "feerate"@) matches Some(
            JsonVal::Scalar(JsonScalar::UInt(fr)),
        ) ==> (r matches Err(ee) ==> (ee matches RpcError::Command(we)
            && crate::btc::spend_err_ok(
            *old(e),
            dests_of_obj(kvs@),
            ops_of_arr(arr@),
            fr,
            we,
        ))))))),
        match r {
            Ok(o) => (o matches CommandOutput::SpendDraft(d) && final(e).drafts@.len() == old(
                e,
            ).drafts@.len() + 1 && final(e).drafts@.drop_last() == old(e).drafts@ && draft_like(
                d,
                final(e).drafts@.last(),
            ) && sum_outpoints(old(e).store, d.inputs@) == dest_total(d.outputs@) + d.fee
                && final(e).store == old(e).store),
            Err(ee) => {
                &&& !(ee is MethodNotFound)
                &&& (ee matches RpcError::Command(we) ==> (we is InvalidParams
                    || we is InvalidOutpoint || we is InsufficientFunds || we is DuplicateDraftId)
                    && (we matches WalletError::DuplicateDraftId(t) ==> has_draft(*old(e), t)))
            },
        },
{
    let kvs = match get_param(params, 0, &"destinations".to_owned()) {
        Some(JsonVal::Obj(kvs)) => kvs,
        Some(_) => {
            return Err(RpcError::InvalidParams("Invalid 'destinations' parameter.".to_owned()));
        },
        None => {
            return Err(RpcError::InvalidParams("Missing 'destinations' parameter.".to_owned()));
        },
    };
    let mut dests: Vec<Dest> = Vec::new();
    let nk = kvs.len();
    let mut i: usize = 0;
    while i < nk
        invariant
            *e == *old(e),
            e.wf(),
            nk == kvs@.len(),
            i <= nk,
            spec_get(*params, 0, "destinations"@) == Some(JsonVal::Obj(*kvs)),
            forall|j2: int| 0 <= j2 < i ==> (#[trigger] kvs@[j2]).1 is UInt,
            dests@ == dests_of_obj(kvs@.take(i as int)),
        decreases nk - i,
    {
        let amount = match &kvs[i].1 {
            JsonScalar::UInt(a) => *a,
            _ => {
                proof {
                    assert(!obj_amounts_ok(kvs@));
                }
                return Err(RpcError::InvalidParams("Invalid 'destinations' parameter.".to_owned()));
            },
        };
        proof {
            assert(kvs@.take(i + 1).drop_last() =~= kvs@.take(i as int));
            assert(kvs@.take(i + 1).last() == kvs@[i as int]);
        }
        let addr = kvs[i].0.clone();
        let d2 = Dest { address: addr, amount };
        proof {
            assert(d2 == (Dest {
                address: kvs@[i as int].0,
                amount: match kvs@[i as int].1 {
                    JsonScalar::UInt(v) => v,
                    _ => 0,
                },
            }));
        }
        dests.push(d2);
        i = i + 1;
    }
    proof {
        assert(kvs@.take(nk as int) =~= kvs@);
    }
    let ops_arr = match get_param(params, 1, &"outpoints".to_owned()) {
        Some(JsonVal::Arr(v)) => v,
        Some(_) => {
            return Err(RpcError::InvalidParams("Invalid 'outpoints' parameter.".to_owned()));
        },
        None => {
            return Err(RpcError::InvalidParams("Missing 'outpoints' parameter.".to_owned()));
        },
    };
    let mut ops: Vec<OutPoint> = Vec::new();
    let no = ops_arr.len();
    let mut j: usize = 0;
    while j < no
        invariant
            *e == *old(e),
            e.wf(),
            no == ops_arr@.len(),
            j <= no,
            spec_get(*params, 1, "outpoints"@) == Some(JsonVal::Arr(*ops_arr)),
            forall|j2: int|
                0 <= j2 < j ==> ((#[trigger] ops_arr@[j2]) matches JsonScalar::Str(s)
                    && is_outpoint_str(vstd::utf8::encode_utf8(s@))),
            ops@ == ops_of_arr(ops_arr@.take(j as int)),
        decreases no - j,
    {
        proof {
            assert(ops_arr@.take(j + 1).drop_last() =~= ops_arr@.take(j as int));
            assert(ops_arr@.take(j + 1).last() == ops_arr@[j as int]);
        }
        let op = match &ops_arr[j] {
            JsonScalar::Str(s) => {
                let st = s.as_str();
                match parse_outpoint(st) {
                    Some(op2) => {
                        proof {
                            assert(st@ == s@);
                            assert(st.spec_bytes() == vstd::utf8::encode_utf8(s@));
                        }
                        op2
                    },
                    None => {
                        proof {
                            assert(st@ == s@);
                            assert(st.spec_bytes() == vstd::utf8::encode_utf8(s@));
                            assert(!arr_ops_ok(ops_arr@));
                        }
                        return Err(
                            RpcError::InvalidParams("Invalid 'outpoints' parameter.".to_owned()),
                        );
                    },
                }
            },
            _ => {
                proof {
                    assert(!arr_ops_ok(ops_arr@));
                }
                return Err(RpcError::InvalidParams("Invalid 'outpoints' parameter.".to_owned()));
            },
        };
        ops.push(op);
        j = j + 1;
    }
    proof {
        assert(ops_arr@.take(no as int) =~= ops_arr@);
    }
    let feerate = match get_param(params, 2, &"feerate".to_owned()) {
        None => {
            return Err(RpcError::InvalidParams("Missing 'feerate' parameter.".to_owned()));
        },
        Some(JsonVal::Scalar(JsonScalar::UInt(v))) => *v,
        Some(_) => {
            return Err(RpcError::InvalidParams("Invalid 'feerate' parameter.".to_owned()));
        },
    };
    match e.create_spend(&dests, &ops, feerate) {
        Ok(d) => Ok(CommandOutput::SpendDraft(d)),
        Err(we) => Err(RpcError::Command(we)),
    }
}

fn cmd_update_spend(e: &mut WalletEngine, params: &ReqParams) -> (r: Result<
    CommandOutput,
    RpcError,
>)
    requires
        old(e).wf(),
    ensures
        final(e).wf(),
        r is Err ==> *final(e) == *old(e),
        final(e).store == old(e).store,
        final(e).drafts@.len() == old(e).drafts@.len(),
        (spec_get(*params, 0, "psbt"@) matches Some(JsonVal::Scalar(JsonScalar::Str(s0)))
            && psbt_of(s0@) is None) ==> (r matches Err(RpcError::InvalidParams(m0)) && m0@
            == "Invalid 'psbt' parameter."@),
        match r {
            Ok(o) => o is Empty,
            Err(ee) => {
                &&& (ee is InvalidParams || ee is Command)
                &&& (ee matches RpcError::Command(we) ==> we is UnknownSpend
                    || we is InputSetMismatch)
            },
        },
{
    let psbt = match get_str_param(params, 0, &"psbt".to_owned()) {
        Some(s) => s,
        None => {
            return Err(RpcError::InvalidParams("Missing 'psbt' parameter.".to_owned()));
        },
    };
    let (txid, inputs, payload) = match parse_psbt(psbt.as_str()) {
        Some(p) => p,
        None => {
            return Err(RpcError::InvalidParams("Invalid 'psbt' parameter.".to_owned()));
        },
    };
    match e.update_spend(txid, &inputs, payload) {
        Ok(()) => Ok(CommandOutput::Empty),
        Err(we) => Err(RpcError::Command(we)),
    }
}

fn get_txid_param(params: &ReqParams) -> (r: Result<crate::types::Txid, RpcError>)
    ensures
        match r {
            Ok(t) => (spec_get(*params, 0, "txid"@) matches Some(
                JsonVal::Scalar(JsonScalar::Str(s0)),
            ) && is_txid_hex(vstd::utf8::encode_utf8(s0@)) && t == spec_txid_of_hex(
                vstd::utf8::encode_utf8(s0@),
            )),
            Err(ee) => ee is InvalidParams,
        },
{
    let s = match get_str_param(params, 0, &"txid".to_owned()) {
        Some(s) => s,
        None => {
            return Err(RpcError::InvalidParams("Missing 'txid' parameter.".to_owned()));
        },
    };
    match parse_txid(s.as_str()) {
        Some(t) => Ok(t),
        None => Err(RpcError::InvalidParams("Invalid 'txid' parameter.".to_owned())),
    }
}

fn cmd_list_coins(e: &WalletEngine, params: &Option<ReqParams>) -> (r: Result<
    CommandOutput,
    RpcError,
>)
    requires
        e.wf(),
    ensures
        r is Ok <==> lc_params_ok(*params),
        match r {
            Ok(o) => (o matches CommandOutput::Coins(cs) && cs@
                == crate::coin_store::matching_coins(
                e.store.coins@,
                lc_statuses(*params),
                lc_outpoints(*params),
            )),
            Err(ee) => ee is InvalidParams,
        },
{
    let mut statuses: Vec<CoinStatus> = Vec::new();
    let mut ops: Vec<OutPoint> = Vec::new();
    match params {
        None => {},
        Some(p) => {
            match get_param(p, 0, &"statuses".to_owned()) {
                Some(JsonVal::Arr(v)) => {
                    let n = v.len();
                    let mut i: usize = 0;
                    while i < n
                        invariant
                            *params == Some(*p),
                            spec_get(*p, 0, "statuses"@) == Some(JsonVal::Arr(*v)),
                            n == v@.len(),
                            i <= n,
                            forall|j: int|
                                0 <= j < i ==> ((#[trigger] v@[j]) matches JsonScalar::Str(s)
                                    && status_of_str(s@) is Some),
                            statuses@ == statuses_of_arr(v@.take(i as int)),
                        decreases n - i,
                    {
                        proof {
                            assert(v@.take(i + 1).drop_last() =~= v@.take(i as int));
                            assert(v@.take(i + 1).last() == v@[i as int]);
                        }
                        let st = match &v[i] {
                            JsonScalar::Str(s) => {
                                if *s == "unconfirmed".to_owned() {
                                    CoinStatus::Unconfirmed
                                } else if *s == "confirmed".to_owned() {
                                    CoinStatus::Confirmed
                                } else if *s == "spending".to_owned() {
                                    CoinStatus::Spending
                                } else if *s == "spent".to_owned() {
                                    CoinStatus::Spent
                                } else {
                                    proof {
                                        assert(status_of_str(s@) is None);
                                        assert(!lc_params_ok(*params));
                                    }
                                    return Err(
                                        RpcError::InvalidParams(
                                            "Invalid value in 'statuses' parameter.".to_owned(),
                                        ),
                                    );
                                }
                            },
                            _ => {
                                proof {
                                    assert(!lc_params_ok(*params));
                                }
                                return Err(
                                    RpcError::InvalidParams(
                                        "Invalid value in 'statuses' parameter.".to_owned(),
                                    ),
                                );
                            },
                        };
                        statuses.push(st);
                        i = i + 1;
                    }
                    proof {
                        assert(v@.take(n as int) =~= v@);
                    }
                },
                _ => {},
            }
            match get_param(p, 1, &"outpoints".to_owned()) {
                Some(JsonVal::Arr(v)) => {
                    let n = v.len();
                    let mut i: usize = 0;
                    while i < n
                        invariant
                            *params == Some(*p),
                            spec_get(*p, 1, "outpoints"@) == Some(JsonVal::Arr(*v)),
                            spec_get(*p, 0, "statuses"@) matches Some(JsonVal::Arr(sv))
                                ==> arr_statuses_ok(sv@),
                            statuses@ == lc_statuses(*params),
                            n == v@.len(),
                            i <= n,
                            forall|j: int|
                                0 <= j < i ==> ((#[trigger] v@[j]) matches JsonScalar::Str(s)
                                    && is_outpoint_str(vstd::utf8::encode_utf8(s@))),
                            ops@ == ops_of_arr(v@.take(i as int)),
                        decreases n - i,
                    {
                        proof {
                            assert(v@.take(i + 1).drop_last() =~= v@.take(i as int));
                            assert(v@.take(i + 1).last() == v@[i as int]);
                        }
                        match &v[i] {
                            JsonScalar::Str(s) => {
                                let st = s.as_str();
                                match parse_outpoint(st) {
                                    Some(op) => {
                                        proof {
                                            assert(st@ == s@);
                                            assert(st.spec_bytes() == vstd::utf8::encode_utf8(
                                                s@,
                                            ));
                                        }
                                        ops.push(op);
                                    },
                                    None => {
                                        proof {
                                            assert(st@ == s@);
                                            assert(st.spec_bytes() == vstd::utf8::encode_utf8(
                                                s@,
                                            ));
                                            assert(!lc_params_ok(*params));
                                        }
                                        return Err(
                                            RpcError::InvalidParams(
                                                "Invalid value in 'outpoints' parameter.".to_owned(),
                                            ),
                                        );
                                    },
                                }
                            },
                            _ => {
                                proof {
                                    assert(!lc_params_ok(*params));
                                }
                                return Err(
                                    RpcError::InvalidParams(
                                        "Invalid value in 'outpoints' parameter.".to_owned(),
                                    ),
                                );
                            },
                        }
                        i = i + 1;
                    }
                    proof {
                        assert(v@.take(n as int) =~= v@);
                    }
                },
                _ => {},
            }
        },
    }
    proof {
        assert(statuses@ == lc_statuses(*params));
        assert(ops@ == lc_outpoints(*params));
    }
    Ok(CommandOutput::Coins(e.list_coins(&statuses, &ops)))
}

fn cmd_create_recovery(e: &mut WalletEngine, params: &ReqParams) -> (r: Result<
    CommandOutput,
    RpcError,
>)
    requires
        old(e).wf(),
    ensures
        final(e).wf(),
        r is Err ==> *final(e) == *old(e),
        (spec_get(*params, 2, "timelock"@) matches Some(JsonVal::Scalar(JsonScalar::UInt(v0)))
            && v0 > 0xFFFF) ==> (r matches Err(ee) && ee is InvalidParams),
        spec_get(*params, 0, "address"@) matches Some(JsonVal::Scalar(JsonScalar::Str(a0))) ==> (
        spec_get(*params, 1, "feerate"@) matches Some(JsonVal::Scalar(JsonScalar::UInt(f0))) ==> ((
        spec_get(*params, 2, "timelock"@) matches Some(JsonVal::Scalar(JsonScalar::UInt(v0)))
            && v0 > 0xFFFF) ==> (r matches Err(RpcError::InvalidParams(m0)) && m0@
            == "Invalid 'timelock' parameter."@))),
        match r {
            Ok(o) => (o matches CommandOutput::SpendDraft(d) && final(e).drafts@.len() == old(
                e,
            ).drafts@.len() + 1 && final(e).drafts@.drop_last() == old(e).drafts@ && draft_like(
                d,
                final(e).drafts@.last(),
            ) && d.outputs@.len() == 1 && sum_outpoints(old(e).store, d.inputs@)
                == d.outputs@[0].amount + d.fee && final(e).store == old(e).store),
            Err(ee) => {
                &&& (ee is InvalidParams || ee is Command)
                &&& (ee matches RpcError::Command(we) ==> (we is InvalidParams
                    || we is NoMaturedCoins || we is InsufficientFunds || we is DuplicateDraftId)
                    && (we matches WalletError::DuplicateDraftId(t) ==> has_draft(*old(e), t)))
            },
        },
{
    let address = match get_str_param(params, 0, &"address".to_owned()) {
        Some(s) => s,
        None => {
            return Err(RpcError::InvalidParams("Missing 'address' parameter.".to_owned()));
        },
    };
    let feerate = match get_param(params, 1, &"feerate".to_owned()) {
        None => {
            return Err(RpcError::InvalidParams("Missing 'feerate' parameter.".to_owned()));
        },
        Some(JsonVal::Scalar(JsonScalar::UInt(v))) => *v,
        Some(_) => {
            return Err(RpcError::InvalidParams("Invalid 'feerate' parameter.".to_owned()));
        },
    };
    let timelock: Option<u16> = match get_param(params, 2, &"timelock".to_owned()) {
        None => None,
        Some(JsonVal::Scalar(JsonScalar::UInt(v))) => {
            if *v > 0xFFFF {
                return Err(RpcError::InvalidParams("Invalid 'timelock' parameter.".to_owned()));
            }
            Some(*v as u16)
        },
        Some(_) => {
            return Err(RpcError::InvalidParams("Invalid 'timelock' parameter.".to_owned()));
        },
    };
    match e.create_recovery(address, feerate, timelock) {
        Ok(d) => Ok(CommandOutput::SpendDraft(d)),
        Err(we) => Err(RpcError::Command(we)),
    }
}

fn cmd_update_labels(e: &mut WalletEngine, params: &ReqParams) -> (r: Result<
    CommandOutput,
    RpcError,
>)
    requires
        old(e).wf(),
    ensures
        final(e).wf(),
        r is Err ==> *final(e) == *old(e),
        final(e).store == old(e).store,
        final(e).drafts@ == old(e).drafts@,
        (spec_get(*params, 0, "labels"@) matches Some(JsonVal::Obj(kvs)) ==> (r is Ok
            <==> labels_obj_ok(kvs@, old(e).mainnet))),
        match r {
            Ok(o) => o is Empty,
            Err(ee) => ee is InvalidParams,
        },
{
    let kvs = match get_param(params, 0, &"labels".to_owned()) {
        Some(JsonVal::Obj(kvs)) => kvs,
        Some(_) => {
            return Err(RpcError::InvalidParams("Invalid 'labels' parameter.".to_owned()));
        },
        None => {
            return Err(RpcError::InvalidParams("Missing 'labels' parameter.".to_owned()));
        },
    };
    match e.update_labels(kvs) {
        Ok(()) => Ok(CommandOutput::Empty),
        Err(re) => Err(re),
    }
}

fn cmd_get_labels(e: &WalletEngine, params: &ReqParams) -> (r: Result<CommandOutput, RpcError>)
    requires
        e.wf(),
    ensures
        r is Ok <==> (spec_get(*params, 0, "items"@) matches Some(JsonVal::Arr(v)) && arr_items_ok(
            v@,
            e.mainnet,
        )),
        match r {
            Ok(o) => (o matches CommandOutput::Labels(ls) && (spec_get(
                *params,
                0,
                "items"@,
            ) matches Some(JsonVal::Arr(v2)) ==> ls@.len() == found_labels(
                e.labels@,
                strs_of_arr(v2@),
            ).len() && (forall|a: int|
                0 <= a < ls@.len() ==> ((#[trigger] ls@[a]).0@, ls@[a].1@) == found_labels(
                    e.labels@,
                    strs_of_arr(v2@),
                )[a]))),
            Err(ee) => ee is InvalidParams,
        },
{
    let arr = match get_param(params, 0, &"items".to_owned()) {
        Some(JsonVal::Arr(v)) => v,
        Some(_) => {
            return Err(RpcError::InvalidParams("Invalid 'items' parameter.".to_owned()));
        },
        None => {
            return Err(RpcError::InvalidParams("Missing 'items' parameter.".to_owned()));
        },
    };
    let mut items: Vec<String> = Vec::new();
    let n = arr.len();
    let mut i: usize = 0;
    while i < n
        invariant
            e.wf(),
            spec_get(*params, 0, "items"@) == Some(JsonVal::Arr(*arr)),
            n == arr@.len(),
            i <= n,
            forall|j: int|
                0 <= j < i ==> ((#[trigger] arr@[j]) matches JsonScalar::Str(s) && label_item_ok(
                    s@,
                    e.mainnet,
                )),
            items@ == strs_of_arr(arr@.take(i as int)),
        decreases n - i,
    {
        proof {
            assert(arr@.take(i + 1).drop_last() =~= arr@.take(i as int));
            assert(arr@.take(i + 1).last() == arr@[i as int]);
        }
        match &arr[i] {
            JsonScalar::Str(s) => {
                if !e.check_label_item(s) {
                    return Err(
                        RpcError::InvalidParams(
                            "Invalid item format: must be an address, a txid or an outpoint.".to_owned(),
                        ),
                    );
                }
                items.push(s.clone());
            },
            _ => {
                return Err(
                    RpcError::InvalidParams(
                        "Invalid item format: must be an address, a txid or an outpoint.".to_owned(),
                    ),
                );
            },
        }
        i = i + 1;
    }
    proof {
        assert(arr@.take(n as int) =~= arr@);
    }
    Ok(CommandOutput::Labels(e.get_labels(&items)))
}

fn cmd_list_transactions(e: &WalletEngine, params: &ReqParams) -> (r: Result<
    CommandOutput,
    RpcError,
>)
    requires
        e.wf(),
    ensures
        r is Ok <==> (spec_get(*params, 0, "txids"@) matches Some(JsonVal::Arr(v)) && arr_txids_ok(
            v@,
        )),
        match r {
            Ok(o) => (o matches CommandOutput::Txs(ts) && (spec_get(
                *params,
                0,
                "txids"@,
            ) matches Some(JsonVal::Arr(v2)) ==> ts@ == crate::history::txs_with_ids(
                e.txs@,
                txids_of_arr(v2@),
            ))),
            Err(ee) => ee is InvalidParams,
        },
{
    let arr = match get_param(params, 0, &"txids".to_owned()) {
        Some(JsonVal::Arr(v)) => v,
        Some(_) => {
            return Err(RpcError::InvalidParams("Invalid 'txids' parameter.".to_owned()));
        },
        None => {
            return Err(RpcError::InvalidParams("Missing 'txids' parameter.".to_owned()));
        },
    };
    let mut txids: Vec<crate::types::Txid> = Vec::new();
    let n = arr.len();
    let mut i: usize = 0;
    while i < n
        invariant
            spec_get(*params, 0, "txids"@) == Some(JsonVal::Arr(*arr)),
            n == arr@.len(),
            i <= n,
            forall|j: int|
                0 <= j < i ==> ((#[trigger] arr@[j]) matches JsonScalar::Str(s) && is_txid_hex(
                    vstd::utf8::encode_utf8(s@),
                )),
            txids@ == txids_of_arr(arr@.take(i as int)),
        decreases n - i,
    {
        proof {
            assert(arr@.take(i + 1).drop_last() =~= arr@.take(i as int));
            assert(arr@.take(i + 1).last() == arr@[i as int]);
        }
        match &arr[i] {
            JsonScalar::Str(s) => {
                let st = s.as_str();
                match parse_txid(st) {
                    Some(t) => {
                        proof {
                            assert(st@ == s@);
                            assert(st.spec_bytes() == vstd::utf8::encode_utf8(s@));
                        }
                        txids.push(t);
                    },
                    None => {
                        proof {
                            assert(st@ == s@);
                            assert(st.spec_bytes() == vstd::utf8::encode_utf8(s@));
                        }
                        return Err(
                            RpcError::InvalidParams("Invalid 'txids' parameter.".to_owned()),
                        );
                    },
                }
            },
            _ => {
                return Err(RpcError::InvalidParams("Invalid 'txids' parameter.".to_owned()));
            },
        }
        i = i + 1;
    }
    proof {
        assert(arr@.take(n as int) =~= arr@);
    }
    Ok(CommandOutput::Txs(e.list_transactions(&txids)))
}

fn cmd_list_confirmed(e: &WalletEngine, params: &ReqParams) -> (r: Result<
    CommandOutput,
    RpcError,
>)
    requires
        e.wf(),
    ensures
        r is Ok <==> ((spec_get(*params, 0, "start"@) matches Some(
            JsonVal::Scalar(JsonScalar::UInt(sv)),
        ) && sv <= 0xFFFF_FFFF) && (spec_get(*params, 1, "end"@) matches Some(
            JsonVal::Scalar(JsonScalar::UInt(ev)),
        ) && ev <= 0xFFFF_FFFF) && (spec_get(*params, 2, "limit"@) matches Some(
            JsonVal::Scalar(JsonScalar::UInt(lv)),
        ))),
        match r {
            Ok(o) => (o matches CommandOutput::Txs(ts) && (spec_get(
                *params,
                0,
                "start"@,
            ) matches Some(JsonVal::Scalar(JsonScalar::UInt(sv))) ==> (spec_get(
                *params,
                1,
                "end"@,
            ) matches Some(JsonVal::Scalar(JsonScalar::UInt(ev))) ==> (spec_get(
                *params,
                2,
                "limit"@,
            ) matches Some(JsonVal::Scalar(JsonScalar::UInt(lv))) ==> ts@
                == crate::history::confirmed_page(e.txs@, sv as u32, ev as u32, lv as int))))),
            Err(ee) => ee is InvalidParams,
        },
        spec_get(*params, 0, "start"@) is None ==> (r matches Err(RpcError::InvalidParams(m))
            && m@ == "Missing 'start' parameter."@),
        spec_get(*params, 0, "start"@) matches Some(jv) ==> (!(jv matches JsonVal::Scalar(
            JsonScalar::UInt(v0),
        ) && v0 <= 0xFFFF_FFFF) ==> (r matches Err(RpcError::InvalidParams(m2)) && m2@
            == "Invalid 'start' parameter."@)),
{
    let start = match get_param(params, 0, &"start".to_owned()) {
        None => {
            return Err(RpcError::InvalidParams("Missing 'start' parameter.".to_owned()));
        },
        Some(JsonVal::Scalar(JsonScalar::UInt(v))) => {
            if *v > 0xFFFF_FFFF {
                return Err(RpcError::InvalidParams("Invalid 'start' parameter.".to_owned()));
            }
            *v as u32
        },
        Some(_) => {
            return Err(RpcError::InvalidParams("Invalid 'start' parameter.".to_owned()));
        },
    };
    let end = match get_param(params, 1, &"end".to_owned()) {
        None => {
            return Err(RpcError::InvalidParams("Missing 'end' parameter.".to_owned()));
        },
        Some(JsonVal::Scalar(JsonScalar::UInt(v))) => {
            if *v > 0xFFFF_FFFF {
                return Err(RpcError::InvalidParams("Invalid 'end' parameter.".to_owned()));
            }
            *v as u32
        },
        Some(_) => {
            return Err(RpcError::InvalidParams("Invalid 'end' parameter.".to_owned()));
        },
    };
    let limit = match get_param(params, 2, &"limit".to_owned()) {
        None => {
            return Err(RpcError::InvalidParams("Missing 'limit' parameter.".to_owned()));
        },
        Some(JsonVal::Scalar(JsonScalar::UInt(v))) => *v,
        Some(_) => {
            return Err(RpcError::InvalidParams("Invalid 'limit' parameter.".to_owned()));
        },
    };
    Ok(CommandOutput::Txs(e.list_confirmed(start, end, limit)))
}

/// Whether the command takes a parameter list at all; one without it is
/// rejected before anything runs.
pub open spec fn needs_params(m: Seq<char>) -> bool {
    ||| m == "broadcastspend"@
    ||| m == "createrecovery"@
    ||| m == "createspend"@
    ||| m == "delspendtx"@
    ||| m == "listconfirmed"@
    ||| m == "listtransactions"@
    ||| m == "startrescan"@
    ||| m == "updatespend"@
    ||| m == "updatelabels"@
    ||| m == "getlabels"@
}

impl WalletEngine {
    /// Serves one protocol request. An unknown command name fails with a
    /// method-not-found condition; any failure leaves the wallet state
    /// untouched; a success answers under the request's id with the
    /// dispatched command's output. For `broadcastspend` the caller
    /// supplies the finalizer's completeness verdict and the node's
    /// answer, obtained outside.
    #[verifier::rlimit(100)]
    pub fn handle_request(
        &mut self,
        req: &Request,
        sigs_complete: bool,
        node: &NodeResponse,
    ) -> (r: Result<Response, RpcError>)
        requires
            old(self).wf(),
        ensures
            final(self).wf(),
            r is Err ==> *final(self) == *old(self),
            (r matches Err(e) && e is MethodNotFound) <==> !is_known_method(req.method@),
            r matches Ok(resp) ==> resp.id == req.id,
            r matches Err(e2) ==> (e2 is MethodNotFound || e2 is InvalidParams || e2 is Command),
            req.params is None && needs_params(req.method@) ==> (r matches Err(e2)
                && e2 is InvalidParams),
            req.method@ == "createspend"@ && req.params is None ==> (r matches Err(e2) && (
            e2 matches RpcError::InvalidParams(msg) && msg@
                == "Missing 'outpoints', 'destinations' and 'feerate' parameters."@)),
            req.method@ == "stop"@ ==> *final(self) == *old(self) && (r matches Ok(resp)
                && resp.output is Empty),
            req.method@ == "getinfo"@ ==> *final(self) == *old(self) && (r matches Ok(resp) && (
            resp.output matches CommandOutput::Info(info) && info.tip_height == old(
                self,
            ).tip_height && info.coin_count == old(self).store.coins@.len() && info.draft_count
                == old(self).drafts@.len() && (old(self).rescan matches Some(rp)
                ==> info.rescan_timestamp == Some(rp.0) && info.rescan_progress == Some(rp.1)) && (
            old(self).rescan is None ==> info.rescan_timestamp is None
                && info.rescan_progress is None))),
            req.method@ == "listspendtxs"@ ==> *final(self) == *old(self) && (r matches Ok(resp)
                && (resp.output matches CommandOutput::Drafts(ds) && ds@.len() == old(
                self,
            ).drafts@.len() && (forall|i2: int|
                0 <= i2 < ds@.len() ==> draft_like(#[trigger] ds@[i2], old(self).drafts@[i2])))),
            req.method@ == "getnewaddress"@ && old(self).next_derivation_index < 0xFFFF_FFFFu32
                ==> (r matches Ok(resp) && (resp.output matches CommandOutput::Address(ix) && ix
                == old(self).next_derivation_index) && final(self).next_derivation_index == old(
                self,
            ).next_derivation_index + 1 && final(self).store == old(self).store && final(self).drafts@ == old(self).drafts@ && final(self).labels@ == old(self).labels@),
            req.method@ == "createspend"@ && req.params is Some ==> (req.params matches Some(p2)
                ==> (!(spec_get(p2, 2, "feerate"@) matches Some(
                    JsonVal::Scalar(JsonScalar::UInt(v0)),
                )) ==> (r matches Err(e2) && e2 is InvalidParams))),
            req.method@ == "createrecovery"@ ==> (req.params matches Some(p2) ==> ((spec_get(
                p2,
                2,
                "timelock"@,
            ) matches Some(JsonVal::Scalar(JsonScalar::UInt(v0))) && v0 > 0xFFFF) ==> (
            r matches Err(e2) && e2 is InvalidParams))),
            req.method@ == "createspend"@ ==> (req.params matches Some(p3) ==> (spec_get(
                p3,
                0,
                "destinations"@,
            ) matches Some(JsonVal::Obj(kvs)) ==> (obj_amounts_ok(kvs@) ==> (spec_get(
                p3,
                1,
                "outpoints"@,
            ) matches Some(JsonVal::Arr(arr)) ==> (arr_ops_ok(arr@) ==> (spec_get(
                p3,
                2,
                "feerate"@,
            ) matches Some(JsonVal::Scalar(JsonScalar::UInt(fr))) ==> (r matches Err(e2) ==> (
            e2 matches RpcError::Command(we) && crate::btc::spend_err_ok(
                *old(self),
                dests_of_obj(kvs@),
                ops_of_arr(arr@),
                fr,
                we,
            ))))))))),
            req.method@ == "createspend"@ ==> (match r {
                Ok(resp) => (resp.output matches CommandOutput::SpendDraft(d) && final(self).drafts@.len() == old(self).drafts@.len() + 1 && final(self).drafts@.drop_last()
                    == old(self).drafts@ && draft_like(d, final(self).drafts@.last())
                    && sum_outpoints(old(self).store, d.inputs@) == dest_total(d.outputs@) + d.fee
                    && final(self).store == old(self).store),
                Err(e2) => *final(self) == *old(self) && (e2 matches RpcError::Command(we) ==> (
                we is InvalidParams || we is InvalidOutpoint || we is InsufficientFunds
                    || we is DuplicateDraftId) && (we matches WalletError::DuplicateDraftId(t)
                    ==> has_draft(*old(self), t))),
            }),
            req.method@ == "createrecovery"@ ==> (match r {
                Ok(resp) => (resp.output matches CommandOutput::SpendDraft(d) && final(self).drafts@.len() == old(self).drafts@.len() + 1 && final(self).drafts@.drop_last()
                    == old(self).drafts@ && d.outputs@.len() == 1 && final(self).store == old(
                    self,
                ).store),
                Err(e2) => *final(self) == *old(self) && (e2 matches RpcError::Command(we) ==> (
                we is InvalidParams || we is NoMaturedCoins || we is InsufficientFunds
                    || we is DuplicateDraftId) && (we matches WalletError::DuplicateDraftId(t)
                    ==> has_draft(*old(self), t))),
            }),
            req.method@ == "updatespend"@ ==> final(self).store == old(self).store && final(self).drafts@.len() == old(self).drafts@.len() && (r matches Ok(resp)
                ==> resp.output is Empty) && (req.params matches Some(p) ==> ((spec_get(
                p,
                0,
                "psbt"@,
            ) matches Some(JsonVal::Scalar(JsonScalar::Str(s0))) && psbt_of(s0@) is None)
                ==> (r matches Err(e3) && e3 is InvalidParams))) && (r matches Err(RpcError::Command(we)) ==> we is UnknownSpend
                || we is InputSetMismatch),
            req.method@ == "delspendtx"@ ==> final(self).store == old(self).store && (r matches Ok(
                resp,
            ) ==> resp.output is Empty && (req.params matches Some(p) ==> (spec_get(
                p,
                0,
                "txid"@,
            ) matches Some(JsonVal::Scalar(JsonScalar::Str(s0))) ==> is_txid_hex(
                vstd::utf8::encode_utf8(s0@),
            ) && final(self).drafts@ == drafts_without(
                old(self).drafts@,
                spec_txid_of_hex(vstd::utf8::encode_utf8(s0@)),
            )))),
            req.method@ == "broadcastspend"@ ==> (r matches Ok(resp) ==> resp.output is Empty
                && sigs_complete && node is Accepted && (req.params matches Some(p) ==> (spec_get(
                p,
                0,
                "txid"@,
            ) matches Some(JsonVal::Scalar(JsonScalar::Str(s0))) ==> has_draft(
                *old(self),
                spec_txid_of_hex(vstd::utf8::encode_utf8(s0@)),
            ) && final(self).drafts@ == drafts_without(
                old(self).drafts@,
                spec_txid_of_hex(vstd::utf8::encode_utf8(s0@)),
            )))) && (r matches Err(RpcError::Command(we)) ==> we is UnknownSpend
                || we is IncompleteSignatures || we is BroadcastRejected || we is NodeUnavailable),
            req.method@ == "startrescan"@ ==> (r matches Ok(resp) ==> resp.output is Empty && old(
                self,
            ).rescan is None && final(self).rescan is Some && final(self).store == old(self).store)
                && (r matches Err(RpcError::Command(we)) ==> we is RescanAlreadyInProgress && old(
                self,
            ).rescan is Some),
            req.method@ == "listcoins"@ ==> *final(self) == *old(self) && (r is Ok
                <==> lc_params_ok(req.params)) && (r matches Ok(resp) ==> (
            resp.output matches CommandOutput::Coins(cs) && cs@
                == crate::coin_store::matching_coins(
                old(self).store.coins@,
                lc_statuses(req.params),
                lc_outpoints(req.params),
            ))) && (r matches Err(e2) ==> e2 is InvalidParams),
            req.method@ == "listtransactions"@ ==> *final(self) == *old(self) && (
            req.params matches Some(p4) ==> ((r is Ok <==> (spec_get(
                p4,
                0,
                "txids"@,
            ) matches Some(JsonVal::Arr(v)) && arr_txids_ok(v@))) && (r matches Ok(resp) ==> (
            resp.output matches CommandOutput::Txs(ts) && (spec_get(
                p4,
                0,
                "txids"@,
            ) matches Some(JsonVal::Arr(v2)) ==> ts@ == crate::history::txs_with_ids(
                old(self).txs@,
                txids_of_arr(v2@),
            )))))) && (r matches Err(e2) ==> e2 is InvalidParams),
            req.method@ == "listconfirmed"@ ==> *final(self) == *old(self) && (
            req.params matches Some(p4) ==> ((r is Ok <==> ((spec_get(
                p4,
                0,
                "start"@,
            ) matches Some(JsonVal::Scalar(JsonScalar::UInt(sv))) && sv <= 0xFFFF_FFFF) && (
            spec_get(p4, 1, "end"@) matches Some(JsonVal::Scalar(JsonScalar::UInt(ev))) && ev
                <= 0xFFFF_FFFF) && (spec_get(p4, 2, "limit"@) matches Some(
                JsonVal::Scalar(JsonScalar::UInt(lv)),
            )))) && (r matches Ok(resp) ==> (resp.output matches CommandOutput::Txs(ts) && (
            spec_get(p4, 0, "start"@) matches Some(JsonVal::Scalar(JsonScalar::UInt(sv))) ==> (
            spec_get(p4, 1, "end"@) matches Some(JsonVal::Scalar(JsonScalar::UInt(ev))) ==> (
            spec_get(p4, 2, "limit"@) matches Some(JsonVal::Scalar(JsonScalar::UInt(lv))) ==> ts@
                == crate::history::confirmed_page(
                old(self).txs@,
                sv as u32,
                ev as u32,
                lv as int,
            )))))) && (spec_get(p4, 0, "start"@) is None ==> (r matches Err(
                RpcError::InvalidParams(m4),
            ) && m4@ == "Missing 'start' parameter."@)))) && (r matches Err(e2)
                ==> e2 is InvalidParams),
            req.method@ == "getlabels"@ ==> *final(self) == *old(self) && (
            req.params matches Some(p4) ==> ((r is Ok <==> (spec_get(
                p4,
                0,
                "items"@,
            ) matches Some(JsonVal::Arr(v)) && arr_items_ok(v@, old(self).mainnet))) && (
            r matches Ok(resp) ==> (resp.output matches CommandOutput::Labels(ls) && (spec_get(
                p4,
                0,
                "items"@,
            ) matches Some(JsonVal::Arr(v2)) ==> ls@.len() == found_labels(
                old(self).labels@,
                strs_of_arr(v2@),
            ).len() && (forall|a: int|
                0 <= a < ls@.len() ==> ((#[trigger] ls@[a]).0@, ls@[a].1@) == found_labels(
                    old(self).labels@,
                    strs_of_arr(v2@),
                )[a])))))) && (r matches Err(e2) ==> e2 is InvalidParams),
            req.method@ == "updatelabels"@ ==> final(self).store == old(self).store && final(self).drafts@ == old(self).drafts@ && (r matches Ok(resp) ==> resp.output is Empty) && (
            req.params matches Some(p) ==> (spec_get(p, 0, "labels"@) matches Some(
                JsonVal::Obj(kvs),
            ) ==> (r is Ok <==> labels_obj_ok(kvs@, old(self).mainnet)))),
    {
        proof {
            reveal_strlit("broadcastspend");
            reveal_strlit("createrecovery");
            reveal_strlit("createspend");
            reveal_strlit("delspendtx");
            reveal_strlit("getinfo");
            reveal_strlit("getnewaddress");
            reveal_strlit("listcoins");
            reveal_strlit("listconfirmed");
            reveal_strlit("listspendtxs");
            reveal_strlit("listtransactions");
            reveal_strlit("startrescan");
            reveal_strlit("stop");
            reveal_strlit("updatespend");
            reveal_strlit("updatelabels");
            reveal_strlit("getlabels");
            reveal_strlit("Missing 'outpoints', 'destinations' and 'feerate' parameters.");
            assert("broadcastspend"@.len() == 14);
            assert("createrecovery"@.len() == 14);
            assert("createspend"@.len() == 11);
            assert("delspendtx"@.len() == 10);
            assert("getinfo"@.len() == 7);
            assert("getnewaddress"@.len() == 13);
            assert("listcoins"@.len() == 9);
            assert("listconfirmed"@.len() == 13);
            assert("listspendtxs"@.len() == 12);
            assert("listtransactions"@.len() == 16);
            assert("startrescan"@.len() == 11);
            assert("stop"@.len() == 4);
            assert("updatespend"@.len() == 11);
            assert("updatelabels"@.len() == 12);
            assert("getlabels"@.len() == 9);
            assert("broadcastspend"@[0] == 'b' && "createrecovery"@[0] == 'c');
            assert("broadcastspend"@ != "createrecovery"@);
            assert("createspend"@[0] == 'c' && "updatespend"@[0] == 'u' && "startrescan"@[0]
                == 's');
            assert("createspend"@ != "updatespend"@);
            assert("createspend"@ != "startrescan"@);
            assert("updatespend"@ != "startrescan"@);
            assert("updatelabels"@[0] == 'u' && "listspendtxs"@[0] == 'l');
            assert("updatelabels"@ != "listspendtxs"@);
            assert("listcoins"@[0] == 'l' && "getlabels"@[0] == 'g');
            assert("listcoins"@ != "getlabels"@);
            assert("listconfirmed"@[0] == 'l' && "getnewaddress"@[0] == 'g');
            assert("listconfirmed"@ != "getnewaddress"@);
        }
        let m = &req.method;
        let output: CommandOutput;
        if *m == "broadcastspend".to_owned() {
            let p = match &req.params {
                Some(p) => p,
                None => {
                    return Err(RpcError::InvalidParams("Missing 'txid' parameter.".to_owned()));
                },
            };
            let txid = match get_txid_param(p) {
                Ok(t) => t,
                Err(e2) => {
                    return Err(e2);
                },
            };
            match self.broadcast_spend(txid, sigs_complete, node) {
                Ok(()) => {
                    output = CommandOutput::Empty;
                },
                Err(we) => {
                    return Err(RpcError::Command(we));
                },
            }
        } else if *m == "createrecovery".to_owned() {
            let p = match &req.params {
                Some(p) => p,
                None => {
                    return Err(
                        RpcError::InvalidParams(
                            "Missing 'address' and 'feerate' parameters.".to_owned(),
                        ),
                    );
                },
            };
            match cmd_create_recovery(self, p) {
                Ok(o) => {
                    output = o;
                },
                Err(e2) => {
                    return Err(e2);
                },
            }
        } else if *m == "createspend".to_owned() {
            let p = match &req.params {
                Some(p) => p,
                None => {
                    return Err(
                        RpcError::InvalidParams(
                            "Missing 'outpoints', 'destinations' and 'feerate' parameters.".to_owned(),
                        ),
                    );
                },
            };
            match cmd_create_spend(self, p) {
                Ok(o) => {
                    output = o;
                },
                Err(e2) => {
                    return Err(e2);
                },
            }
        } else if *m == "delspendtx".to_owned() {
            let p = match &req.params {
                Some(p) => p,
                None => {
                    return Err(RpcError::InvalidParams("Missing 'txid' parameter.".to_owned()));
                },
            };
            let txid = match get_txid_param(p) {
                Ok(t) => t,
                Err(e2) => {
                    return Err(e2);
                },
            };
            self.delete_spend(txid);
            output = CommandOutput::Empty;
        } else if *m == "getinfo".to_owned() {
            let (ts, prog): (Option<u32>, Option<u32>) = match self.rescan {
                Some((t, pr)) => (Some(t), Some(pr)),
                None => (None, None),
            };
            output = CommandOutput::Info(
                WalletInfo {
                    tip_height: self.tip_height,
                    rescan_timestamp: ts,
                    rescan_progress: prog,
                    coin_count: self.store.coins.len(),
                    draft_count: self.drafts.len(),
                },
            );
        } else if *m == "getnewaddress".to_owned() {
            if self.next_derivation_index == 0xFFFF_FFFFu32 {
                return Err(RpcError::InvalidParams("Derivation indexes exhausted.".to_owned()));
            }
            let idx = self.get_new_address();
            output = CommandOutput::Address(idx);
        } else if *m == "listcoins".to_owned() {
            match cmd_list_coins(self, &req.params) {
                Ok(o) => {
                    output = o;
                },
                Err(e2) => {
                    return Err(e2);
                },
            }
        } else if *m == "listconfirmed".to_owned() {
            let p = match &req.params {
                Some(p) => p,
                None => {
                    return Err(
                        RpcError::InvalidParams(
                            "The 'listconfirmed' command requires 3 parameters: 'start', 'end' and 'limit'.".to_owned(),
                        ),
                    );
                },
            };
            match cmd_list_confirmed(self, p) {
                Ok(o) => {
                    output = o;
                },
                Err(e2) => {
                    return Err(e2);
                },
            }
        } else if *m == "listspendtxs".to_owned() {
            output = CommandOutput::Drafts(self.list_spend());
        } else if *m == "listtransactions".to_owned() {
            let p = match &req.params {
                Some(p) => p,
                None => {
                    return Err(
                        RpcError::InvalidParams(
                            "The 'listtransactions' command requires 1 parameter: 'txids'.".to_owned(),
                        ),
                    );
                },
            };
            match cmd_list_transactions(self, p) {
                Ok(o) => {
                    output = o;
                },
                Err(e2) => {
                    return Err(e2);
                },
            }
        } else if *m == "startrescan".to_owned() {
            let p = match &req.params {
                Some(p) => p,
                None => {
                    return Err(
                        RpcError::InvalidParams("Missing 'timestamp' parameter.".to_owned()),
                    );
                },
            };
            let ts_raw = match get_param(p, 0, &"timestamp".to_owned()) {
                None => {
                    return Err(
                        RpcError::InvalidParams("Missing 'timestamp' parameter.".to_owned()),
                    );
                },
                Some(JsonVal::Scalar(JsonScalar::UInt(v))) => *v,
                Some(_) => {
                    return Err(
                        RpcError::InvalidParams("Invalid 'timestamp' parameter.".to_owned()),
                    );
                },
            };
            if ts_raw > 0xFFFF_FFFF {
                return Err(
                    RpcError::InvalidParams("Invalid 'timestamp' parameter.".to_owned()),
                );
            }
            let ts = ts_raw as u32;
            match self.start_rescan(ts) {
                Ok(()) => {
                    output = CommandOutput::Empty;
                },
                Err(we) => {
                    return Err(RpcError::Command(we));
                },
            }
        } else if *m == "stop".to_owned() {
            output = CommandOutput::Empty;
        } else if *m == "updatespend".to_owned() {
            let p = match &req.params {
                Some(p) => p,
                None => {
                    return Err(RpcError::InvalidParams("Missing 'psbt' parameter.".to_owned()));
                },
            };
            match cmd_update_spend(self, p) {
                Ok(o) => {
                    output = o;
                },
                Err(e2) => {
                    return Err(e2);
                },
            }
        } else if *m == "updatelabels".to_owned() {
            let p = match &req.params {
                Some(p) => p,
                None => {
                    return Err(RpcError::InvalidParams("Missing 'labels' parameter.".to_owned()));
                },
            };
            match cmd_update_labels(self, p) {
                Ok(o) => {
                    output = o;
                },
                Err(e2) => {
                    return Err(e2);
                },
            }
        } else if *m == "getlabels".to_owned() {
            let p = match &req.params {
                Some(p) => p,
                None => {
                    return Err(RpcError::InvalidParams("Missing 'items' parameter.".to_owned()));
                },
            };
            match cmd_get_labels(self, p) {
                Ok(o) => {
                    output = o;
                },
                Err(e2) => {
                    return Err(e2);
                },
            }
        } else {
            return Err(RpcError::MethodNotFound);
        }
        Ok(Response { id: req.id, output })
    }
}

/// Whether the method name is one the protocol serves.
pub open spec fn is_known_method(m: Seq<char>) -> bool {
    ||| m == "broadcastspend"@
    ||| m == "createrecovery"@
    ||| m == "createspend"@
    ||| m == "delspendtx"@
    ||| m == "getinfo"@
    ||| m == "getnewaddress"@
    ||| m == "listcoins"@
    ||| m == "listconfirmed"@
    ||| m == "listspendtxs"@
    ||| m == "listtransactions"@
    ||| m == "startrescan"@
    ||| m == "stop"@
    ||| m == "updatespend"@
    ||| m == "updatelabels"@
    ||| m == "getlabels"@
}

} // verus!
