//! Cross-cutting guarantees of the engine, stated and proved once: a coin
//! consumed by a stored draft can never be picked again while the draft
//! lives, and stored drafts never contend for a coin.

use vstd::prelude::*;

use crate::btc::spend_err_ok;
use crate::engine::{
    candidate_set, drafts_disjoint, selectable_coin, selectable_op, spec_reserved, WalletEngine,
};
use crate::types::{Dest, Draft, OutPoint, WalletError};

verus! {

/// A coin consumed by a stored draft is not selectable: neither a spend
/// creation nor a recovery sweep can pick it until the draft is deleted or
/// broadcast, so no two drafts can ever be built over the same coin.
pub proof fn lemma_no_double_reservation(e: WalletEngine, d: Draft, op: OutPoint)
    requires
        e.wf(),
        e.drafts@.contains(d),
        d.inputs@.contains(op),
    ensures
        !selectable_op(e, op),
        spec_reserved(e, op),
{
    let w = choose|w: int| 0 <= w < e.drafts@.len() && e.drafts@[w] == d;
    assert(e.drafts@[w].inputs@.contains(op));
}

/// A reserved outpoint never appears in the candidate set a spend creation
/// selects from.
pub proof fn lemma_reserved_not_candidate(e: WalletEngine, ops: Seq<OutPoint>, op: OutPoint)
    requires
        e.wf(),
        spec_reserved(e, op),
    ensures
        forall|a: int|
            0 <= a < candidate_set(e, ops).len() ==> (#[trigger] candidate_set(e, ops)[a]).outpoint
                != op,
{
    if ops.len() == 0 {
        crate::engine::lemma_coins_where(e.store.coins@, |c: crate::types::Coin| selectable_coin(e, c));
    } else {
        crate::engine::lemma_coins_where(
            e.store.coins@,
            |c: crate::types::Coin| ops.contains(c.outpoint) && selectable_coin(e, c),
        );
    }
}

/// Two distinct stored drafts never consume the same outpoint.
pub proof fn lemma_active_drafts_disjoint(e: WalletEngine, i: int, j: int)
    requires
        e.wf(),
        0 <= i < e.drafts@.len(),
        0 <= j < e.drafts@.len(),
        i != j,
    ensures
        drafts_disjoint(e.drafts@[i], e.drafts@[j]),
{
    if i < j {
        assert(drafts_disjoint(e.drafts@[i], e.drafts@[j]));
    } else {
        assert(drafts_disjoint(e.drafts@[j], e.drafts@[i]));
    }
}

/// On a wallet with no stored draft, a spend creation that fails reports
/// a request, availability or funds problem, never an id collision: with
/// the request decodable, every address parseable and the candidate value
/// sufficient, success is owed.
pub proof fn lemma_fresh_wallet_no_collision(
    e: WalletEngine,
    dests: Seq<Dest>,
    ops: Seq<OutPoint>,
    feerate: u64,
    we: WalletError,
)
    requires
        e.drafts@.len() == 0,
        spend_err_ok(e, dests, ops, feerate, we),
    ensures
        !(we is DuplicateDraftId),
{
}

} // verus!
