use walletd::types::{ChainEvent, CoinStatus, Deposit, Dest, NodeResponse, OutPoint, Txid, TxRecord, WalletError};
use walletd::engine::WalletEngine;

const ADDR1: &str = "bc1qw508d6qejxtdg4y5r3zarvary0c5xw7kv8f3t4";
const ADDR2: &str = "bc1qrp33g0q5c5txsp9arysrx4k6zdkfs4nce4xj0gdcccefvpysxf3qccfmv3";

fn op(n: u64) -> OutPoint {
    OutPoint { txid: Txid { w0: n, w1: 0, w2: 0, w3: 0 }, vout: 0 }
}

fn engine() -> WalletEngine {
    WalletEngine::new(10, ADDR2.to_string(), true)
}

fn fund(e: &mut WalletEngine, o: OutPoint, amount: u64, height: Option<u32>) {
    let evs = vec![ChainEvent::Funded(Deposit { outpoint: o, amount, derivation_index: 0, height })];
    assert!(e.apply_chain_events(&evs));
}

fn dest(amount: u64) -> Dest {
    Dest { address: ADDR1.to_string(), amount }
}

#[test]
fn create_spend_with_change_and_exact_fee() {
    let mut e = engine();
    fund(&mut e, op(1), 100_000, Some(100));
    e.set_tip(150);
    let d = e.create_spend(&vec![dest(50_000)], &vec![], 5).unwrap();
    assert_eq!(d.outputs.len(), 2);
    assert_eq!(d.inputs.len(), 1);
    // fee is feerate times the estimated vsize: 5 * (11 + 68 + 2 * 34)
    assert_eq!(d.fee, 735);
    assert_eq!(d.outputs[0].amount, 50_000);
    assert_eq!(d.outputs[1].amount, 100_000 - 50_000 - 735);
    assert_eq!(d.outputs[1].address, ADDR2.to_string());
    assert_eq!(d.change_index, Some(1));
    assert_eq!(d.feerate, 5);
}

#[test]
fn create_spend_insufficient_funds() {
    let mut e = engine();
    fund(&mut e, op(1), 100_000, Some(100));
    let r = e.create_spend(&vec![dest(150_000)], &vec![], 5);
    assert!(matches!(r, Err(WalletError::InsufficientFunds)));
}

#[test]
fn create_spend_value_equation() {
    let mut e = engine();
    fund(&mut e, op(1), 70_000, Some(1));
    fund(&mut e, op(2), 30_000, Some(2));
    let d = e.create_spend(&vec![dest(80_000)], &vec![], 3).unwrap();
    let input_total: u64 = 100_000;
    assert_eq!(d.inputs.len(), 2);
    let out_total: u64 = d.outputs.iter().map(|o| o.amount).sum();
    assert_eq!(input_total, out_total + d.fee);
}

#[test]
fn create_spend_exact_match_no_change() {
    let mut e = engine();
    // exactly the target plus the no-change fee: 10_000 + 5 * (11 + 68 + 34)
    fund(&mut e, op(1), 10_565, Some(1));
    let d = e.create_spend(&vec![dest(10_000)], &vec![], 5).unwrap();
    assert_eq!(d.outputs.len(), 1);
    assert_eq!(d.change_index, None);
    assert_eq!(d.fee, 565);
}

#[test]
fn create_spend_dust_change_absorbed_into_fee() {
    let mut e = engine();
    // covers target plus with-change fee, but the residual is under the
    // dust threshold (102 * 5 = 510), so it is paid to the miner instead
    fund(&mut e, op(1), 10_900, Some(1));
    let d = e.create_spend(&vec![dest(10_000)], &vec![], 5).unwrap();
    assert_eq!(d.outputs.len(), 1);
    assert_eq!(d.change_index, None);
    assert_eq!(d.fee, 900);
}

#[test]
fn create_spend_rejects_bad_params() {
    let mut e = engine();
    fund(&mut e, op(1), 100_000, Some(1));
    assert!(matches!(
        e.create_spend(&vec![dest(1_000)], &vec![], 0),
        Err(WalletError::InvalidParams(_))
    ));
    assert!(matches!(
        e.create_spend(&vec![], &vec![], 5),
        Err(WalletError::InvalidParams(_))
    ));
    assert!(matches!(
        e.create_spend(&vec![Dest { address: "not-an-address".to_string(), amount: 1000 }], &vec![], 5),
        Err(WalletError::InvalidParams(_))
    ));
}

#[test]
fn create_spend_rejects_unknown_outpoint() {
    let mut e = engine();
    fund(&mut e, op(1), 100_000, Some(1));
    let r = e.create_spend(&vec![dest(1_000)], &vec![op(9)], 5);
    assert!(matches!(r, Err(WalletError::InvalidOutpoint(o)) if o == op(9)));
}

#[test]
fn reserved_coin_never_selectable_again() {
    let mut e = engine();
    fund(&mut e, op(1), 100_000, Some(1));
    fund(&mut e, op(2), 100_000, Some(2));
    let d1 = e.create_spend(&vec![dest(90_000)], &vec![], 1).unwrap();
    let d2 = e.create_spend(&vec![dest(90_000)], &vec![], 1).unwrap();
    assert_eq!(d1.inputs.len(), 1);
    assert_eq!(d2.inputs.len(), 1);
    assert_ne!(d1.inputs[0], d2.inputs[0]);
    // both coins now reserved: a third spend finds nothing
    let r = e.create_spend(&vec![dest(1_000)], &vec![], 1);
    assert!(matches!(r, Err(WalletError::InsufficientFunds)));
    // explicitly requesting a reserved coin is a state error
    let r2 = e.create_spend(&vec![dest(1_000)], &vec![d1.inputs[0]], 1);
    assert!(matches!(r2, Err(WalletError::InvalidOutpoint(_))));
}

#[test]
fn update_spend_same_set_succeeds_other_set_fails() {
    let mut e = engine();
    fund(&mut e, op(1), 100_000, Some(1));
    let d = e.create_spend(&vec![dest(50_000)], &vec![], 5).unwrap();
    // identical input set: payload replaced
    let r = e.update_spend(d.txid, &d.inputs, vec![1, 2, 3]);
    assert!(r.is_ok());
    let stored = &e.list_spend()[0];
    assert_eq!(stored.payload, vec![1, 2, 3]);
    // different input set: rejected
    let r2 = e.update_spend(d.txid, &vec![op(7)], vec![9]);
    assert!(matches!(r2, Err(WalletError::InputSetMismatch)));
    // unknown draft id
    let r3 = e.update_spend(Txid { w0: 9, w1: 9, w2: 9, w3: 9 }, &d.inputs, vec![]);
    assert!(matches!(r3, Err(WalletError::UnknownSpend(_))));
}

#[test]
fn delete_spend_is_idempotent() {
    let mut e = engine();
    fund(&mut e, op(1), 100_000, Some(1));
    let d = e.create_spend(&vec![dest(50_000)], &vec![], 5).unwrap();
    assert_eq!(e.list_spend().len(), 1);
    // deleting an unknown id is a no-op
    e.delete_spend(Txid { w0: 5, w1: 5, w2: 5, w3: 5 });
    assert_eq!(e.list_spend().len(), 1);
    e.delete_spend(d.txid);
    assert_eq!(e.list_spend().len(), 0);
    // a second delete leaves the same end state as one
    e.delete_spend(d.txid);
    assert_eq!(e.list_spend().len(), 0);
    // the coin is selectable again
    let d2 = e.create_spend(&vec![dest(50_000)], &vec![], 5).unwrap();
    assert_eq!(d2.inputs[0], op(1));
}

#[test]
fn broadcast_lifecycle() {
    let mut e = engine();
    fund(&mut e, op(1), 100_000, Some(1));
    let d = e.create_spend(&vec![dest(50_000)], &vec![], 5).unwrap();
    // incomplete signatures keep the draft
    let r = e.broadcast_spend(d.txid, false, &NodeResponse::Accepted);
    assert!(matches!(r, Err(WalletError::IncompleteSignatures)));
    assert_eq!(e.list_spend().len(), 1);
    // a node rejection keeps the draft for retry
    let r2 = e.broadcast_spend(d.txid, true, &NodeResponse::Rejected("bad".to_string()));
    assert!(matches!(r2, Err(WalletError::BroadcastRejected(m)) if m == "bad"));
    assert_eq!(e.list_spend().len(), 1);
    // an unreachable node is a retryable failure
    let r3 = e.broadcast_spend(d.txid, true, &NodeResponse::Unavailable);
    assert!(matches!(r3, Err(WalletError::NodeUnavailable)));
    assert_eq!(e.list_spend().len(), 1);
    // acceptance moves the coin to spending and retires the draft
    e.broadcast_spend(d.txid, true, &NodeResponse::Accepted).unwrap();
    assert_eq!(e.list_spend().len(), 0);
    let coins = e.list_coins(&vec![CoinStatus::Spending], &vec![]);
    assert_eq!(coins.len(), 1);
    assert_eq!(coins[0].spend_txid, Some(d.txid));
    // the spend confirms later, through the chain path
    let evs = vec![ChainEvent::SpendConfirmed(op(1))];
    e.apply_chain_events(&evs);
    assert_eq!(e.list_coins(&vec![CoinStatus::Spent], &vec![]).len(), 1);
    // unknown draft
    let r4 = e.broadcast_spend(d.txid, true, &NodeResponse::Accepted);
    assert!(matches!(r4, Err(WalletError::UnknownSpend(_))));
}

#[test]
fn recovery_selects_exactly_matured_coins() {
    let mut e = engine();
    // timelock 10: matured at tip 100 means confirmed at height <= 90
    fund(&mut e, op(1), 40_000, Some(50));
    fund(&mut e, op(2), 25_000, Some(95));
    fund(&mut e, op(3), 10_000, None);
    e.set_tip(100);
    let d = e.create_recovery(ADDR1.to_string(), 2, None).unwrap();
    assert_eq!(d.inputs, vec![op(1)]);
    assert_eq!(d.outputs.len(), 1);
    // fee: 2 * (11 + 68 + 34)
    assert_eq!(d.fee, 226);
    assert_eq!(d.outputs[0].amount, 40_000 - 226);
    assert_eq!(d.change_index, None);
}

#[test]
fn recovery_override_and_empty_set() {
    let mut e = engine();
    fund(&mut e, op(1), 40_000, Some(50));
    fund(&mut e, op(2), 25_000, Some(95));
    e.set_tip(100);
    // an override of 5 blocks also matures the second coin
    let d = e.create_recovery(ADDR1.to_string(), 2, Some(5)).unwrap();
    assert_eq!(d.inputs, vec![op(1), op(2)]);
    // nothing matured under a huge override
    let r = e.create_recovery(ADDR1.to_string(), 2, Some(60_000));
    assert!(matches!(r, Err(WalletError::NoMaturedCoins)));
    // feerate of zero is rejected before anything else
    let r2 = e.create_recovery(ADDR1.to_string(), 0, None);
    assert!(matches!(r2, Err(WalletError::InvalidParams(_))));
}

#[test]
fn rescan_state_machine_and_idempotent_replay() {
    let mut e = engine();
    e.set_tip(1000);
    assert!(e.start_rescan(1_600_000_000).is_ok());
    assert!(matches!(
        e.start_rescan(1_600_000_000),
        Err(WalletError::RescanAlreadyInProgress)
    ));
    let evs = vec![
        ChainEvent::Funded(Deposit { outpoint: op(1), amount: 5_000, derivation_index: 0, height: Some(10) }),
        ChainEvent::Funded(Deposit { outpoint: op(2), amount: 7_000, derivation_index: 1, height: Some(12) }),
    ];
    e.rescan_step(12, &evs).unwrap();
    assert_eq!(e.list_coins(&vec![], &vec![]).len(), 2);
    // replaying the very same range never duplicates a coin
    e.rescan_step(12, &evs).unwrap();
    assert_eq!(e.list_coins(&vec![], &vec![]).len(), 2);
    // progress never decreases
    e.rescan_step(5, &vec![]).unwrap();
    assert_eq!(e.rescan, Some((1_600_000_000, 12)));
    // reaching the tip completes the rescan
    e.rescan_step(1000, &vec![]).unwrap();
    assert_eq!(e.rescan, None);
    // a step without a rescan in flight is refused
    assert!(matches!(
        e.rescan_step(1001, &vec![]),
        Err(WalletError::NoRescanInProgress)
    ));
}

#[test]
fn reorg_revert_restores_statuses() {
    let mut e = engine();
    fund(&mut e, op(1), 10_000, Some(5));
    e.apply_chain_events(&vec![ChainEvent::SpendSeen(op(1), Txid { w0: 9, w1: 0, w2: 0, w3: 0 })]);
    assert_eq!(e.list_coins(&vec![CoinStatus::Spending], &vec![]).len(), 1);
    e.apply_chain_events(&vec![ChainEvent::SpendReverted(op(1))]);
    let coins = e.list_coins(&vec![CoinStatus::Confirmed], &vec![]);
    assert_eq!(coins.len(), 1);
    assert_eq!(coins[0].spend_txid, None);
}

#[test]
fn list_coins_filters_intersect() {
    let mut e = engine();
    fund(&mut e, op(1), 10_000, Some(5));
    fund(&mut e, op(2), 20_000, None);
    assert_eq!(e.list_coins(&vec![], &vec![]).len(), 2);
    assert_eq!(e.list_coins(&vec![CoinStatus::Unconfirmed], &vec![]).len(), 1);
    assert_eq!(e.list_coins(&vec![CoinStatus::Unconfirmed], &vec![op(1)]).len(), 0);
    assert_eq!(e.list_coins(&vec![], &vec![op(1)]).len(), 1);
}

#[test]
fn transaction_history_upsert_and_queries() {
    let mut e = engine();
    let t1 = Txid { w0: 1, w1: 0, w2: 0, w3: 0 };
    let t2 = Txid { w0: 2, w1: 0, w2: 0, w3: 0 };
    e.record_transaction(TxRecord { txid: t1, height: None, time: None });
    e.record_transaction(TxRecord { txid: t2, height: Some(80), time: Some(123) });
    // confirming later overwrites in place
    e.record_transaction(TxRecord { txid: t1, height: Some(90), time: Some(456) });
    assert_eq!(e.txs.len(), 2);
    let got = e.list_transactions(&vec![t1]);
    assert_eq!(got.len(), 1);
    assert_eq!(got[0].height, Some(90));
    let page = e.list_confirmed(0, 100, 1);
    assert_eq!(page.len(), 1);
    assert_eq!(page[0].txid, t1);
    let page2 = e.list_confirmed(0, 100, 10);
    assert_eq!(page2.len(), 2);
    let page3 = e.list_confirmed(85, 100, 10);
    assert_eq!(page3.len(), 1);
}

#[test]
fn get_new_address_increments() {
    let mut e = engine();
    assert_eq!(e.get_new_address(), 0);
    assert_eq!(e.get_new_address(), 1);
    assert_eq!(e.next_derivation_index, 2);
}

#[test]
fn deposit_over_money_supply_is_refused() {
    let mut e = engine();
    fund(&mut e, op(1), 2_000_000_000_000_000, Some(1));
    // a second deposit that would push the recorded total over the money
    // supply is refused and reported, leaving the store as it was
    let evs = vec![ChainEvent::Funded(Deposit {
        outpoint: op(2),
        amount: 200_000_000_000_001,
        derivation_index: 0,
        height: Some(2),
    })];
    assert!(!e.apply_chain_events(&evs));
    assert_eq!(e.list_coins(&vec![], &vec![]).len(), 1);
    // replaying a deposit for a known coin never doubles it
    fund(&mut e, op(1), 2_000_000_000_000_000, Some(1));
    assert_eq!(e.list_coins(&vec![], &vec![]).len(), 1);
}

#[test]
fn create_spend_absorbs_residual_when_all_coins_fall_short_of_change() {
    let mut e = engine();
    // covers the destinations plus the no-change fee (565) but not the
    // with-change fee (735): every coin is consumed and the residual goes
    // to the miner instead of failing
    fund(&mut e, op(1), 10_600, Some(1));
    let d = e.create_spend(&vec![dest(10_000)], &vec![], 5).unwrap();
    assert_eq!(d.outputs.len(), 1);
    assert_eq!(d.change_index, None);
    assert_eq!(d.fee, 600);
}

#[test]
fn selection_is_deterministic_across_identical_wallets() {
    let mk = || {
        let mut e = engine();
        fund(&mut e, op(1), 40_000, Some(1));
        fund(&mut e, op(2), 70_000, Some(2));
        fund(&mut e, op(3), 70_000, Some(3));
        e
    };
    let mut e1 = mk();
    let mut e2 = mk();
    let d1 = e1.create_spend(&vec![dest(90_000)], &vec![], 2).unwrap();
    let d2 = e2.create_spend(&vec![dest(90_000)], &vec![], 2).unwrap();
    assert_eq!(d1.inputs, d2.inputs);
    assert_eq!(d1.fee, d2.fee);
    assert_eq!(d1.txid, d2.txid);
    // largest first, and the first of two equal amounts wins
    assert_eq!(d1.inputs[0], op(2));
}
