use std::str::FromStr;

use miniscript::bitcoin;

use walletd::api::{CommandOutput, JsonScalar, JsonVal, ReqParams, Request, RpcError};
use walletd::engine::WalletEngine;
use walletd::types::{ChainEvent, Deposit, NodeResponse, OutPoint, Txid, WalletError};

const ADDR1: &str = "bc1qw508d6qejxtdg4y5r3zarvary0c5xw7kv8f3t4";
const ADDR2: &str = "bc1qrp33g0q5c5txsp9arysrx4k6zdkfs4nce4xj0gdcccefvpysxf3qccfmv3";
const TXID_HEX: &str = "0101010101010101010101010101010101010101010101010101010101010101";

fn engine() -> WalletEngine {
    WalletEngine::new(10, ADDR2.to_string(), true)
}

fn req(method: &str, params: Option<ReqParams>) -> Request {
    Request { id: 7, method: method.to_string(), params }
}

fn call(
    e: &mut WalletEngine,
    method: &str,
    params: Option<ReqParams>,
) -> Result<CommandOutput, RpcError> {
    e.handle_request(&req(method, params), true, &NodeResponse::Accepted).map(|resp| {
        assert_eq!(resp.id, 7);
        resp.output
    })
}

#[test]
fn unknown_method_is_method_not_found_without_mutation() {
    let mut e = engine();
    let before = e.store.coins.len();
    let r = call(&mut e, "fooop", None);
    assert!(matches!(r, Err(RpcError::MethodNotFound)));
    assert_eq!(e.store.coins.len(), before);
    assert_eq!(e.drafts.len(), 0);
    assert_eq!(e.labels.len(), 0);
}

#[test]
fn stop_and_getinfo_answer() {
    let mut e = engine();
    assert!(matches!(call(&mut e, "stop", None), Ok(CommandOutput::Empty)));
    match call(&mut e, "getinfo", None) {
        Ok(CommandOutput::Info(info)) => {
            assert_eq!(info.tip_height, 0);
            assert_eq!(info.rescan_timestamp, None);
            assert_eq!(info.coin_count, 0);
        },
        other => panic!("unexpected: {:?}", other),
    }
}

#[test]
fn update_labels_caps_value_at_100_characters() {
    let mut e = engine();
    let long = "x".repeat(101);
    let exact = "y".repeat(100);
    let p = ReqParams::ByPosition(vec![JsonVal::Obj(vec![(
        TXID_HEX.to_string(),
        JsonScalar::Str(long),
    )])]);
    let r = call(&mut e, "updatelabels", Some(p));
    assert!(matches!(r, Err(RpcError::InvalidParams(_))));
    assert_eq!(e.labels.len(), 0);

    let p2 = ReqParams::ByPosition(vec![JsonVal::Obj(vec![(
        TXID_HEX.to_string(),
        JsonScalar::Str(exact.clone()),
    )])]);
    let r2 = call(&mut e, "updatelabels", Some(p2));
    assert!(matches!(r2, Ok(CommandOutput::Empty)));
    assert_eq!(e.labels.len(), 1);
    assert_eq!(e.labels[0].1, exact);
}

#[test]
fn labels_roundtrip_and_item_validation() {
    let mut e = engine();
    // a label on an address and on an outpoint
    let p = ReqParams::ByPosition(vec![JsonVal::Obj(vec![
        (ADDR1.to_string(), JsonScalar::Str("savings".to_string())),
        (format!("{}:3", TXID_HEX), JsonScalar::Str("change".to_string())),
    ])]);
    call(&mut e, "updatelabels", Some(p)).unwrap();
    let q = ReqParams::ByPosition(vec![JsonVal::Arr(vec![
        JsonScalar::Str(ADDR1.to_string()),
        JsonScalar::Str(format!("{}:3", TXID_HEX)),
        JsonScalar::Str(TXID_HEX.to_string()),
    ])]);
    match call(&mut e, "getlabels", Some(q)) {
        Ok(CommandOutput::Labels(ls)) => {
            assert_eq!(ls.len(), 2);
            assert_eq!(ls[0].1, "savings");
            assert_eq!(ls[1].1, "change");
        },
        other => panic!("unexpected: {:?}", other),
    }
    // a malformed item is an invalid-params error, not a silent skip
    let bad = ReqParams::ByPosition(vec![JsonVal::Obj(vec![(
        "garbage".to_string(),
        JsonScalar::Str("v".to_string()),
    )])]);
    let r = call(&mut e, "updatelabels", Some(bad));
    assert!(matches!(r, Err(RpcError::InvalidParams(_))));
    // overwriting keeps one entry per item
    let p2 = ReqParams::ByPosition(vec![JsonVal::Obj(vec![(
        ADDR1.to_string(),
        JsonScalar::Str("cold".to_string()),
    )])]);
    call(&mut e, "updatelabels", Some(p2)).unwrap();
    assert_eq!(e.labels.len(), 2);
}

#[test]
fn createspend_over_the_protocol() {
    let mut e = engine();
    e.apply_chain_events(&vec![ChainEvent::Funded(Deposit {
        outpoint: OutPoint { txid: Txid { w0: 1, w1: 0, w2: 0, w3: 0 }, vout: 0 },
        amount: 100_000,
        derivation_index: 0,
        height: Some(10),
    })]);
    let p = ReqParams::ByPosition(vec![
        JsonVal::Obj(vec![(ADDR1.to_string(), JsonScalar::UInt(50_000))]),
        JsonVal::Arr(vec![]),
        JsonVal::Scalar(JsonScalar::UInt(5)),
    ]);
    match call(&mut e, "createspend", Some(p)) {
        Ok(CommandOutput::SpendDraft(d)) => {
            assert_eq!(d.outputs.len(), 2);
            assert_eq!(d.fee, 735);
        },
        other => panic!("unexpected: {:?}", other),
    }
    // missing parameters are invalid-params, before the engine runs
    let r = call(&mut e, "createspend", None);
    assert!(matches!(r, Err(RpcError::InvalidParams(_))));
    let r2 = call(&mut e, "createspend", Some(ReqParams::ByPosition(vec![])));
    assert!(matches!(r2, Err(RpcError::InvalidParams(_))));
}

#[test]
fn startrescan_and_delspendtx_over_the_protocol() {
    let mut e = engine();
    e.set_tip(500);
    let p = ReqParams::ByPosition(vec![JsonVal::Scalar(JsonScalar::UInt(1_600_000_000))]);
    assert!(matches!(call(&mut e, "startrescan", Some(p)), Ok(CommandOutput::Empty)));
    let p2 = ReqParams::ByPosition(vec![JsonVal::Scalar(JsonScalar::UInt(1_600_000_000))]);
    let r = call(&mut e, "startrescan", Some(p2));
    assert!(matches!(
        r,
        Err(RpcError::Command(WalletError::RescanAlreadyInProgress))
    ));
    // deleting by an id that parses but names nothing is a quiet success
    let p3 = ReqParams::ByPosition(vec![JsonVal::Scalar(JsonScalar::Str(TXID_HEX.to_string()))]);
    assert!(matches!(call(&mut e, "delspendtx", Some(p3)), Ok(CommandOutput::Empty)));
    // an id that does not parse is invalid params
    let p4 = ReqParams::ByPosition(vec![JsonVal::Scalar(JsonScalar::Str("zz".to_string()))]);
    assert!(matches!(
        call(&mut e, "delspendtx", Some(p4)),
        Err(RpcError::InvalidParams(_))
    ));
}

#[test]
fn by_name_parameters_work() {
    let mut e = engine();
    let p = ReqParams::ByName(vec![(
        "timestamp".to_string(),
        JsonVal::Scalar(JsonScalar::UInt(123)),
    )]);
    e.set_tip(9);
    assert!(matches!(call(&mut e, "startrescan", Some(p)), Ok(CommandOutput::Empty)));
    assert_eq!(e.rescan, Some((123, 0)));
}

#[test]
fn parse_txid_and_outpoint_strings() {
    let t = walletd::parse::parse_txid(TXID_HEX).unwrap();
    assert_eq!(t, Txid { w0: 0x0101010101010101, w1: 0x0101010101010101, w2: 0x0101010101010101, w3: 0x0101010101010101 });
    assert!(walletd::parse::parse_txid("0101").is_none());
    assert!(walletd::parse::parse_txid(&"zz".repeat(32)).is_none());
    let o = walletd::parse::parse_outpoint(&format!("{}:42", TXID_HEX)).unwrap();
    assert_eq!(o.vout, 42);
    assert_eq!(o.txid, t);
    assert!(walletd::parse::parse_outpoint(TXID_HEX).is_none());
    assert!(walletd::parse::parse_outpoint(&format!("{}:4294967296", TXID_HEX)).is_none());
    // a txid whose display hex is asymmetric maps to the right words
    let t2 = walletd::parse::parse_txid(
        "00000000000000000000000000000000000000000000000000000000000000ff",
    )
    .unwrap();
    assert_eq!(t2.w3, 0xff00_0000_0000_0000);
    assert_eq!(t2.w0, 0);
}

#[test]
fn draft_txid_matches_the_real_transaction_hash() {
    let mut e = engine();
    e.apply_chain_events(&vec![ChainEvent::Funded(Deposit {
        outpoint: OutPoint {
            txid: walletd::parse::parse_txid(TXID_HEX).unwrap(),
            vout: 1,
        },
        amount: 100_000,
        derivation_index: 0,
        height: Some(10),
    })]);
    let d = e
        .create_spend(
            &vec![walletd::types::Dest { address: ADDR1.to_string(), amount: 50_000 }],
            &vec![],
            5,
        )
        .unwrap();
    // rebuild the same unsigned transaction with the bitcoin library
    let tx = bitcoin::Transaction {
        version: 2,
        lock_time: bitcoin::absolute::LockTime::ZERO,
        input: vec![bitcoin::TxIn {
            previous_output: bitcoin::OutPoint {
                txid: bitcoin::Txid::from_str(TXID_HEX).unwrap(),
                vout: 1,
            },
            ..Default::default()
        }],
        output: d
            .outputs
            .iter()
            .map(|o| bitcoin::TxOut {
                value: o.amount,
                script_pubkey: bitcoin::Address::from_str(&o.address)
                    .unwrap()
                    .assume_checked()
                    .script_pubkey(),
            })
            .collect(),
    };
    let expect = walletd::parse::parse_txid(&tx.txid().to_string()).unwrap();
    assert_eq!(d.txid, expect);
}

#[test]
fn psbt_decoding_feeds_update_spend() {
    let mut e = engine();
    e.apply_chain_events(&vec![ChainEvent::Funded(Deposit {
        outpoint: OutPoint {
            txid: walletd::parse::parse_txid(TXID_HEX).unwrap(),
            vout: 1,
        },
        amount: 100_000,
        derivation_index: 0,
        height: Some(10),
    })]);
    let d = e
        .create_spend(
            &vec![walletd::types::Dest { address: ADDR1.to_string(), amount: 50_000 }],
            &vec![],
            5,
        )
        .unwrap();
    // a PSBT over the same unsigned transaction updates the stored draft
    let tx = bitcoin::Transaction {
        version: 2,
        lock_time: bitcoin::absolute::LockTime::ZERO,
        input: vec![bitcoin::TxIn {
            previous_output: bitcoin::OutPoint {
                txid: bitcoin::Txid::from_str(TXID_HEX).unwrap(),
                vout: 1,
            },
            ..Default::default()
        }],
        output: d
            .outputs
            .iter()
            .map(|o| bitcoin::TxOut {
                value: o.amount,
                script_pubkey: bitcoin::Address::from_str(&o.address)
                    .unwrap()
                    .assume_checked()
                    .script_pubkey(),
            })
            .collect(),
    };
    let psbt = bitcoin::psbt::PartiallySignedTransaction::from_unsigned_tx(tx).unwrap();
    let psbt_str = psbt.to_string();
    let (txid, inputs, payload) = walletd::btc::parse_psbt(&psbt_str).unwrap();
    assert_eq!(txid, d.txid);
    assert_eq!(inputs, d.inputs);
    assert!(!payload.is_empty());
    let p = ReqParams::ByPosition(vec![JsonVal::Scalar(JsonScalar::Str(psbt_str))]);
    let mut e2 = e;
    match e2.handle_request(&req("updatespend", Some(p)), true, &NodeResponse::Accepted) {
        Ok(resp) => assert!(matches!(resp.output, CommandOutput::Empty)),
        Err(err) => panic!("unexpected: {:?}", err),
    }
    assert_eq!(e2.list_spend()[0].payload, payload);
}

#[test]
fn broadcast_over_the_protocol_reports_node_answer() {
    let mut e = engine();
    e.apply_chain_events(&vec![ChainEvent::Funded(Deposit {
        outpoint: OutPoint { txid: Txid { w0: 3, w1: 0, w2: 0, w3: 0 }, vout: 0 },
        amount: 100_000,
        derivation_index: 0,
        height: Some(10),
    })]);
    let d = e
        .create_spend(
            &vec![walletd::types::Dest { address: ADDR1.to_string(), amount: 50_000 }],
            &vec![],
            5,
        )
        .unwrap();
    // the txid travels as its display hex; reuse the library's own words
    let hex: String = {
        let words = [d.txid.w0, d.txid.w1, d.txid.w2, d.txid.w3];
        let mut bytes = Vec::new();
        for w in words.iter() {
            bytes.extend_from_slice(&w.to_le_bytes());
        }
        bytes.iter().map(|b| format!("{:02x}", b)).collect()
    };
    let p = ReqParams::ByPosition(vec![JsonVal::Scalar(JsonScalar::Str(hex.clone()))]);
    let r = e.handle_request(&req("broadcastspend", Some(p)), true, &NodeResponse::Unavailable);
    assert!(matches!(r, Err(RpcError::Command(WalletError::NodeUnavailable))));
    let p2 = ReqParams::ByPosition(vec![JsonVal::Scalar(JsonScalar::Str(hex))]);
    let r2 = e.handle_request(&req("broadcastspend", Some(p2)), true, &NodeResponse::Accepted);
    assert!(r2.is_ok());
    assert_eq!(e.list_spend().len(), 0);
}

#[test]
fn query_commands_reject_undecodable_filters() {
    let mut e = engine();
    // an unknown status string is rejected, not skipped
    let p = ReqParams::ByName(vec![(
        "statuses".to_string(),
        JsonVal::Arr(vec![JsonScalar::Str("fooo".to_string())]),
    )]);
    assert!(matches!(
        call(&mut e, "listcoins", Some(p)),
        Err(RpcError::InvalidParams(_))
    ));
    // a malformed outpoint in the listcoins filter is rejected
    let p2 = ReqParams::ByName(vec![(
        "outpoints".to_string(),
        JsonVal::Arr(vec![JsonScalar::Str("xyz".to_string())]),
    )]);
    assert!(matches!(
        call(&mut e, "listcoins", Some(p2)),
        Err(RpcError::InvalidParams(_))
    ));
    // a malformed txid in listtransactions is rejected
    let p3 = ReqParams::ByPosition(vec![JsonVal::Arr(vec![JsonScalar::Str("zz".to_string())])]);
    assert!(matches!(
        call(&mut e, "listtransactions", Some(p3)),
        Err(RpcError::InvalidParams(_))
    ));
    // a missing start names the field
    let p4 = ReqParams::ByName(vec![
        ("end".to_string(), JsonVal::Scalar(JsonScalar::UInt(10))),
        ("limit".to_string(), JsonVal::Scalar(JsonScalar::UInt(10))),
    ]);
    assert!(matches!(
        call(&mut e, "listconfirmed", Some(p4)),
        Err(RpcError::InvalidParams(m)) if m == "Missing 'start' parameter."
    ));
    // a malformed getlabels item is rejected, not skipped
    let p5 = ReqParams::ByPosition(vec![JsonVal::Arr(vec![JsonScalar::Str(
        "zz-not-an-item".to_string(),
    )])]);
    assert!(matches!(
        call(&mut e, "getlabels", Some(p5)),
        Err(RpcError::InvalidParams(_))
    ));
}
