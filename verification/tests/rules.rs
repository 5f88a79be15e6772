//! Edge cases of the rules, and each promise they keep on concrete values.

use esplora_quorum::policy::{
    self, agreed_tip, collect, collect_rendered, is_already_known, quorum_warning,
    reconcile_address_txs, reconcile_hex, reconcile_outspend, reconcile_tx,
};
use esplora_quorum::{AddressTx, Answer, Error, Outspend, TxInfo, TxStatus, Vout};

fn status(confirmed: bool, height: Option<u64>) -> TxStatus {
    TxStatus { confirmed, block_height: height, block_hash: None, block_time: None }
}

fn said(base: &str, confirmed: bool, height: Option<u64>) -> Answer<TxInfo> {
    let info = TxInfo { txid: format!("from {base}"), status: status(confirmed, height) };
    (base.to_string(), Some(info))
}

fn spend(base: &str, txid: Option<&str>, seen: Option<TxStatus>) -> Answer<Outspend> {
    let o = Outspend { spent: true, txid: txid.map(|t| t.to_string()), status: seen };
    (base.to_string(), Some(o))
}

fn no_spend(base: &str) -> Answer<Outspend> {
    (base.to_string(), Some(Outspend { spent: false, txid: None, status: None }))
}

fn paying(txid: &str, address: &str, value: u64, seen: TxStatus) -> AddressTx {
    AddressTx {
        txid: txid.to_string(),
        status: seen,
        vout: vec![Vout { scriptpubkey_address: Some(address.to_string()), value }],
    }
}

fn list(base: &str, txs: Vec<AddressTx>) -> Answer<Vec<AddressTx>> {
    (base.to_string(), Some(txs))
}

fn silent<T>(base: &str) -> Answer<T> {
    (base.to_string(), None)
}

// Transactions.

#[test]
fn tx_names_the_last_who_agreed_and_the_first_who_did_not() {
    let err = reconcile_tx(
        "t",
        vec![
            said("A", true, Some(5)),
            said("B", true, Some(5)),
            said("C", false, None),
            said("D", true, Some(6)),
            said("E", true, Some(7)),
        ],
    )
    .unwrap_err();
    assert_eq!(
        err,
        Error::HeightDisagreement {
            txid: "t".into(),
            a: "B".into(),
            a_height: 5,
            b: "D".into(),
            b_height: 6,
        }
    );
}

#[test]
fn tx_ties_go_to_the_last_except_among_heightless_confirmations() {
    let got = |answers| reconcile_tx("t", answers).unwrap().unwrap().txid;
    assert_eq!(got(vec![said("A", true, Some(5)), said("B", true, Some(5))]), "from B");
    assert_eq!(got(vec![said("A", true, None), said("B", true, None)]), "from A");
    assert_eq!(got(vec![said("A", false, None), said("B", false, None)]), "from B");
    assert_eq!(got(vec![said("A", true, None), said("B", false, Some(9))]), "from A");
}

#[test]
fn tx_an_unconfirmed_height_contradicts_nothing() {
    let got = reconcile_tx("t", vec![said("A", false, Some(4)), said("B", true, Some(5))]);
    assert_eq!(got.unwrap().unwrap().status.block_height, Some(5));
    assert_eq!(reconcile_tx("t", vec![]).unwrap(), None);
}

#[test]
fn tx_lag_changes_nothing_wherever_it_stands() {
    for at in 0..3 {
        let mut answers = vec![said("A", false, None), said("B", true, Some(5))];
        answers.insert(at, silent("Z"));
        assert_eq!(reconcile_tx("t", answers).unwrap().unwrap().txid, "from B");
    }
}

// Hex.

#[test]
fn hex_names_the_last_who_agreed_and_the_first_who_did_not() {
    let hex = |base: &str, h: &str| (base.to_string(), Some(h.to_string()));
    let err = reconcile_hex(
        "t",
        vec![hex("A", "aa"), hex("B", " aa\t"), silent("C"), hex("D", "ab"), hex("E", "aa")],
    )
    .unwrap_err();
    assert_eq!(
        err,
        Error::BytesDisagreement { txid: "t".into(), a: "B".into(), b: "D".into() }
    );
    assert_eq!(reconcile_hex("t", vec![]).unwrap(), None);
    assert_eq!(reconcile_hex("t", vec![hex("A", " \n ")]).unwrap(), Some(String::new()));
}

#[test]
fn hex_order_does_not_matter_here() {
    let hex = |base: &str, h: &str| (base.to_string(), Some(h.to_string()));
    let forward = reconcile_hex("t", vec![hex("A", "aa "), silent("B"), hex("C", "aa")]);
    let backward = reconcile_hex("t", vec![hex("C", "aa"), silent("B"), hex("A", "aa ")]);
    assert_eq!(forward, backward);
    assert_eq!(forward.unwrap().as_deref(), Some("aa"));
}

#[test]
fn trimming_is_that_of_the_standard_library() {
    for n in 0..0x11_0000u32 {
        if let Some(c) = char::from_u32(n) {
            let raw = format!("{c}x{c}");
            let expected = raw.trim().to_string();
            let got = reconcile_hex("t", vec![("A".to_string(), Some(raw))]);
            assert_eq!(got.unwrap(), Some(expected), "U+{n:04X}");
        }
    }
}

// Outspends.

#[test]
fn outspend_names_the_deepest_before_and_the_first_who_differs() {
    let err = reconcile_outspend(
        "lock",
        7,
        vec![
            spend("A", Some("x"), None),
            spend("B", Some("x"), Some(status(true, None))),
            spend("C", Some("x"), Some(status(false, None))),
            spend("D", None, None),
        ],
    )
    .unwrap_err();
    assert_eq!(
        err,
        Error::SpenderDisagreement {
            outpoint: "lock:7".into(),
            a: "B".into(),
            a_txid: Some("x".into()),
            b: "D".into(),
            b_txid: None,
        }
    );
}

#[test]
fn outspend_depth_goes_nothing_mempool_confirmed() {
    let mempool = Some(status(false, None));
    let mined = Some(status(true, Some(3)));
    let got = |answers| reconcile_outspend("lock", 0, answers).unwrap().outspend.status;
    assert_eq!(
        got(vec![spend("A", Some("x"), None), spend("B", Some("x"), mempool.clone())]),
        mempool
    );
    assert_eq!(
        got(vec![
            spend("A", Some("x"), mempool.clone()),
            spend("B", Some("x"), mined.clone()),
            spend("C", Some("x"), Some(status(true, Some(4)))),
        ]),
        mined
    );
}

#[test]
fn outspend_unspent_everywhere_is_uncontested() {
    let got = reconcile_outspend("lock", 0, vec![no_spend("A"), silent("B"), no_spend("C")]);
    let got = got.unwrap();
    assert!(!got.outspend.spent);
    assert_eq!(got.contested_by, None);
}

#[test]
fn outspend_the_first_provider_behind_is_named() {
    let got = reconcile_outspend(
        "lock",
        0,
        vec![spend("A", Some("x"), None), no_spend("B"), no_spend("C")],
    );
    assert_eq!(got.unwrap().contested_by.as_deref(), Some("B"));
}

#[test]
fn outspend_nobody_knows_is_not_found() {
    let err = reconcile_outspend("lock", 4294967295, vec![]).unwrap_err();
    assert_eq!(err, Error::NotFound { what: "outspend lock:4294967295".into() });
}

// The tip.

#[test]
fn tip_at_the_top_of_the_range_is_still_a_tip() {
    assert_eq!(agreed_tip(vec![u64::MAX]), Some(u64::MAX));
    assert_eq!(agreed_tip(vec![u64::MAX - 3, u64::MAX, 5]), Some(u64::MAX));
}

#[test]
fn tip_filter_cuts_exactly_above_the_window() {
    assert_eq!(agreed_tip(vec![100, 100, 106]), Some(106));
    assert_eq!(agreed_tip(vec![107, 100, 100]), Some(100));
    assert_eq!(agreed_tip(vec![1, 100, 101, 102, 108, 109]), Some(108));
}

#[test]
fn tip_order_does_not_matter_here() {
    let heights = [9u64, 3, 3, 40, 7];
    for shift in 0..heights.len() {
        let mut turned = heights.to_vec();
        turned.rotate_left(shift);
        assert_eq!(agreed_tip(turned), Some(9));
    }
}

#[test]
fn tip_is_bounded_by_an_honest_majority() {
    for liar in [0u64, 500, 507, 1_000_000, u64::MAX] {
        let tip = agreed_tip(vec![500, liar, 501]).unwrap();
        assert!(tip <= 501 + policy::MAX_TIP_SKEW, "{liar} gave {tip}");
    }
}

// Collecting.

#[test]
fn collect_keeps_order_and_names_failures() {
    let (answers, failures) = collect(
        "/x",
        vec![
            ("A".to_string(), Ok(Some(1u64))),
            ("B".to_string(), Err("down")),
            ("C".to_string(), Ok(None)),
            ("D".to_string(), Err("late")),
        ],
    )
    .unwrap();
    assert_eq!(answers, vec![("A".to_string(), Some(1)), ("C".to_string(), None)]);
    assert_eq!(failures, ["B: down", "D: late"]);
}

#[test]
fn collect_of_nothing_but_failures_joins_them() {
    let err = collect::<u64, u8>("/x", vec![("A".into(), Err(7)), ("B".into(), Err(8))]);
    assert_eq!(
        err.unwrap_err(),
        Error::NoProviderAnswered { what: "/x".into(), failures: "A: 7; B: 8".into() }
    );
    let err = collect_rendered::<u64>("/x", vec![]).unwrap_err();
    assert_eq!(err, Error::NoProviderAnswered { what: "/x".into(), failures: "".into() });
}

// The quorum warning.

#[test]
fn quorum_warning_says_how_many_there_are() {
    assert_eq!(
        quorum_warning(2).unwrap(),
        "only 2 esplora provider(s) configured; the tip outlier filter needs 3 to out-vote a \
         liar and is a no-op below that"
    );
    assert!(quorum_warning(0).unwrap().starts_with("only 0 esplora"));
    assert_eq!(quorum_warning(usize::MAX), None);
}

// Addresses.

#[test]
fn address_txs_come_in_the_order_of_their_txids() {
    let seen = || status(false, None);
    let got = reconcile_address_txs(
        "addr",
        vec![
            list("A", vec![paying("b", "addr", 1, seen()), paying("ab", "addr", 2, seen())]),
            list("B", vec![paying("a", "addr", 3, seen()), paying("B", "addr", 4, seen())]),
            list("C", vec![paying("\u{e9}", "addr", 5, seen()), paying("", "addr", 6, seen())]),
        ],
    )
    .unwrap();
    let txids: Vec<&str> = got.iter().map(|t| t.txid.as_str()).collect();
    assert_eq!(txids, ["", "B", "a", "ab", "b", "\u{e9}"]);
}

#[test]
fn address_a_provider_that_repeats_itself_has_one_vote() {
    let mined = || paying("aa", "addr", 5, status(true, Some(9)));
    let waiting = || paying("aa", "addr", 5, status(false, None));
    let got = reconcile_address_txs(
        "addr",
        vec![
            list("A", vec![mined(), mined()]),
            list("B", vec![waiting()]),
            list("C", vec![waiting()]),
        ],
    )
    .unwrap();
    assert_eq!(got.len(), 1);
    assert!(!got[0].status.confirmed);
}

#[test]
fn address_half_is_not_a_majority() {
    let got = reconcile_address_txs(
        "addr",
        vec![
            list("A", vec![paying("aa", "addr", 5, status(true, Some(9)))]),
            list("B", vec![]),
            silent("C"),
        ],
    )
    .unwrap();
    assert_eq!(got[0].status, status(false, None));
}

#[test]
fn address_the_first_confirmed_copy_is_kept_and_the_rest_is_not_mixed_in() {
    let mut full = status(true, Some(9));
    full.block_hash = Some("hash".into());
    full.block_time = Some(77);
    let got = reconcile_address_txs(
        "addr",
        vec![
            list("A", vec![paying("aa", "addr", 5, status(false, None))]),
            list("B", vec![paying("aa", "addr", 5, full.clone())]),
            list("C", vec![paying("aa", "addr", 5, status(true, None))]),
        ],
    )
    .unwrap();
    assert_eq!(got[0].status, full);
}

#[test]
fn address_disputes_name_who_said_what() {
    let err = reconcile_address_txs(
        "addr",
        vec![
            list("A", vec![paying("aa", "addr", 5, status(false, None))]),
            list("B", vec![paying("aa", "addr", 5, status(true, Some(9)))]),
            list("C", vec![paying("aa", "addr", 6, status(true, Some(10)))]),
        ],
    )
    .unwrap_err();
    assert_eq!(
        err,
        Error::HeightDisagreement {
            txid: "aa".into(),
            a: "B".into(),
            a_height: 9,
            b: "C".into(),
            b_height: 10,
        }
    );
    let err = reconcile_address_txs(
        "addr",
        vec![
            list("A", vec![paying("aa", "addr", 5, status(false, None))]),
            list("B", vec![paying("aa", "addr", 6, status(true, Some(9)))]),
        ],
    )
    .unwrap_err();
    assert_eq!(
        err,
        Error::ValueDisagreement {
            txid: "aa".into(),
            address: "addr".into(),
            a: "A".into(),
            a_value: 5,
            b: "B".into(),
            b_value: 6,
        }
    );
}

fn outputs(vout: &[(&str, u64)]) -> AddressTx {
    let mut tx = paying("aa", "addr", 0, status(false, None));
    tx.vout = vout
        .iter()
        .map(|(to, value)| Vout { scriptpubkey_address: Some(to.to_string()), value: *value })
        .collect();
    tx
}

#[test]
fn address_a_dispute_about_a_later_output_is_an_error_too() {
    let err = reconcile_address_txs(
        "addr",
        vec![
            list("A", vec![outputs(&[("addr", 50)])]),
            list("B", vec![outputs(&[("addr", 50), ("addr", 70)])]),
            list("C", vec![outputs(&[("addr", 50), ("addr", 90)])]),
        ],
    )
    .unwrap_err();
    assert_eq!(
        err,
        Error::ValueDisagreement {
            txid: "aa".into(),
            address: "addr".into(),
            a: "B".into(),
            a_value: 70,
            b: "C".into(),
            b_value: 90,
        }
    );
}

#[test]
fn address_only_outputs_to_the_address_are_compared() {
    let got = reconcile_address_txs(
        "addr",
        vec![
            list("A", vec![outputs(&[("addr", 50), ("else", 70), ("addr", 5)])]),
            list("B", vec![outputs(&[("addr", 50), ("else", 90), ("addr", 5)])]),
            list("C", vec![outputs(&[("addr", 50), ("addr", 80)])]),
        ],
    )
    .unwrap();
    assert_eq!(got, [outputs(&[("addr", 50), ("else", 70), ("addr", 5)])]);
}

#[test]
fn address_the_first_output_is_compared_at_whatever_index() {
    let err = reconcile_address_txs(
        "addr",
        vec![
            list("A", vec![outputs(&[("addr", 50)])]),
            list("B", vec![outputs(&[("else", 1), ("addr", 60)])]),
        ],
    )
    .unwrap_err();
    assert!(matches!(err, Error::ValueDisagreement { a_value: 50, b_value: 60, .. }));
}

#[test]
fn address_the_first_disputed_txid_is_the_one_reported() {
    let err = reconcile_address_txs(
        "addr",
        vec![
            list(
                "A",
                vec![
                    paying("zz", "addr", 1, status(false, None)),
                    paying("mm", "addr", 1, status(false, None)),
                ],
            ),
            list(
                "B",
                vec![
                    paying("zz", "addr", 2, status(false, None)),
                    paying("mm", "addr", 2, status(false, None)),
                ],
            ),
        ],
    )
    .unwrap_err();
    assert!(matches!(err, Error::ValueDisagreement { txid, .. } if txid == "mm"));
}

#[test]
fn address_silence_changes_nothing_wherever_it_stands() {
    for at in 0..3 {
        let mut answers = vec![
            list("A", vec![paying("aa", "addr", 5, status(true, Some(9)))]),
            list("B", vec![paying("aa", "addr", 5, status(true, Some(9)))]),
        ];
        answers.insert(at, silent("Z"));
        let got = reconcile_address_txs("addr", answers).unwrap();
        assert_eq!(got[0].status.block_height, Some(9));
    }
}

// Wordings.

#[test]
fn every_known_wording_is_known_in_any_case_and_any_company() {
    for wording in [
        "txn-already-in-mempool",
        "txn-already-known",
        "transaction already in block chain",
        "transaction already in mempool",
        "already in mempool",
        "already have transaction",
        "transaction outputs already in utxo set",
    ] {
        assert!(is_already_known(wording), "{wording}");
        assert!(is_already_known(&wording.to_uppercase()), "{wording}");
        assert!(is_already_known(&format!("-27: {wording}.")), "{wording}");
    }
    assert!(!is_already_known(""));
    assert!(!is_already_known("already"));
    assert!(!is_already_known("already in the mempool"));
    assert!(!is_already_known("txn-already-know"));
}
