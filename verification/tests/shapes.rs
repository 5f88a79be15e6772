//! The shapes, the routes, the roots and the messages.

use esplora_quorum::{
    confirmations, normalise, route, AddressTx, Error, TxInfo, TxStatus, Vout,
};

fn vout(address: Option<&str>, value: u64) -> Vout {
    Vout { scriptpubkey_address: address.map(|a| a.to_string()), value }
}

fn seen(confirmed: bool, height: Option<u64>) -> TxStatus {
    TxStatus { confirmed, block_height: height, block_hash: None, block_time: None }
}

#[test]
fn output_to_is_the_first_that_pays() {
    let tx = AddressTx {
        txid: "t".into(),
        status: seen(false, None),
        vout: vec![vout(None, 1), vout(Some("b"), 2), vout(Some("a"), 3), vout(Some("a"), 4)],
    };
    let (index, out) = tx.output_to("a").unwrap();
    assert_eq!((index, out.value), (2, 3));
    let (index, out) = tx.output_to("b").unwrap();
    assert_eq!((index, out.value), (1, 2));
    assert!(tx.output_to("").is_none());
    assert!(tx.output_to("ab").is_none());
}

#[test]
fn confirmations_count_from_the_block_itself() {
    let count = |confirmed, height, tip| {
        confirmations(&TxInfo { txid: "t".into(), status: seen(confirmed, height) }, tip)
    };
    assert_eq!(count(true, Some(100), 100), 1);
    assert_eq!(count(true, Some(100), 105), 6);
    assert_eq!(count(true, Some(100), 99), 1);
    assert_eq!(count(true, None, 105), 0);
    assert_eq!(count(false, Some(100), 105), 0);
    assert_eq!(count(false, None, 105), 0);
    assert_eq!(count(true, Some(1), u64::MAX), u64::MAX);
}

#[test]
fn routes_are_paths_under_a_root() {
    assert_eq!(route::tip_height(), "/blocks/tip/height");
    assert_eq!(route::tx("ab"), "/tx/ab");
    assert_eq!(route::tx_hex("ab"), "/tx/ab/hex");
    assert_eq!(route::outspend("ab", 0), "/tx/ab/outspend/0");
    assert_eq!(route::outspend("ab", 4294967295), "/tx/ab/outspend/4294967295");
    assert_eq!(route::broadcast(), "/tx");
    assert_eq!(route::address_txs("bc1q"), "/address/bc1q/txs");
}

#[test]
fn normalise_keeps_the_order_of_first_appearance() {
    let got = normalise(vec!["b//".into(), "a".into(), " b".into(), "/".into(), "c/".into()]);
    assert_eq!(got, ["b", "a", "c"]);
    assert_eq!(normalise(got.clone()), got);
    assert!(normalise(vec![]).is_empty());
}

#[test]
fn normalise_removes_white_space_and_slashes_however_mixed() {
    assert_eq!(normalise(vec!["\u{2003}a/\u{a0}\n".into()]), ["a"]);
    assert_eq!(normalise(vec!["a /".into()]), ["a"]);
    assert_eq!(normalise(vec![" a / // \t/".into()]), ["a"]);
    assert_eq!(normalise(vec!["a b/c /".into()]), ["a b/c"]);
    assert_eq!(
        normalise(vec!["https://a.example/api /".into()]),
        ["https://a.example/api"]
    );
    assert!(normalise(vec![" / /".into(), "\n".into()]).is_empty());
}

#[test]
fn normalise_counts_one_host_once_however_it_is_spelt() {
    let got = normalise(vec![
        "https://a.example/api".into(),
        "https://a.example/api /".into(),
        " https://a.example/api/ ".into(),
    ]);
    assert_eq!(got, ["https://a.example/api"]);
    assert_eq!(normalise(got.clone()), got);
}

#[test]
fn every_error_says_what_happened() {
    let said = |e: Error| e.to_string();
    assert_eq!(
        said(Error::NoProviderAnswered { what: "/x".into(), failures: "A: down".into() }),
        "no esplora provider answered /x: A: down"
    );
    assert_eq!(
        said(Error::HeightDisagreement {
            txid: "t".into(),
            a: "A".into(),
            a_height: 0,
            b: "B".into(),
            b_height: u64::MAX,
        }),
        "providers disagree on where t is: A says block 0, B says block 18446744073709551615"
    );
    assert_eq!(
        said(Error::ValueDisagreement {
            txid: "t".into(),
            address: "addr".into(),
            a: "A".into(),
            a_value: 10,
            b: "B".into(),
            b_value: 209,
        }),
        "providers disagree on what t paid addr: A says 10 sat, B says 209 sat"
    );
    assert_eq!(
        said(Error::BytesDisagreement { txid: "t".into(), a: "A".into(), b: "B".into() }),
        "providers disagree on the bytes of t: A and B returned different hex"
    );
    assert_eq!(
        said(Error::SpenderDisagreement {
            outpoint: "t:0".into(),
            a: "A".into(),
            a_txid: Some("x\"y\n".into()),
            b: "B".into(),
            b_txid: None,
        }),
        "providers disagree on what spent t:0: A says Some(\"x\\\"y\\n\"), B says None"
    );
    assert_eq!(said(Error::NotFound { what: "it".into() }), "it not found");
    assert_eq!(
        said(Error::BroadcastRejected { failures: "A: no".into() }),
        "no provider accepted the broadcast: A: no"
    );
    assert_eq!(said(Error::NoProviders), "no esplora providers configured");
    assert_eq!(said(Error::Http("HTTP 500".into())), "HTTP 500");
}
