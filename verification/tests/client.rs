//! The client's side of a question, without the network.

use esplora_quorum::client::{is_success, Reply};
use esplora_quorum::{AddressTx, Chain, Error, Outspend, TxInfo, TxStatus, Vout};

fn reply(status: u16, body: &str) -> Result<Reply, String> {
    Ok(Reply { status, body: Ok(body.to_string()) })
}

fn from<T>(base: &str, result: T) -> (String, T) {
    (base.to_string(), result)
}

fn body(base: &str, text: &str) -> (String, Result<Option<String>, Error>) {
    from(base, Ok(Some(text.to_string())))
}

fn down<T>(base: &str) -> (String, Result<T, Error>) {
    from(base, Err(Error::Http("down".into())))
}

fn mined(height: u64) -> TxInfo {
    let status =
        TxStatus { confirmed: true, block_height: Some(height), block_hash: None, block_time: None };
    TxInfo { txid: "t".into(), status }
}

#[test]
fn providers_are_normalised_and_never_defaulted() {
    let c = Chain::new(vec![
        "https://a.example/api/".into(),
        "  ".into(),
        "https://b.example/api".into(),
    ])
    .unwrap();
    assert_eq!(
        c.providers(),
        ["https://a.example/api", "https://b.example/api"]
    );
    assert!(matches!(Chain::new(vec![]), Err(Error::NoProviders)));
}

#[test]
fn client_too_few_providers_is_warned_about() {
    let c = Chain::new(vec!["https://a.example/api".into()]).unwrap();
    assert!(c.quorum_warning().is_some());
}

#[test]
fn three_providers_are_enough_and_repeats_do_not_count() {
    let c = Chain::new(vec!["a".into(), "b".into(), "c".into()]).unwrap();
    assert_eq!(c.quorum_warning(), None);
    let c = Chain::new(vec!["a".into(), "a/".into(), " a ".into()]).unwrap();
    assert!(c.quorum_warning().unwrap().starts_with("only 1 esplora"));
}

#[test]
fn a_chain_shows_its_providers() {
    let c = Chain::new(vec!["a".into()]).unwrap();
    assert_eq!(format!("{c:?}"), "Chain { providers: [\"a\"] }");
}

#[test]
fn requests_go_to_every_provider() {
    let c = Chain::new(vec!["https://a/api/".into(), "https://b".into()]).unwrap();
    assert_eq!(
        c.requests("/tx/ab"),
        vec![
            ("https://a/api".to_string(), "https://a/api/tx/ab".to_string()),
            ("https://b".to_string(), "https://b/tx/ab".to_string()),
        ]
    );
}

#[test]
fn a_get_reads_its_status_before_its_body() {
    assert_eq!(Chain::text(reply(200, "x")), Ok(Some("x".into())));
    assert_eq!(Chain::text(reply(299, "")), Ok(Some("".into())));
    assert_eq!(Chain::text(reply(404, "x")), Ok(None));
    assert_eq!(
        Chain::text(reply(500, "x")),
        Err(Error::Http("HTTP 500 Internal Server Error".into()))
    );
    assert_eq!(
        Chain::text(reply(301, "x")),
        Err(Error::Http("HTTP 301 Moved Permanently".into()))
    );
    assert_eq!(
        Chain::text(reply(599, "x")),
        Err(Error::Http("HTTP 599 <unknown status code>".into()))
    );
    assert_eq!(Chain::text(reply(42, "x")), Err(Error::Http("HTTP invalid status code".into())));
    assert_eq!(Chain::text(Err("refused".into())), Err(Error::Http("refused".into())));
    let cut = Reply { status: 200, body: Err("cut off".into()) };
    assert_eq!(Chain::text(Ok(cut)), Err(Error::Http("cut off".into())));
    assert!(is_success(200) && is_success(299) && !is_success(199) && !is_success(300));
}

#[test]
fn a_height_is_a_decimal_number() {
    let read = |text: &str| Chain::height(Ok(Some(text.to_string())));
    assert_eq!(read(" 800000\n"), Ok(Some(800_000)));
    assert_eq!(read("+7"), Ok(Some(7)));
    assert_eq!(read("18446744073709551615"), Ok(Some(u64::MAX)));
    assert_eq!(
        read(" 8o0 "),
        Err(Error::Http("unparseable height \"8o0\": invalid digit found in string".into()))
    );
    assert_eq!(
        read(""),
        Err(Error::Http("unparseable height \"\": cannot parse integer from empty string".into()))
    );
    assert!(read("18446744073709551616").is_err());
    assert!(read("-1").is_err() && read("+").is_err() && read("1 2").is_err());
    assert_eq!(Chain::height(Ok(None)), Ok(None));
    assert_eq!(Chain::height(Err(Error::NoProviders)), Err(Error::NoProviders));
}

#[test]
fn the_tip_is_agreed_over_the_heights_that_came() {
    let got = Chain::tip_height(vec![
        body("A", "100\n"),
        down("B"),
        body("C", "900"),
        from("D", Ok(None)),
        body("E", "101"),
    ]);
    assert_eq!(got, Ok(101));
}

#[test]
fn no_tip_is_one_of_two_errors() {
    let got = Chain::tip_height(vec![down("A"), body("B", "x")]);
    assert_eq!(
        got,
        Err(Error::NoProviderAnswered {
            what: "/blocks/tip/height".into(),
            failures: "A: down; B: unparseable height \"x\": invalid digit found in string".into(),
        })
    );
    let got = Chain::tip_height(vec![from("A", Ok(None)), down("B")]);
    assert_eq!(
        got,
        Err(Error::NoProviderAnswered {
            what: "/blocks/tip/height".into(),
            failures: "every provider answered without a height".into(),
        })
    );
}

#[test]
fn a_body_that_does_not_decode_is_a_failure() {
    let found: Result<Option<TxInfo>, Error> = Chain::decoded("/tx/t", Ok(Some(Ok(mined(5)))));
    assert_eq!(found, Ok(Some(mined(5))));
    let found: Result<Option<TxInfo>, Error> =
        Chain::decoded("/tx/t", Ok(Some(Err("expected value".into()))));
    assert_eq!(found, Err(Error::Http("decoding /tx/t: expected value".into())));
    assert_eq!(Chain::decoded::<TxInfo>("/tx/t", Ok(None)), Ok(None));
    assert_eq!(
        Chain::decoded::<TxInfo>("/tx/t", Err(Error::NoProviders)),
        Err(Error::NoProviders)
    );
}

#[test]
fn a_transaction_is_found_despite_an_outage() {
    let got = Chain::tx("t", vec![down("A"), from("B", Ok(None)), from("C", Ok(Some(mined(5))))]);
    assert_eq!(got, Ok(Some(mined(5))));
    assert_eq!(Chain::tx("t", vec![down("A"), from("B", Ok(None))]), Ok(None));
    assert_eq!(
        Chain::tx("t", vec![down("A"), down("B")]),
        Err(Error::NoProviderAnswered { what: "/tx/t".into(), failures: "A: down; B: down".into() })
    );
}

#[test]
fn hex_outspends_and_addresses_are_asked_alike() {
    assert_eq!(
        Chain::tx_hex("t", vec![down("A"), body("B", " beef\n")]),
        Ok(Some("beef".to_string()))
    );
    assert_eq!(
        Chain::tx_hex("t", vec![down("A")]),
        Err(Error::NoProviderAnswered { what: "/tx/t/hex".into(), failures: "A: down".into() })
    );

    let spent = Outspend { spent: true, txid: Some("x".into()), status: None };
    let got = Chain::outspend("t", 3, vec![down("A"), from("B", Ok(Some(spent.clone())))]);
    assert_eq!(got.unwrap().outspend, spent);
    assert_eq!(
        Chain::outspend("t", 3, vec![down("A")]),
        Err(Error::NoProviderAnswered {
            what: "/tx/t/outspend/3".into(),
            failures: "A: down".into(),
        })
    );

    let tx = AddressTx {
        txid: "t".into(),
        status: mined(5).status,
        vout: vec![Vout { scriptpubkey_address: Some("addr".into()), value: 1 }],
    };
    let got = Chain::address_txs("addr", vec![down("A"), from("B", Ok(Some(vec![tx.clone()])))]);
    assert_eq!(got, Ok(vec![tx]));
    assert_eq!(
        Chain::address_txs("addr", vec![down("A")]),
        Err(Error::NoProviderAnswered {
            what: "/address/addr/txs".into(),
            failures: "A: down".into(),
        })
    );
}

#[test]
fn confirmations_follow_what_was_found() {
    assert_eq!(Chain::confirmations(Ok(Some(mined(5))), 7), Ok(Some(3)));
    assert_eq!(Chain::confirmations(Ok(None), 7), Ok(None));
    assert_eq!(Chain::confirmations(Err(Error::NoProviders), 7), Err(Error::NoProviders));
}

#[test]
fn a_broadcast_returns_the_first_txid_echoed() {
    let got = Chain::broadcast(vec![
        from("A", reply(400, "txn-already-known")),
        from("B", reply(200, "")),
        from("C", Err("refused".into())),
        from("D", reply(200, " id1\n")),
        from("E", reply(200, "id2")),
    ]);
    assert_eq!(got, Ok("id1".to_string()));
}

#[test]
fn an_acknowledgement_alone_is_an_empty_txid() {
    for acknowledgement in [
        reply(200, " \n"),
        Ok(Reply { status: 200, body: Err("cut off".into()) }),
        reply(400, "sendrawtransaction RPC error: Transaction already in block chain"),
    ] {
        let got =
            Chain::broadcast(vec![from("A", reply(400, "dust")), from("B", acknowledgement)]);
        assert_eq!(got, Ok(String::new()));
    }
}

#[test]
fn a_broadcast_nobody_accepts_names_everybody() {
    let got = Chain::broadcast(vec![
        from("A", reply(400, " dust ")),
        from("B", Err("refused".into())),
        from("C", Ok(Reply { status: 500, body: Err("cut off".into()) })),
    ]);
    assert_eq!(
        got,
        Err(Error::BroadcastRejected { failures: "A: dust; B: refused; C: ".into() })
    );
    assert_eq!(
        Chain::broadcast(vec![]),
        Err(Error::BroadcastRejected { failures: "".into() })
    );
}
