//! Reconciling what providers list for an address.

use esplora_quorum::policy::reconcile_address_txs;
use esplora_quorum::{AddressTx, Answer, Error, TxStatus, Vout};

const ADDR: &str = "bc1qexample";

fn tx(txid: &str, confirmed: bool, height: Option<u64>, value: u64) -> AddressTx {
    AddressTx {
        txid: txid.to_string(),
        status: TxStatus {
            confirmed,
            block_height: height,
            block_hash: None,
            block_time: height.map(|h| 1_700_000_000 + h),
        },
        vout: vec![Vout {
            scriptpubkey_address: Some(ADDR.to_string()),
            value,
        }],
    }
}

fn from(base: &str, txs: Vec<AddressTx>) -> Answer<Vec<AddressTx>> {
    (base.to_string(), Some(txs))
}

/// Existence unions: one provider seeing a deposit is enough to report it.
///
/// The alternative is the slowest provider setting the pace for every
/// deposit, and a mempool transaction one provider has not indexed yet is
/// evidence of lag, not of absence.
#[test]
fn a_single_provider_seeing_a_deposit_is_enough_to_report_it() {
    let got = reconcile_address_txs(
        ADDR,
        vec![
            from("a", vec![tx("aa", false, None, 50_000)]),
            from("b", vec![]),
            from("c", vec![]),
        ],
    )
    .unwrap();
    assert_eq!(got.len(), 1, "the deposit should still be reported");
    assert!(!got[0].status.confirmed);
}

/// Confirmation needs a majority, because "confirmed" is the claim that ends
/// the user's attention.
#[test]
fn one_provider_alone_cannot_confirm() {
    let got = reconcile_address_txs(
        ADDR,
        vec![
            from("a", vec![tx("aa", true, Some(800_000), 50_000)]),
            from("b", vec![tx("aa", false, None, 50_000)]),
            from("c", vec![tx("aa", false, None, 50_000)]),
        ],
    )
    .unwrap();
    assert_eq!(got.len(), 1);
    assert!(
        !got[0].status.confirmed,
        "one vote out of three is not a majority"
    );
    assert_eq!(
        got[0].status.block_height, None,
        "a downgrade drops the height too"
    );
}

#[test]
fn two_of_three_confirms() {
    let got = reconcile_address_txs(
        ADDR,
        vec![
            from("a", vec![tx("aa", true, Some(800_000), 50_000)]),
            from("b", vec![tx("aa", true, Some(800_000), 50_000)]),
            from("c", vec![tx("aa", false, None, 50_000)]),
        ],
    )
    .unwrap();
    assert!(got[0].status.confirmed);
    assert_eq!(got[0].status.block_height, Some(800_000));
}

/// A provider that never answered cannot count towards the majority it took
/// no part in, otherwise an outage silently raises the bar for confirming.
#[test]
fn silence_is_not_a_vote_against() {
    let got = reconcile_address_txs(
        ADDR,
        vec![
            from("a", vec![tx("aa", true, Some(800_000), 50_000)]),
            ("b".to_string(), None),
            ("c".to_string(), None),
        ],
    )
    .unwrap();
    assert!(
        got[0].status.confirmed,
        "one of one answering is a majority"
    );
}

/// Not lag: a mined transaction's height is fixed, so two confirmed answers
/// naming different ones means somebody is wrong.
#[test]
fn confirmed_answers_at_different_heights_are_an_error() {
    let err = reconcile_address_txs(
        ADDR,
        vec![
            from("a", vec![tx("aa", true, Some(800_000), 50_000)]),
            from("b", vec![tx("aa", true, Some(800_001), 50_000)]),
        ],
    )
    .unwrap_err();
    assert!(matches!(err, Error::HeightDisagreement { .. }));
}

/// The one that costs money directly. Outputs are fixed by the txid, so a
/// disagreement about value is a provider lying or corrupt, and a deposit
/// watcher deciding whether ENOUGH arrived must not pick a side.
#[test]
fn disagreeing_about_what_was_paid_is_an_error() {
    let err = reconcile_address_txs(
        ADDR,
        vec![
            from("a", vec![tx("aa", true, Some(800_000), 50_000)]),
            from("b", vec![tx("aa", true, Some(800_000), 90_000)]),
        ],
    )
    .unwrap_err();
    assert!(matches!(err, Error::ValueDisagreement { .. }));
}

/// Transactions that do not pay the watched address are dropped: Esplora
/// returns everything TOUCHING an address, including the spends of it.
#[test]
fn transactions_that_do_not_pay_the_address_are_ignored() {
    let mut spend = tx("bb", true, Some(800_000), 50_000);
    spend.vout[0].scriptpubkey_address = Some("bc1qsomewhereelse".to_string());
    let got = reconcile_address_txs(ADDR, vec![from("a", vec![spend])]).unwrap();
    assert!(got.is_empty());
}
