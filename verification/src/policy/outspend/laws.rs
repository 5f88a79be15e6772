//! What reconciling what spent an output promises, over the fields of the
//! answers.

use vstd::prelude::*;

use crate::error::ErrorView;
use crate::policy::outspend::{OutspendAnswer, SpendView};
#[allow(unused_imports)]
use crate::policy::{agreement, outspend};
#[allow(unused_imports)]
use crate::text;

verus! {

/// What the answer that reports a spend is called where no other says more about
/// the spend, and none before it says as much: a confirmed status says the most,
/// then any status, then none.
pub open spec fn says_most(a: Seq<OutspendAnswer>, k: int, n: int) -> bool {
    &&& 0 <= k < n
    &&& a[k].1 is Some
    &&& a[k].1->0.spent
    &&& match a[k].1->0.status {
        Some(s) if s.confirmed => forall|m: int|
            0 <= m < k && (#[trigger] a[m]).1 is Some && a[m].1->0.spent ==> !(
            a[m].1->0.status matches Some(t) && t.confirmed),
        Some(_) => {
            &&& forall|m: int|
                0 <= m < n && (#[trigger] a[m]).1 is Some && a[m].1->0.spent ==> !(
                a[m].1->0.status matches Some(t) && t.confirmed)
            &&& forall|m: int|
                0 <= m < k && (#[trigger] a[m]).1 is Some && a[m].1->0.spent
                    ==> a[m].1->0.status is None
        },
        None => {
            &&& forall|m: int|
                0 <= m < n && (#[trigger] a[m]).1 is Some && a[m].1->0.spent
                    ==> a[m].1->0.status is None
            &&& forall|m: int|
                0 <= m < k && (#[trigger] a[m]).1 is Some ==> !a[m].1->0.spent
        },
    }
}

proof fn deepest_says_most(a: Seq<OutspendAnswer>, k: int, n: int)
    requires
        outspend::is_deepest_up_to(a, k, n),
        n <= a.len(),
    ensures
        says_most(a, k, n),
{
    assert(outspend::says_spent(a[k]));
    assert forall|m: int|
        0 <= m < n && (#[trigger] a[m]).1 is Some && a[m].1->0.spent implies outspend::says_spent(
        a[m],
    ) by {}
}

/// A spend that is mined is returned as mined, and one that is seen as seen:
/// where an answer that reports the spend has a confirmed status, so has what is
/// returned; where one has a status at all, so has what is returned.
pub proof fn the_deepest_status_is_returned(
    txid: Seq<char>,
    vout: u32,
    a: Seq<OutspendAnswer>,
    spend: SpendView,
    k: int,
)
    requires
        outspend::outspend_verdict(txid, vout, a, Ok(spend)),
        0 <= k < a.len(),
        a[k].1 is Some,
        a[k].1->0.spent,
        a[k].1->0.status is Some,
    ensures
        spend.outspend.spent,
        spend.outspend.status is Some,
        a[k].1->0.status->0.confirmed ==> spend.outspend.status->0.confirmed,
        spend.outspend.txid == a[k].1->0.txid,
{
    a_reported_spend_is_returned(txid, vout, a, spend);
    outspend::spend_most_advanced_wins(txid, vout, a, spend);
    assert(outspend::says_spent(a[k]));
}

/// Any report of a spend is believed, and what is returned is a provider's
/// answer, whole: the first of those that say the most about the spend.
pub proof fn a_reported_spend_is_returned(
    txid: Seq<char>,
    vout: u32,
    a: Seq<OutspendAnswer>,
    spend: SpendView,
)
    requires
        outspend::outspend_verdict(txid, vout, a, Ok(spend)),
    ensures
        spend.outspend.spent <==> exists|k: int|
            0 <= k < a.len() && (#[trigger] a[k]).1 is Some && a[k].1->0.spent,
        spend.outspend.spent ==> exists|k: int| #[trigger]
            says_most(a, k, a.len() as int) && a[k].1 == Some(spend.outspend),
        spend.outspend.spent ==> forall|k: int|
            0 <= k < a.len() && (#[trigger] a[k]).1 is Some && a[k].1->0.spent ==> a[k].1->0.txid
                == spend.outspend.txid,
{
    outspend::spent_beats_unspent(txid, vout, a, spend);
    outspend::spend_most_advanced_wins(txid, vout, a, spend);
    if exists|k: int| 0 <= k < a.len() && (#[trigger] a[k]).1 is Some && a[k].1->0.spent {
        let k = choose|k: int|
            0 <= k < a.len() && (#[trigger] a[k]).1 is Some && a[k].1->0.spent;
        assert(outspend::says_spent(a[k]));
    }
    if spend.outspend.spent {
        let k = choose|k: int| 0 <= k < a.len() && outspend::says_spent(#[trigger] a[k]);
        assert(a[k].1 is Some && a[k].1->0.spent);
        assert(outspend::is_reported_spend(a, spend));
        let d = choose|d: int| #[trigger]
            outspend::is_deepest_up_to(a, d, a.len() as int) && a[d].1 == Some(spend.outspend);
        deepest_says_most(a, d, a.len() as int);
        assert forall|k: int|
            0 <= k < a.len() && (#[trigger] a[k]).1 is Some && a[k].1->0.spent implies a[k].1->0.txid
            == spend.outspend.txid by {
            assert(outspend::says_spent(a[k]));
        }
    }
}

/// Where nobody reports a spend, what is returned is the first answer that knows
/// the output, whole, and nothing is contested.
pub proof fn an_unspent_output_is_returned(
    txid: Seq<char>,
    vout: u32,
    a: Seq<OutspendAnswer>,
    r: Result<SpendView, ErrorView>,
    k: int,
)
    requires
        outspend::outspend_verdict(txid, vout, a, r),
        forall|m: int| 0 <= m < a.len() && (#[trigger] a[m]).1 is Some ==> !a[m].1->0.spent,
        0 <= k < a.len(),
        a[k].1 is Some,
        forall|m: int| 0 <= m < k ==> (#[trigger] a[m]).1 is None,
    ensures
        r == Ok::<SpendView, ErrorView>(
            SpendView { outspend: a[k].1->0, contested_by: None },
        ),
{
    outspend::outspend_fails_iff_disputed_or_unknown(txid, vout, a, r);
    assert(!outspend::spenders_differ(a)) by {
        assert forall|m: int| 0 <= m < a.len() implies !outspend::says_spent(#[trigger] a[m]) by {}
    }
    assert(r is Ok);
    let spend = r->Ok_0;
    outspend::spent_beats_unspent(txid, vout, a, spend);
    if outspend::is_reported_spend(a, spend) {
        let d = choose|d: int| #[trigger]
            outspend::is_deepest_up_to(a, d, a.len() as int) && a[d].1 == Some(spend.outspend);
        assert(outspend::says_spent(a[d]));
        assert(a[d].1 is Some);
    }
    let u = choose|u: int| #[trigger]
        outspend::is_first_unspent_up_to(a, u, a.len() as int) && a[u].1 == Some(spend.outspend);
    assert(outspend::says_unspent(a[u]) && outspend::says_unspent(a[k]));
    assert(a[u].1 is Some);
    if k < u {
        assert(!outspend::says_unspent(a[k]));
    }
}

/// A reported spend is contested by the first provider that reports the output
/// unspent, and by nobody where none does.
pub proof fn contested_by_the_first_that_lags(
    txid: Seq<char>,
    vout: u32,
    a: Seq<OutspendAnswer>,
    spend: SpendView,
)
    requires
        outspend::outspend_verdict(txid, vout, a, Ok(spend)),
    ensures
        forall|k: int|
            spend.outspend.spent && 0 <= k < a.len() && (#[trigger] a[k]).1 is Some
                && !a[k].1->0.spent && (forall|m: int|
                0 <= m < k && (#[trigger] a[m]).1 is Some ==> a[m].1->0.spent)
                ==> spend.contested_by == Some(a[k].0),
        (forall|k: int| 0 <= k < a.len() && (#[trigger] a[k]).1 is Some ==> a[k].1->0.spent)
            ==> spend.contested_by is None,
        !spend.outspend.spent ==> spend.contested_by is None,
{
    outspend::spent_beats_unspent(txid, vout, a, spend);
    outspend::contested_iff_overridden(txid, vout, a, spend);
    if spend.outspend.spent {
        assert(outspend::is_reported_spend(a, spend));
    }
    if spend.contested_by is Some {
        let s = choose|s: int| 0 <= s < a.len() && outspend::says_spent(#[trigger] a[s]);
        assert(outspend::is_reported_spend(a, spend));
        let u = choose|u: int| #[trigger]
            outspend::is_first_unspent_up_to(a, u, a.len() as int) && a[u].0
                == spend.contested_by->0;
        assert(outspend::says_unspent(a[u]));
        assert(a[u].1 is Some && !a[u].1->0.spent);
        assert forall|k: int|
            0 <= k < a.len() && (#[trigger] a[k]).1 is Some && !a[k].1->0.spent && (forall|m: int|
                0 <= m < k && (#[trigger] a[m]).1 is Some ==> a[m].1->0.spent) implies
            spend.contested_by == Some(a[k].0) by {
            assert(outspend::says_unspent(a[k]));
            if u < k {
                assert(a[u].1->0.spent);
            } else if k < u {
                assert(!outspend::says_unspent(a[k]));
            }
        }
    } else if spend.outspend.spent {
        assert forall|k: int| 0 <= k < a.len() && (#[trigger] a[k]).1 is Some implies
            a[k].1->0.spent by {
            assert(!outspend::says_unspent(a[k]));
        }
    }
}

/// Two answers that name different spenders always fail, and otherwise only an
/// output that nobody knows does.
pub proof fn only_two_spenders_or_nobody_fails(
    txid: Seq<char>,
    vout: u32,
    a: Seq<OutspendAnswer>,
    r: Result<SpendView, ErrorView>,
)
    requires
        outspend::outspend_verdict(txid, vout, a, r),
    ensures
        r is Err <==> {
            ||| exists|i: int, j: int|
                0 <= i < a.len() && 0 <= j < a.len() && (#[trigger] a[i]).1 is Some
                    && a[i].1->0.spent && (#[trigger] a[j]).1 is Some && a[j].1->0.spent
                    && a[i].1->0.txid != a[j].1->0.txid
            ||| forall|k: int| 0 <= k < a.len() ==> (#[trigger] a[k]).1 is None
        },
        (forall|k: int| 0 <= k < a.len() ==> (#[trigger] a[k]).1 is None) ==> r == Err::<
            SpendView,
            ErrorView,
        >(
            ErrorView::NotFound {
                what: "outspend "@ + (txid + ":"@ + text::decimal(vout as nat)),
            },
        ),
{
    outspend::outspend_fails_iff_disputed_or_unknown(txid, vout, a, r);
    if outspend::spenders_differ(a) {
        let (i, j) = choose|i: int, j: int|
            0 <= i < a.len() && 0 <= j < a.len() && outspend::says_spent(#[trigger] a[i])
                && outspend::says_spent(#[trigger] a[j]) && a[i].1->0.txid != a[j].1->0.txid;
        assert(a[i].1 is Some && a[j].1 is Some);
    }
    if exists|i: int, j: int|
        0 <= i < a.len() && 0 <= j < a.len() && (#[trigger] a[i]).1 is Some && a[i].1->0.spent && (
        #[trigger] a[j]).1 is Some && a[j].1->0.spent && a[i].1->0.txid != a[j].1->0.txid {
        let (i, j) = choose|i: int, j: int|
            0 <= i < a.len() && 0 <= j < a.len() && (#[trigger] a[i]).1 is Some && a[i].1->0.spent
                && (#[trigger] a[j]).1 is Some && a[j].1->0.spent && a[i].1->0.txid
                != a[j].1->0.txid;
        assert(outspend::says_spent(a[i]) && outspend::says_spent(a[j]));
    }
}

/// The error names the output, and two providers with the different spenders
/// that they name: the second is the first that contradicts, and the first is
/// the one that said the most until then.
pub proof fn spenders_are_named_on_both_sides(
    txid: Seq<char>,
    vout: u32,
    a: Seq<OutspendAnswer>,
    e: ErrorView,
)
    requires
        outspend::outspend_verdict(txid, vout, a, Err(e)),
        exists|k: int| 0 <= k < a.len() && (#[trigger] a[k]).1 is Some,
    ensures
        exists|i: int, j: int|
            {
                &&& j < a.len()
                &&& #[trigger] says_most(a, i, j)
                &&& a[j].1 is Some
                &&& a[j].1->0.spent
                &&& a[i].1->0.txid != a[j].1->0.txid
                &&& e == (ErrorView::SpenderDisagreement {
                    outpoint: txid + ":"@ + text::decimal(vout as nat),
                    a: a[i].0,
                    a_txid: a[i].1->0.txid,
                    b: a[j].0,
                    b_txid: a[j].1->0.txid,
                })
                &&& forall|k: int|
                    0 <= k < j && (#[trigger] a[k]).1 is Some && a[k].1->0.spent
                        ==> a[k].1->0.txid == a[i].1->0.txid
            },
{
    let (i, j) = choose|i: int, j: int| #[trigger]
        outspend::spender_dispute(a, i, j) && e == (ErrorView::SpenderDisagreement {
            outpoint: outspend::outpoint_text(txid, vout),
            a: a[i].0,
            a_txid: a[i].1->0.txid,
            b: a[j].0,
            b_txid: a[j].1->0.txid,
        });
    let point = outspend::spender_point();
    assert(point(a[i]) is Some && point(a[j]) is Some && point(a[i]) != point(a[j]));
    deepest_says_most(a, i, j);
    assert forall|k: int| 0 <= k < j && (#[trigger] a[k]).1 is Some && a[k].1->0.spent implies
        a[k].1->0.txid == a[i].1->0.txid by {
        assert(outspend::says_spent(a[k]));
        assert(point(a[k]) == point(a[i]));
    }
}

/// Every field of a spend counts.
pub proof fn spend_keeps_every_field(s: crate::policy::Spend)
    ensures
        s.deep_view().outspend == s.outspend.deep_view(),
        s.deep_view().contested_by == crate::types::laws::characters(s.contested_by),
{
}

} // verus!
