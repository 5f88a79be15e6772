//! Reconciling where a transaction is.

use vstd::prelude::*;

use crate::error::{Error, ErrorView};
use crate::types::{Answer, TxInfo, TxInfoView};
#[allow(unused_imports)]
use crate::policy::agreement;

pub mod laws;

verus! {

/// One provider's answer: its name, and what it says of the transaction.
pub type TxAnswer = (Seq<char>, Option<TxInfoView>);

/// How far along an answer puts the transaction: never heard of, in the
/// mempool, confirmed without a block named, confirmed in a known block.
pub open spec fn advance(x: TxAnswer) -> int {
    match x.1 {
        None => 0,
        Some(info) => if !info.status.confirmed {
            1
        } else if info.status.block_height is None {
            2
        } else {
            3
        },
    }
}

/// The block that an answer puts the transaction in, where it is confirmed and
/// names one.
pub open spec fn known_height(x: TxAnswer) -> Option<u64> {
    if advance(x) == 3 {
        x.1->0.status.block_height
    } else {
        None
    }
}

/// [`known_height`], as the point on which answers agree or not.
pub open spec fn height_point() -> spec_fn(TxAnswer) -> Option<u64> {
    |x: TxAnswer| known_height(x)
}

/// Answer `j` is the first that contradicts a height named earlier, and `i` is
/// the last that named it.
pub open spec fn height_dispute(a: Seq<TxAnswer>, i: int, j: int) -> bool {
    &&& agreement::clash(a, height_point(), i, j)
    &&& forall|m: int| i < m < j ==> known_height(#[trigger] a[m]) is None
}

/// Of the first `n` answers, `k` is the one that is believed. None is further
/// along; of those as far along it is the last, except that the first to claim
/// confirmation without naming a block stands.
pub open spec fn is_furthest_up_to(a: Seq<TxAnswer>, k: int, n: int) -> bool {
    &&& 0 <= k < n
    &&& a[k].1 is Some
    &&& forall|m: int| 0 <= m < n ==> advance(#[trigger] a[m]) <= advance(a[k])
    &&& forall|m: int|
        0 <= m < n && advance(#[trigger] a[m]) == advance(a[k]) ==> if advance(a[k]) == 2 {
            k <= m
        } else {
            m <= k
        }
}

/// Answer `k` is the one that is believed.
pub open spec fn is_furthest(a: Seq<TxAnswer>, k: int) -> bool {
    is_furthest_up_to(a, k, a.len() as int)
}

/// What the providers' answers about a transaction come to.
pub open spec fn tx_verdict(
    txid: Seq<char>,
    a: Seq<TxAnswer>,
    r: Result<Option<TxInfoView>, ErrorView>,
) -> bool {
    match r {
        Ok(None) => forall|k: int| 0 <= k < a.len() ==> (#[trigger] a[k]).1 is None,
        Ok(Some(info)) => {
            &&& agreement::agree(a, height_point())
            &&& exists|k: int| #[trigger] is_furthest(a, k) && a[k].1 == Some(info)
        },
        Err(e) => exists|i: int, j: int| #[trigger]
            height_dispute(a, i, j) && e == (ErrorView::HeightDisagreement {
                txid,
                a: a[i].0,
                a_height: known_height(a[i])->0,
                b: a[j].0,
                b_height: known_height(a[j])->0,
            }),
    }
}

/// Reconcile per-provider `/tx/:txid` answers.
///
/// Asymmetric on purpose:
///
/// - "never heard of it", "in the mempool" and "confirmed" are NOT a
///   disagreement: that is ordinary propagation lag, and treating it as an
///   error would flap red every time something is broadcast. The most advanced
///   answer wins, matching the tip policy.
/// - two providers reporting the transaction confirmed at DIFFERENT heights is
///   irreconcilable (one is lying or on a fork) and fails loudly rather than
///   picking a winner. Only two KNOWN heights conflict: an answer that claims
///   confirmation without naming a block contradicts nothing, and is treated as
///   the less informative of the two rather than as a fork.
pub fn reconcile_tx(txid: &str, answers: Vec<Answer<TxInfo>>) -> (r: Result<Option<TxInfo>, Error>)
    ensures
        tx_verdict(txid@, answers.deep_view(), crate::error::outcome(r)),
{
    let ghost a: Seq<TxAnswer> = answers.deep_view();
    let ghost point = height_point();
    let ghost mut at: int = 0;
    let mut best: Option<(String, TxInfo)> = None;
    for answer in it: answers
        invariant
            it.seq() == answers@,
            a == answers.deep_view(),
            point == height_point(),
            agreement::agree_up_to(a, point, it.index()),
            match best {
                None => forall|k: int| 0 <= k < it.index() ==> (#[trigger] a[k]).1 is None,
                Some(held) => {
                    &&& held.deep_view() == (a[at].0, a[at].1->0)
                    &&& is_furthest_up_to(a, at, it.index())
                },
            },
    {
        let ghost n = it.index();
        assert(a[n] == answer.deep_view());
        let (base, info) = answer;
        if let Some(info) = info {
            let mut displaces = true;
            if let Some((prev_base, prev)) = &best {
                if prev.status.confirmed {
                    if let Some(h) = info.status.block_height {
                        if info.status.confirmed {
                            if let Some(prev_h) = prev.status.block_height {
                                if prev_h != h {
                                    assert(height_dispute(a, at, n));
                                    return Err(
                                        Error::HeightDisagreement {
                                            txid: txid.to_owned(),
                                            a: prev_base.clone(),
                                            a_height: prev_h,
                                            b: base,
                                            b_height: h,
                                        },
                                    );
                                }
                            }
                        }
                    }
                    // Keep the answer that is furthest along. A heightless
                    // answer never displaces a confirmed one, whether it is
                    // honestly unconfirmed or claims confirmation without
                    // saying where.
                    displaces = info.status.confirmed && info.status.block_height.is_some();
                }
            }
            if displaces {
                best = Some((base, info));
                proof {
                    at = n;
                }
            }
        }
    }
    match best {
        Some((_, info)) => {
            assert(is_furthest(a, at) && a[at].1 == Some(info.deep_view()));
            Ok(Some(info))
        },
        None => Ok(None),
    }
}

/// The verdict fails exactly when two answers name different blocks: lag is
/// never a disagreement, and two known heights that differ always are.
pub proof fn tx_fails_iff_heights_differ(
    txid: Seq<char>,
    a: Seq<TxAnswer>,
    r: Result<Option<TxInfoView>, ErrorView>,
)
    requires
        tx_verdict(txid, a, r),
    ensures
        r is Err <==> exists|i: int, j: int|
            0 <= i < a.len() && 0 <= j < a.len() && known_height(#[trigger] a[i]) is Some
                && known_height(#[trigger] a[j]) is Some && known_height(a[i]) != known_height(
                a[j],
            ),
{
    let point = height_point();
    match r {
        Err(e) => {
            let (i, j) = choose|i: int, j: int| #[trigger] height_dispute(a, i, j);
            assert(known_height(a[i]) != known_height(a[j]));
        },
        Ok(Some(_)) => {
            assert forall|i: int, j: int|
                0 <= i < a.len() && 0 <= j < a.len() && known_height(#[trigger] a[i]) is Some
                    && known_height(#[trigger] a[j]) is Some implies known_height(a[i])
                == known_height(a[j]) by {
                assert(point(a[i]) == point(a[j]));
            }
        },
        Ok(None) => {},
    }
}

/// The most advanced answer wins: what is returned is one of the answers, and
/// no answer is further along.
pub proof fn tx_most_advanced_wins(
    txid: Seq<char>,
    a: Seq<TxAnswer>,
    base: Seq<char>,
    info: TxInfoView,
)
    requires
        tx_verdict(txid, a, Ok(Some(info))),
    ensures
        exists|k: int| 0 <= k < a.len() && (#[trigger] a[k]).1 == Some(info),
        forall|k: int|
            0 <= k < a.len() ==> advance(#[trigger] a[k]) <= advance((base, Some(info))),
{
    let k = choose|k: int| #[trigger] is_furthest(a, k) && a[k].1 == Some(info);
    assert(a[k].1 == Some(info));
}

/// Nothing is returned exactly when no provider has heard of the transaction.
pub proof fn tx_unknown_iff_nobody_knows(
    txid: Seq<char>,
    a: Seq<TxAnswer>,
    r: Result<Option<TxInfoView>, ErrorView>,
)
    requires
        tx_verdict(txid, a, r),
    ensures
        r == Ok::<Option<TxInfoView>, ErrorView>(None) <==> forall|k: int|
            0 <= k < a.len() ==> (#[trigger] a[k]).1 is None,
{
    match r {
        Err(e) => {
            let (i, j) = choose|i: int, j: int| #[trigger] height_dispute(a, i, j);
            assert(a[i].1 is Some);
        },
        Ok(Some(info)) => {
            let k = choose|k: int| #[trigger] is_furthest(a, k) && a[k].1 == Some(info);
            assert(a[k].1 is Some);
        },
        Ok(None) => {},
    }
}

/// The answers determine the verdict.
pub proof fn tx_verdict_is_unique(
    txid: Seq<char>,
    a: Seq<TxAnswer>,
    r: Result<Option<TxInfoView>, ErrorView>,
    q: Result<Option<TxInfoView>, ErrorView>,
)
    requires
        tx_verdict(txid, a, r),
        tx_verdict(txid, a, q),
    ensures
        r == q,
{
    tx_fails_iff_heights_differ(txid, a, r);
    tx_fails_iff_heights_differ(txid, a, q);
    tx_unknown_iff_nobody_knows(txid, a, r);
    tx_unknown_iff_nobody_knows(txid, a, q);
    match (r, q) {
        (Err(e), Err(f)) => {
            let (i, j) = choose|i: int, j: int| #[trigger]
                height_dispute(a, i, j) && e == (ErrorView::HeightDisagreement {
                    txid,
                    a: a[i].0,
                    a_height: known_height(a[i])->0,
                    b: a[j].0,
                    b_height: known_height(a[j])->0,
                });
            let (k, l) = choose|k: int, l: int| #[trigger]
                height_dispute(a, k, l) && f == (ErrorView::HeightDisagreement {
                    txid,
                    a: a[k].0,
                    a_height: known_height(a[k])->0,
                    b: a[l].0,
                    b_height: known_height(a[l])->0,
                });
            let point = height_point();
            if j < l {
                assert(point(a[i]) == point(a[j]));
            } else if l < j {
                assert(point(a[k]) == point(a[l]));
            }
            if i < k {
                assert(known_height(a[k]) is None);
            } else if k < i {
                assert(known_height(a[i]) is None);
            }
        },
        (Ok(Some(x)), Ok(Some(y))) => {
            let k = choose|k: int| #[trigger] is_furthest(a, k) && a[k].1 == Some(x);
            let l = choose|l: int| #[trigger] is_furthest(a, l) && a[l].1 == Some(y);
            assert(advance(a[k]) <= advance(a[l]));
            assert(advance(a[l]) <= advance(a[k]));
        },
        _ => {},
    }
}

/// The order of the answers does not matter: whether the verdict fails, whether
/// the transaction is known, whether it is confirmed and in which block are the
/// same in any order.
pub proof fn tx_order_does_not_matter(
    txid: Seq<char>,
    a: Seq<TxAnswer>,
    b: Seq<TxAnswer>,
    r: Result<Option<TxInfoView>, ErrorView>,
    q: Result<Option<TxInfoView>, ErrorView>,
)
    requires
        agreement::same_items(a, b),
        tx_verdict(txid, a, r),
        tx_verdict(txid, b, q),
    ensures
        match (r, q) {
            (Err(_), Err(_)) => true,
            (Ok(None), Ok(None)) => true,
            (Ok(Some(x)), Ok(Some(y))) => {
                &&& x.status.confirmed == y.status.confirmed
                &&& x.status.confirmed ==> x.status.block_height == y.status.block_height
            },
            _ => false,
        },
{
    let point = height_point();
    agreement::agreement_ignores_order(a, b, point);
    assert(r is Err ==> !agreement::agree(a, point));
    assert(q is Err ==> !agreement::agree(b, point));
    tx_unknown_iff_nobody_knows(txid, a, r);
    tx_unknown_iff_nobody_knows(txid, b, q);
    if r == Ok::<Option<TxInfoView>, ErrorView>(None) {
        assert forall|k: int| 0 <= k < b.len() implies (#[trigger] b[k]).1 is None by {
            assert(b.contains(b[k]));
            let i = choose|i: int| 0 <= i < a.len() && a[i] == b[k];
            assert(a[i].1 is None);
        }
    }
    if q == Ok::<Option<TxInfoView>, ErrorView>(None) {
        assert forall|k: int| 0 <= k < a.len() implies (#[trigger] a[k]).1 is None by {
            assert(a.contains(a[k]));
            let i = choose|i: int| 0 <= i < b.len() && b[i] == a[k];
            assert(b[i].1 is None);
        }
    }
    if r is Ok && q is Ok && r->Ok_0 is Some && q->Ok_0 is Some {
        let x = r->Ok_0->0;
        let y = q->Ok_0->0;
        let k = choose|k: int| #[trigger] is_furthest(a, k) && a[k].1 == Some(x);
        let l = choose|l: int| #[trigger] is_furthest(b, l) && b[l].1 == Some(y);
        assert(a.contains(a[k]) && b.contains(b[l]));
        let i = choose|i: int| 0 <= i < b.len() && b[i] == a[k];
        let j = choose|j: int| 0 <= j < a.len() && a[j] == b[l];
        assert(advance(b[i]) <= advance(b[l]));
        assert(advance(a[j]) <= advance(a[k]));
        assert(point(a[j]) is Some && point(a[k]) is Some ==> point(a[j]) == point(a[k]));
    }
}

/// A 404 is no disagreement: one more answer that has never heard of the
/// transaction, wherever it stands, changes nothing.
pub proof fn tx_lag_changes_nothing(
    txid: Seq<char>,
    a: Seq<TxAnswer>,
    at: int,
    base: Seq<char>,
    r: Result<Option<TxInfoView>, ErrorView>,
)
    requires
        0 <= at <= a.len(),
        tx_verdict(txid, a, r),
    ensures
        tx_verdict(txid, a.insert(at, (base, None)), r),
{
    let x: TxAnswer = (base, None);
    let b = a.insert(at, x);
    let point = height_point();
    assert forall|k: int| 0 <= k < a.len() implies b[agreement::shifted(k, at)]
        == #[trigger] a[k] by {}
    assert forall|m: int| 0 <= m < b.len() && m != at implies #[trigger] b[m] == a[if m < at {
        m
    } else {
        m - 1
    }] by {}
    match r {
        Err(e) => {
            let (i, j) = choose|i: int, j: int| #[trigger]
                height_dispute(a, i, j) && e == (ErrorView::HeightDisagreement {
                    txid,
                    a: a[i].0,
                    a_height: known_height(a[i])->0,
                    b: a[j].0,
                    b_height: known_height(a[j])->0,
                });
            agreement::clash_of_insert(a, point, at, x, i, j);
            assert(height_dispute(
                b,
                agreement::shifted(i, at),
                agreement::shifted(j, at),
            ));
        },
        Ok(Some(info)) => {
            let k = choose|k: int| #[trigger] is_furthest(a, k) && a[k].1 == Some(info);
            agreement::agreement_of_insert(a, point, at, x);
            assert(is_furthest(b, agreement::shifted(k, at)));
        },
        Ok(None) => {},
    }
}

} // verus!
