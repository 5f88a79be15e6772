//! Reconciling a transaction's serialization.

use vstd::prelude::*;

use crate::error::{Error, ErrorView};
use crate::text::{same_text, trim};
use crate::types::Answer;
#[allow(unused_imports)]
use crate::policy::agreement;

pub mod laws;

verus! {

/// One provider's answer: its name, and the hex it returned.
pub type HexAnswer = (Seq<char>, Option<Seq<char>>);

/// The hex of an answer, without the white space around it.
pub open spec fn hex_of(x: HexAnswer) -> Option<Seq<char>> {
    match x.1 {
        Some(hex) => Some(crate::text::trimmed(hex)),
        None => None,
    }
}

/// [`hex_of`], as the point on which answers agree or not.
pub open spec fn hex_point() -> spec_fn(HexAnswer) -> Option<Seq<char>> {
    |x: HexAnswer| hex_of(x)
}

/// Answer `j` is the first that contradicts hex returned earlier, and `i` is
/// the last that returned it.
pub open spec fn hex_dispute(a: Seq<HexAnswer>, i: int, j: int) -> bool {
    &&& agreement::clash(a, hex_point(), i, j)
    &&& forall|m: int| i < m < j ==> hex_of(#[trigger] a[m]) is None
}

/// What the providers' answers about a transaction's hex come to.
pub open spec fn hex_verdict(
    txid: Seq<char>,
    a: Seq<HexAnswer>,
    r: Result<Option<Seq<char>>, ErrorView>,
) -> bool {
    match r {
        Ok(None) => forall|k: int| 0 <= k < a.len() ==> (#[trigger] a[k]).1 is None,
        Ok(Some(hex)) => {
            &&& agreement::agree(a, hex_point())
            &&& exists|k: int| 0 <= k < a.len() && hex_of(#[trigger] a[k]) == Some(hex)
        },
        Err(e) => exists|i: int, j: int| #[trigger]
            hex_dispute(a, i, j) && e == (ErrorView::BytesDisagreement {
                txid,
                a: a[i].0,
                b: a[j].0,
            }),
    }
}

/// Reconcile per-provider `/tx/:txid/hex` answers.
///
/// One provider having it and another 404ing is propagation lag, not a
/// disagreement: the one that has it wins. A transaction's serialization is
/// determined by its txid, so two providers returning different bytes for the
/// same txid cannot both be right.
pub fn reconcile_hex(txid: &str, answers: Vec<Answer<String>>) -> (r: Result<Option<String>, Error>)
    ensures
        hex_verdict(txid@, answers.deep_view(), crate::error::outcome(r)),
{
    let ghost a: Seq<HexAnswer> = answers.deep_view();
    let ghost point = hex_point();
    let ghost mut at: int = 0;
    let mut found: Option<(String, String)> = None;
    for answer in it: answers
        invariant
            it.seq() == answers@,
            a == answers.deep_view(),
            point == hex_point(),
            agreement::agree_up_to(a, point, it.index()),
            match found {
                None => forall|k: int| 0 <= k < it.index() ==> (#[trigger] a[k]).1 is None,
                Some(held) => {
                    &&& 0 <= at < it.index()
                    &&& a[at].0 == held.0@
                    &&& hex_of(a[at]) == Some(held.1@)
                    &&& forall|m: int|
                        at < m < it.index() ==> hex_of(#[trigger] a[m]) is None
                },
            },
    {
        let ghost n = it.index();
        assert(a[n] == answer.deep_view());
        let (base, hex) = answer;
        if let Some(hex) = hex {
            let hex = trim(hex.as_str()).to_owned();
            if let Some((prev_base, prev)) = &found {
                if !same_text(prev.as_str(), hex.as_str()) {
                    assert(hex_dispute(a, at, n));
                    return Err(
                        Error::BytesDisagreement {
                            txid: txid.to_owned(),
                            a: prev_base.clone(),
                            b: base,
                        },
                    );
                }
            }
            found = Some((base, hex));
            proof {
                at = n;
            }
        }
    }
    match found {
        Some((_, hex)) => Ok(Some(hex)),
        None => Ok(None),
    }
}

/// The verdict fails exactly when two providers returned different hex, white
/// space around it aside.
pub proof fn hex_fails_iff_hex_differs(
    txid: Seq<char>,
    a: Seq<HexAnswer>,
    r: Result<Option<Seq<char>>, ErrorView>,
)
    requires
        hex_verdict(txid, a, r),
    ensures
        r is Err <==> exists|i: int, j: int|
            0 <= i < a.len() && 0 <= j < a.len() && hex_of(#[trigger] a[i]) is Some && hex_of(
                #[trigger] a[j],
            ) is Some && hex_of(a[i]) != hex_of(a[j]),
{
    let point = hex_point();
    match r {
        Err(e) => {
            let (i, j) = choose|i: int, j: int| #[trigger] hex_dispute(a, i, j);
            assert(hex_of(a[i]) != hex_of(a[j]));
        },
        Ok(Some(_)) => {
            assert forall|i: int, j: int|
                0 <= i < a.len() && 0 <= j < a.len() && hex_of(#[trigger] a[i]) is Some && hex_of(
                    #[trigger] a[j],
                ) is Some implies hex_of(a[i]) == hex_of(a[j]) by {
                assert(point(a[i]) == point(a[j]));
            }
        },
        Ok(None) => {},
    }
}

/// One provider that has the transaction beats another's 404: whatever is
/// returned, some provider returned it, and nothing is returned only when no
/// provider has it.
pub proof fn hex_from_one_provider_is_enough(
    txid: Seq<char>,
    a: Seq<HexAnswer>,
    k: int,
    r: Result<Option<Seq<char>>, ErrorView>,
)
    requires
        hex_verdict(txid, a, r),
        0 <= k < a.len(),
        a[k].1 is Some,
    ensures
        r is Err || r == Ok::<Option<Seq<char>>, ErrorView>(hex_of(a[k])),
{
    let point = hex_point();
    if r is Ok && r->Ok_0 is Some {
        let hex = r->Ok_0->0;
        let i = choose|i: int| 0 <= i < a.len() && hex_of(#[trigger] a[i]) == Some(hex);
        assert(point(a[i]) == point(a[k]));
    }
}

/// The order of the answers does not matter: in any order the verdict fails, or
/// gives the same hex.
pub proof fn hex_order_does_not_matter(
    txid: Seq<char>,
    a: Seq<HexAnswer>,
    b: Seq<HexAnswer>,
    r: Result<Option<Seq<char>>, ErrorView>,
    q: Result<Option<Seq<char>>, ErrorView>,
)
    requires
        agreement::same_items(a, b),
        hex_verdict(txid, a, r),
        hex_verdict(txid, b, q),
    ensures
        r is Err <==> q is Err,
        r is Ok ==> r == q,
{
    let point = hex_point();
    agreement::agreement_ignores_order(a, b, point);
    assert(r is Err ==> !agreement::agree(a, point));
    assert(q is Err ==> !agreement::agree(b, point));
    if exists|k: int| 0 <= k < a.len() && (#[trigger] a[k]).1 is Some {
        let k = choose|k: int| 0 <= k < a.len() && (#[trigger] a[k]).1 is Some;
        assert(a.contains(a[k]));
        let i = choose|i: int| 0 <= i < b.len() && b[i] == a[k];
        hex_from_one_provider_is_enough(txid, a, k, r);
        hex_from_one_provider_is_enough(txid, b, i, q);
    } else {
        assert forall|k: int| 0 <= k < b.len() implies (#[trigger] b[k]).1 is None by {
            assert(b.contains(b[k]));
            let i = choose|i: int| 0 <= i < a.len() && a[i] == b[k];
            assert(a[i].1 is None);
        }
        assert(agreement::agree(a, point));
        assert(agreement::agree(b, point));
    }
}

/// The answers determine the verdict.
pub proof fn hex_verdict_is_unique(
    txid: Seq<char>,
    a: Seq<HexAnswer>,
    r: Result<Option<Seq<char>>, ErrorView>,
    q: Result<Option<Seq<char>>, ErrorView>,
)
    requires
        hex_verdict(txid, a, r),
        hex_verdict(txid, a, q),
    ensures
        r == q,
{
    let point = hex_point();
    hex_order_does_not_matter(txid, a, a, r, q);
    if r is Err {
        let e = r->Err_0;
        let f = q->Err_0;
        let (i, j) = choose|i: int, j: int| #[trigger]
            hex_dispute(a, i, j) && e == (ErrorView::BytesDisagreement {
                txid,
                a: a[i].0,
                b: a[j].0,
            });
        let (k, l) = choose|k: int, l: int| #[trigger]
            hex_dispute(a, k, l) && f == (ErrorView::BytesDisagreement {
                txid,
                a: a[k].0,
                b: a[l].0,
            });
        if j < l {
            assert(point(a[i]) == point(a[j]));
        } else if l < j {
            assert(point(a[k]) == point(a[l]));
        }
        if i < k {
            assert(hex_of(a[k]) is None);
        } else if k < i {
            assert(hex_of(a[i]) is None);
        }
    }
}

/// A 404 is no disagreement: one more answer that has never heard of the
/// transaction, wherever it stands, changes nothing.
pub proof fn hex_lag_changes_nothing(
    txid: Seq<char>,
    a: Seq<HexAnswer>,
    at: int,
    base: Seq<char>,
    r: Result<Option<Seq<char>>, ErrorView>,
)
    requires
        0 <= at <= a.len(),
        hex_verdict(txid, a, r),
    ensures
        hex_verdict(txid, a.insert(at, (base, None)), r),
{
    let x: HexAnswer = (base, None);
    let b = a.insert(at, x);
    let point = hex_point();
    assert forall|k: int| 0 <= k < a.len() implies b[agreement::shifted(k, at)]
        == #[trigger] a[k] by {}
    assert forall|m: int| 0 <= m < b.len() && m != at implies #[trigger] b[m] == a[if m < at {
        m
    } else {
        m - 1
    }] by {}
    match r {
        Err(e) => {
            let (i, j) = choose|i: int, j: int| #[trigger]
                hex_dispute(a, i, j) && e == (ErrorView::BytesDisagreement {
                    txid,
                    a: a[i].0,
                    b: a[j].0,
                });
            agreement::clash_of_insert(a, point, at, x, i, j);
            assert(hex_dispute(
                b,
                agreement::shifted(i, at),
                agreement::shifted(j, at),
            ));
        },
        Ok(Some(hex)) => {
            let k = choose|k: int| 0 <= k < a.len() && hex_of(#[trigger] a[k]) == Some(hex);
            agreement::agreement_of_insert(a, point, at, x);
            assert(hex_of(b[agreement::shifted(k, at)]) == Some(hex));
        },
        Ok(None) => {},
    }
}

} // verus!
