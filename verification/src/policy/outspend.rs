//! Reconciling what spent an output.

use vstd::prelude::*;
use vstd::string::StringExecFns;

use crate::error::{Error, ErrorView};
use crate::text::{decimal_text, same_text};
use crate::types::{Answer, Outspend, OutspendView};
#[allow(unused_imports)]
use crate::policy::agreement;

pub mod laws;

verus! {

/// The outcome of reconciling outspend answers, and whether it was contested.
#[derive(Debug, Clone, PartialEq, Eq)]
pub struct Spend {
    pub outspend: Outspend,
    /// The provider that reported the output UNSPENT while another reported it
    /// spent: the one whose answer was overridden, named so a caller can say
    /// which provider is behind.
    ///
    /// Not an error: a mempool spend has simply not reached everyone. Worth
    /// surfacing all the same, since believing the spend is a deliberate
    /// choice. Always `None` when the reported spend was uncontested.
    pub contested_by: Option<String>,
}

/// A [`Spend`] with its texts as sequences of characters.
pub struct SpendView {
    pub outspend: OutspendView,
    pub contested_by: Option<Seq<char>>,
}

impl DeepView for Spend {
    type V = SpendView;

    open spec fn deep_view(&self) -> SpendView {
        SpendView {
            outspend: self.outspend.deep_view(),
            contested_by: self.contested_by.deep_view(),
        }
    }
}

/// One provider's answer: its name, and what it says of the output.
pub type OutspendAnswer = (Seq<char>, Option<OutspendView>);

/// The answer reports a spend.
pub open spec fn says_spent(x: OutspendAnswer) -> bool {
    x.1 is Some && x.1->0.spent
}

/// The answer reports the output unspent.
pub open spec fn says_unspent(x: OutspendAnswer) -> bool {
    x.1 is Some && !x.1->0.spent
}

/// The spender that an answer gives, where it reports a spend.
pub open spec fn spender_of(x: OutspendAnswer) -> Option<Option<Seq<char>>> {
    if says_spent(x) {
        Some(x.1->0.txid)
    } else {
        None
    }
}

/// [`spender_of`], as the point on which answers agree or not.
pub open spec fn spender_point() -> spec_fn(OutspendAnswer) -> Option<Option<Seq<char>>> {
    |x: OutspendAnswer| spender_of(x)
}

/// How much an answer says about a spend: nothing, in the mempool, confirmed.
pub open spec fn spend_depth_of(o: OutspendView) -> int {
    match o.status {
        Some(s) if s.confirmed => 2,
        Some(_) => 1,
        None => 0,
    }
}

/// Of the first `n` answers, `k` reports a spend, none that does says more about
/// it, and those before `k` say less.
pub open spec fn is_deepest_up_to(a: Seq<OutspendAnswer>, k: int, n: int) -> bool {
    &&& 0 <= k < n
    &&& says_spent(a[k])
    &&& forall|m: int|
        0 <= m < n && says_spent(#[trigger] a[m]) ==> spend_depth_of(a[m].1->0) <= spend_depth_of(
            a[k].1->0,
        )
    &&& forall|m: int|
        0 <= m < k && says_spent(#[trigger] a[m]) ==> spend_depth_of(a[m].1->0) < spend_depth_of(
            a[k].1->0,
        )
}

/// Of the first `n` answers, `k` is the first that reports the output unspent.
pub open spec fn is_first_unspent_up_to(a: Seq<OutspendAnswer>, k: int, n: int) -> bool {
    &&& 0 <= k < n
    &&& says_unspent(a[k])
    &&& forall|m: int| 0 <= m < k ==> !says_unspent(#[trigger] a[m])
}

/// Answer `j` is the first that names another spender than one before it, and
/// `i` is the answer believed until then.
pub open spec fn spender_dispute(a: Seq<OutspendAnswer>, i: int, j: int) -> bool {
    &&& agreement::clash(a, spender_point(), i, j)
    &&& is_deepest_up_to(a, i, j)
}

/// `provider` is the first that reports the output unspent, if any does.
pub open spec fn is_behind(a: Seq<OutspendAnswer>, provider: Option<Seq<char>>) -> bool {
    match provider {
        Some(base) => exists|k: int| #[trigger]
            is_first_unspent_up_to(a, k, a.len() as int) && a[k].0 == base,
        None => forall|k: int| 0 <= k < a.len() ==> !says_unspent(#[trigger] a[k]),
    }
}

/// What is returned of a spend that is reported.
pub open spec fn is_reported_spend(a: Seq<OutspendAnswer>, spend: SpendView) -> bool {
    &&& exists|k: int| #[trigger]
        is_deepest_up_to(a, k, a.len() as int) && a[k].1 == Some(spend.outspend)
    &&& is_behind(a, spend.contested_by)
}

/// What is returned where no answer reports a spend.
pub open spec fn is_unspent(a: Seq<OutspendAnswer>, spend: SpendView) -> bool {
    &&& forall|k: int| 0 <= k < a.len() ==> !says_spent(#[trigger] a[k])
    &&& exists|k: int| #[trigger]
        is_first_unspent_up_to(a, k, a.len() as int) && a[k].1 == Some(spend.outspend)
    &&& spend.contested_by is None
}

/// How errors name an output.
pub open spec fn outpoint_text(txid: Seq<char>, vout: u32) -> Seq<char> {
    txid + ":"@ + crate::text::decimal(vout as nat)
}

/// What the providers' answers about an output come to.
pub open spec fn outspend_verdict(
    txid: Seq<char>,
    vout: u32,
    a: Seq<OutspendAnswer>,
    r: Result<SpendView, ErrorView>,
) -> bool {
    match r {
        Ok(spend) => {
            &&& agreement::agree(a, spender_point())
            &&& is_reported_spend(a, spend) || is_unspent(a, spend)
        },
        Err(e) => {
            ||| exists|i: int, j: int| #[trigger]
                spender_dispute(a, i, j) && e == (ErrorView::SpenderDisagreement {
                    outpoint: outpoint_text(txid, vout),
                    a: a[i].0,
                    a_txid: a[i].1->0.txid,
                    b: a[j].0,
                    b_txid: a[j].1->0.txid,
                })
            ||| {
                &&& forall|k: int| 0 <= k < a.len() ==> (#[trigger] a[k]).1 is None
                &&& e == (ErrorView::NotFound { what: "outspend "@ + outpoint_text(txid, vout) })
            }
        },
    }
}

/// How much an answer says about a spend: nothing, in the mempool, confirmed.
fn spend_depth(o: &Outspend) -> (r: u8)
    ensures
        r == spend_depth_of(o.deep_view()),
{
    match &o.status {
        Some(s) if s.confirmed => 2,
        Some(_) => 1,
        None => 0,
    }
}

/// Whether two answers name the same spender.
fn same_spender(a: &Option<String>, b: &Option<String>) -> (r: bool)
    ensures
        r == (a.deep_view() == b.deep_view()),
{
    match (a, b) {
        (Some(x), Some(y)) => same_text(x.as_str(), y.as_str()),
        (None, None) => true,
        _ => false,
    }
}

fn outpoint(txid: &str, vout: u32) -> (r: String)
    ensures
        r@ == outpoint_text(txid@, vout),
{
    txid.to_owned().concat(":").concat(decimal_text(vout as u64).as_str())
}

/// A spender, as an error carries it.
fn copy_of(txid: &Option<String>) -> (r: Option<String>)
    ensures
        r.deep_view() == txid.deep_view(),
{
    match txid {
        Some(t) => Some(t.clone()),
        None => None,
    }
}

/// Reconcile per-provider outspend answers.
///
/// A hidden spend is the dangerous direction (it is how a punishing transaction
/// stays invisible while a watcher keeps re-broadcasting a refund that can no
/// longer win) so ANY provider reporting the output spent is believed over one
/// reporting it unspent. Two providers naming DIFFERENT spenders cannot both be
/// right, and that fails loudly.
///
/// When they name the SAME spender, the most advanced answer about it wins, as
/// in [`crate::policy::reconcile_tx`], so a caller asking how deep the spend is
/// gets the confirmed status if any provider has it, rather than whichever
/// answer happened to be listed last.
pub fn reconcile_outspend(
    txid: &str,
    vout: u32,
    answers: Vec<Answer<Outspend>>,
) -> (r: Result<Spend, Error>)
    ensures
        outspend_verdict(txid@, vout, answers.deep_view(), crate::error::outcome(r)),
{
    let ghost a: Seq<OutspendAnswer> = answers.deep_view();
    let ghost point = spender_point();
    let ghost mut first: int = 0;
    let ghost mut at: int = 0;
    let mut unspent: Option<(String, Outspend)> = None;
    let mut spent: Option<(String, Outspend)> = None;
    for answer in it: answers
        invariant
            it.seq() == answers@,
            a == answers.deep_view(),
            point == spender_point(),
            agreement::agree_up_to(a, point, it.index()),
            match unspent {
                None => forall|k: int| 0 <= k < it.index() ==> !says_unspent(#[trigger] a[k]),
                Some(held) => {
                    &&& held.deep_view() == (a[first].0, a[first].1->0)
                    &&& is_first_unspent_up_to(a, first, it.index())
                },
            },
            match spent {
                None => forall|k: int| 0 <= k < it.index() ==> !says_spent(#[trigger] a[k]),
                Some(held) => {
                    &&& held.deep_view() == (a[at].0, a[at].1->0)
                    &&& is_deepest_up_to(a, at, it.index())
                },
            },
    {
        let ghost n = it.index();
        assert(a[n] == answer.deep_view());
        let (base, o) = answer;
        if let Some(o) = o {
            if !o.spent {
                if unspent.is_none() {
                    unspent = Some((base, o));
                    proof {
                        first = n;
                    }
                }
            } else {
                let mut displaces = true;
                if let Some((prev_base, prev)) = &spent {
                    if !same_spender(&prev.txid, &o.txid) {
                        assert(spender_dispute(a, at, n));
                        return Err(
                            Error::SpenderDisagreement {
                                outpoint: outpoint(txid, vout),
                                a: prev_base.clone(),
                                a_txid: copy_of(&prev.txid),
                                b: base,
                                b_txid: o.txid,
                            },
                        );
                    }
                    // Same spender: keep whichever answer says the most about it.
                    displaces = spend_depth(&o) > spend_depth(prev);
                }
                if displaces {
                    spent = Some((base, o));
                    proof {
                        at = n;
                    }
                }
            }
        }
    }
    let ghost n = a.len() as int;
    match spent {
        Some((_, outspend)) => {
            assert(is_deepest_up_to(a, at, n) && a[at].1 == Some(outspend.deep_view()));
            let contested_by = match unspent {
                Some((base, _)) => {
                    assert(is_first_unspent_up_to(a, first, n) && a[first].0 == base@);
                    Some(base)
                },
                None => None,
            };
            Ok(Spend { outspend, contested_by })
        },
        None => match unspent {
            Some((_, outspend)) => {
                assert(is_first_unspent_up_to(a, first, n) && a[first].1 == Some(
                    outspend.deep_view(),
                ));
                Ok(Spend { outspend, contested_by: None })
            },
            None => {
                assert forall|k: int| 0 <= k < a.len() implies (#[trigger] a[k]).1 is None by {
                    assert(!says_spent(a[k]) && !says_unspent(a[k]));
                }
                Err(
                    Error::NotFound {
                        what: "outspend ".to_owned().concat(outpoint(txid, vout).as_str()),
                    },
                )
            },
        },
    }
}

/// Two answers name different spenders.
pub open spec fn spenders_differ(a: Seq<OutspendAnswer>) -> bool {
    exists|i: int, j: int|
        0 <= i < a.len() && 0 <= j < a.len() && says_spent(#[trigger] a[i]) && says_spent(
            #[trigger] a[j],
        ) && a[i].1->0.txid != a[j].1->0.txid
}

/// The verdict fails for two reasons only: two answers name different spenders,
/// or nobody knows the output.
pub proof fn outspend_fails_iff_disputed_or_unknown(
    txid: Seq<char>,
    vout: u32,
    a: Seq<OutspendAnswer>,
    r: Result<SpendView, ErrorView>,
)
    requires
        outspend_verdict(txid, vout, a, r),
    ensures
        r is Err && r->Err_0 is SpenderDisagreement <==> spenders_differ(a),
        r is Err && r->Err_0 is NotFound <==> forall|k: int|
            0 <= k < a.len() ==> (#[trigger] a[k]).1 is None,
        r is Err ==> r->Err_0 is SpenderDisagreement || r->Err_0 is NotFound,
{
    let point = spender_point();
    match r {
        Ok(spend) => {
            assert forall|i: int, j: int|
                0 <= i < a.len() && 0 <= j < a.len() && says_spent(#[trigger] a[i]) && says_spent(
                    #[trigger] a[j],
                ) implies a[i].1->0.txid == a[j].1->0.txid by {
                assert(point(a[i]) == point(a[j]));
            }
            if is_reported_spend(a, spend) {
                let k = choose|k: int| #[trigger]
                    is_deepest_up_to(a, k, a.len() as int) && a[k].1 == Some(spend.outspend);
                assert(a[k].1 is Some);
            } else {
                let k = choose|k: int| #[trigger]
                    is_first_unspent_up_to(a, k, a.len() as int) && a[k].1 == Some(spend.outspend);
                assert(a[k].1 is Some);
            }
        },
        Err(e) => {
            if exists|i: int, j: int| #[trigger] spender_dispute(a, i, j) {
                let (i, j) = choose|i: int, j: int| #[trigger] spender_dispute(a, i, j);
                assert(point(a[i]) != point(a[j]));
                assert(a[i].1->0.txid != a[j].1->0.txid);
                assert(a[i].1 is Some);
                assert(spenders_differ(a));
            }
        },
    }
}

/// Spent beats unspent: where the verdict succeeds, it is a spend exactly when
/// some provider reports one.
pub proof fn spent_beats_unspent(
    txid: Seq<char>,
    vout: u32,
    a: Seq<OutspendAnswer>,
    spend: SpendView,
)
    requires
        outspend_verdict(txid, vout, a, Ok(spend)),
    ensures
        spend.outspend.spent <==> exists|k: int| 0 <= k < a.len() && says_spent(#[trigger] a[k]),
{
    if is_reported_spend(a, spend) {
        let k = choose|k: int| #[trigger]
            is_deepest_up_to(a, k, a.len() as int) && a[k].1 == Some(spend.outspend);
        assert(says_spent(a[k]));
    } else {
        let k = choose|k: int| #[trigger]
            is_first_unspent_up_to(a, k, a.len() as int) && a[k].1 == Some(spend.outspend);
        assert(says_unspent(a[k]));
    }
}

/// A contested spend is reported as such: a provider is named exactly when one
/// reports a spend and one reports the output unspent, and it is one that
/// reports the output unspent.
pub proof fn contested_iff_overridden(
    txid: Seq<char>,
    vout: u32,
    a: Seq<OutspendAnswer>,
    spend: SpendView,
)
    requires
        outspend_verdict(txid, vout, a, Ok(spend)),
    ensures
        spend.contested_by is Some <==> (exists|k: int|
            0 <= k < a.len() && says_spent(#[trigger] a[k])) && (exists|k: int|
            0 <= k < a.len() && says_unspent(#[trigger] a[k])),
        spend.contested_by matches Some(base) ==> exists|k: int|
            0 <= k < a.len() && says_unspent(#[trigger] a[k]) && a[k].0 == base,
{
    if is_reported_spend(a, spend) {
        let k = choose|k: int| #[trigger]
            is_deepest_up_to(a, k, a.len() as int) && a[k].1 == Some(spend.outspend);
        assert(says_spent(a[k]));
        if spend.contested_by is Some {
            let j = choose|j: int| #[trigger]
                is_first_unspent_up_to(a, j, a.len() as int) && a[j].0 == spend.contested_by->0;
            assert(says_unspent(a[j]));
        }
    }
}

/// The most advanced answer about the spender wins: no provider that reports
/// the spend says more about it than what is returned, and all name its
/// spender.
pub proof fn spend_most_advanced_wins(
    txid: Seq<char>,
    vout: u32,
    a: Seq<OutspendAnswer>,
    spend: SpendView,
)
    requires
        outspend_verdict(txid, vout, a, Ok(spend)),
    ensures
        forall|k: int|
            0 <= k < a.len() && says_spent(#[trigger] a[k]) ==> spend_depth_of(a[k].1->0)
                <= spend_depth_of(spend.outspend) && a[k].1->0.txid == spend.outspend.txid,
{
    let point = spender_point();
    assert forall|k: int| 0 <= k < a.len() && says_spent(#[trigger] a[k]) implies spend_depth_of(
        a[k].1->0,
    ) <= spend_depth_of(spend.outspend) && a[k].1->0.txid == spend.outspend.txid by {
        let j = choose|j: int| #[trigger]
            is_deepest_up_to(a, j, a.len() as int) && a[j].1 == Some(spend.outspend);
        assert(point(a[k]) == point(a[j]));
    }
}

/// The order of the answers does not matter: whether and how the verdict fails,
/// whether the output is spent, by what, how deep, and whether that is contested
/// are the same in any order.
pub proof fn outspend_order_does_not_matter(
    txid: Seq<char>,
    vout: u32,
    a: Seq<OutspendAnswer>,
    b: Seq<OutspendAnswer>,
    r: Result<SpendView, ErrorView>,
    q: Result<SpendView, ErrorView>,
)
    requires
        agreement::same_items(a, b),
        outspend_verdict(txid, vout, a, r),
        outspend_verdict(txid, vout, b, q),
    ensures
        match (r, q) {
            (Ok(x), Ok(y)) => {
                &&& x.outspend.spent == y.outspend.spent
                &&& x.outspend.spent ==> x.outspend.txid == y.outspend.txid && spend_depth_of(
                    x.outspend,
                ) == spend_depth_of(y.outspend)
                &&& x.contested_by is Some <==> y.contested_by is Some
            },
            (Err(e), Err(f)) => e is NotFound <==> f is NotFound,
            _ => false,
        },
{
    outspend_fails_iff_disputed_or_unknown(txid, vout, a, r);
    outspend_fails_iff_disputed_or_unknown(txid, vout, b, q);
    assert(agreement::same_items(b, a));
    same_reports(a, b);
    same_reports(b, a);
    if r is Ok && q is Ok {
        let x = r->Ok_0;
        let y = q->Ok_0;
        spent_beats_unspent(txid, vout, a, x);
        spent_beats_unspent(txid, vout, b, y);
        contested_iff_overridden(txid, vout, a, x);
        contested_iff_overridden(txid, vout, b, y);
        if x.outspend.spent {
            no_deeper_elsewhere(txid, vout, a, b, x, y);
            no_deeper_elsewhere(txid, vout, b, a, y, x);
        }
    }
}

/// What is returned of the answers `a` is no deeper than what is returned of the
/// same answers in another order, and names the same spender.
proof fn no_deeper_elsewhere(
    txid: Seq<char>,
    vout: u32,
    a: Seq<OutspendAnswer>,
    b: Seq<OutspendAnswer>,
    x: SpendView,
    y: SpendView,
)
    requires
        agreement::same_items(a, b),
        outspend_verdict(txid, vout, a, Ok(x)),
        outspend_verdict(txid, vout, b, Ok(y)),
        x.outspend.spent,
    ensures
        spend_depth_of(x.outspend) <= spend_depth_of(y.outspend),
        x.outspend.txid == y.outspend.txid,
{
    spent_beats_unspent(txid, vout, a, x);
    spend_most_advanced_wins(txid, vout, b, y);
    assert(is_reported_spend(a, x));
    let k = choose|k: int| #[trigger]
        is_deepest_up_to(a, k, a.len() as int) && a[k].1 == Some(x.outspend);
    let i = agreement::counterpart(a, b, k);
    assert(says_spent(b[i]));
}

/// The same answers in another order report a spend, report the output unspent,
/// name different spenders and know nothing alike.
proof fn same_reports(a: Seq<OutspendAnswer>, b: Seq<OutspendAnswer>)
    requires
        agreement::same_items(a, b),
    ensures
        (exists|k: int| 0 <= k < a.len() && says_spent(#[trigger] a[k])) ==> (exists|k: int|
            0 <= k < b.len() && says_spent(#[trigger] b[k])),
        (exists|k: int| 0 <= k < a.len() && says_unspent(#[trigger] a[k])) ==> (exists|k: int|
            0 <= k < b.len() && says_unspent(#[trigger] b[k])),
        spenders_differ(a) ==> spenders_differ(b),
        (exists|k: int| 0 <= k < a.len() && (#[trigger] a[k]).1 is Some) ==> (exists|k: int|
            0 <= k < b.len() && (#[trigger] b[k]).1 is Some),
{
    if exists|k: int| 0 <= k < a.len() && says_spent(#[trigger] a[k]) {
        let k = choose|k: int| 0 <= k < a.len() && says_spent(#[trigger] a[k]);
        let i = agreement::counterpart(a, b, k);
        assert(says_spent(b[i]));
    }
    if exists|k: int| 0 <= k < a.len() && says_unspent(#[trigger] a[k]) {
        let k = choose|k: int| 0 <= k < a.len() && says_unspent(#[trigger] a[k]);
        let i = agreement::counterpart(a, b, k);
        assert(says_unspent(b[i]));
    }
    if spenders_differ(a) {
        let (i, j) = choose|i: int, j: int|
            0 <= i < a.len() && 0 <= j < a.len() && says_spent(#[trigger] a[i]) && says_spent(
                #[trigger] a[j],
            ) && a[i].1->0.txid != a[j].1->0.txid;
        let k = agreement::counterpart(a, b, i);
        let l = agreement::counterpart(a, b, j);
        assert(says_spent(b[k]) && says_spent(b[l]));
    }
    if exists|k: int| 0 <= k < a.len() && (#[trigger] a[k]).1 is Some {
        let k = choose|k: int| 0 <= k < a.len() && (#[trigger] a[k]).1 is Some;
        let i = agreement::counterpart(a, b, k);
        assert(b[i].1 is Some);
    }
}

/// The answers determine the verdict.
pub proof fn outspend_verdict_is_unique(
    txid: Seq<char>,
    vout: u32,
    a: Seq<OutspendAnswer>,
    r: Result<SpendView, ErrorView>,
    q: Result<SpendView, ErrorView>,
)
    requires
        outspend_verdict(txid, vout, a, r),
        outspend_verdict(txid, vout, a, q),
    ensures
        r == q,
{
    let n = a.len() as int;
    outspend_fails_iff_disputed_or_unknown(txid, vout, a, r);
    outspend_fails_iff_disputed_or_unknown(txid, vout, a, q);
    outspend_order_does_not_matter(txid, vout, a, a, r, q);
    match (r, q) {
        (Ok(x), Ok(y)) => {
            spent_beats_unspent(txid, vout, a, x);
            spent_beats_unspent(txid, vout, a, y);
            if x.outspend.spent {
                assert(is_reported_spend(a, x) && is_reported_spend(a, y));
                let k = choose|k: int| #[trigger]
                    is_deepest_up_to(a, k, n) && a[k].1 == Some(x.outspend);
                let l = choose|l: int| #[trigger]
                    is_deepest_up_to(a, l, n) && a[l].1 == Some(y.outspend);
                deepest_is_unique(a, k, l, n);
                if x.contested_by is Some {
                    let i = choose|i: int| #[trigger]
                        is_first_unspent_up_to(a, i, n) && a[i].0 == x.contested_by->0;
                    assert(says_unspent(a[i]));
                    let j = choose|j: int| #[trigger]
                        is_first_unspent_up_to(a, j, n) && a[j].0 == y.contested_by->0;
                    first_unspent_is_unique(a, i, j, n);
                }
            } else {
                assert(is_unspent(a, x) && is_unspent(a, y));
                let k = choose|k: int| #[trigger]
                    is_first_unspent_up_to(a, k, n) && a[k].1 == Some(x.outspend);
                let l = choose|l: int| #[trigger]
                    is_first_unspent_up_to(a, l, n) && a[l].1 == Some(y.outspend);
                first_unspent_is_unique(a, k, l, n);
            }
        },
        (Err(e), Err(f)) => {
            if e is SpenderDisagreement {
                let (i, j) = choose|i: int, j: int| #[trigger]
                    spender_dispute(a, i, j) && e == (ErrorView::SpenderDisagreement {
                        outpoint: outpoint_text(txid, vout),
                        a: a[i].0,
                        a_txid: a[i].1->0.txid,
                        b: a[j].0,
                        b_txid: a[j].1->0.txid,
                    });
                let (k, l) = choose|k: int, l: int| #[trigger]
                    spender_dispute(a, k, l) && f == (ErrorView::SpenderDisagreement {
                        outpoint: outpoint_text(txid, vout),
                        a: a[k].0,
                        a_txid: a[k].1->0.txid,
                        b: a[l].0,
                        b_txid: a[l].1->0.txid,
                    });
                let point = spender_point();
                if j < l {
                    assert(point(a[i]) == point(a[j]));
                } else if l < j {
                    assert(point(a[k]) == point(a[l]));
                }
                deepest_is_unique(a, i, k, j);
            }
        },
        _ => {},
    }
}

proof fn deepest_is_unique(a: Seq<OutspendAnswer>, k: int, l: int, n: int)
    requires
        is_deepest_up_to(a, k, n),
        is_deepest_up_to(a, l, n),
    ensures
        k == l,
{
    assert(says_spent(a[k]) && says_spent(a[l]));
}

proof fn first_unspent_is_unique(a: Seq<OutspendAnswer>, k: int, l: int, n: int)
    requires
        is_first_unspent_up_to(a, k, n),
        is_first_unspent_up_to(a, l, n),
    ensures
        k == l,
{
    assert(says_unspent(a[k]) && says_unspent(a[l]));
}

/// A 404 is no disagreement: one more answer that has never heard of the output,
/// wherever it stands, changes nothing.
pub proof fn outspend_lag_changes_nothing(
    txid: Seq<char>,
    vout: u32,
    a: Seq<OutspendAnswer>,
    at: int,
    base: Seq<char>,
    r: Result<SpendView, ErrorView>,
)
    requires
        0 <= at <= a.len(),
        outspend_verdict(txid, vout, a, r),
    ensures
        outspend_verdict(txid, vout, a.insert(at, (base, None)), r),
{
    let x: OutspendAnswer = (base, None);
    let b = a.insert(at, x);
    let point = spender_point();
    let n = a.len() as int;
    match r {
        Err(e) => {
            if e is SpenderDisagreement {
                let (i, j) = choose|i: int, j: int| #[trigger]
                    spender_dispute(a, i, j) && e == (ErrorView::SpenderDisagreement {
                        outpoint: outpoint_text(txid, vout),
                        a: a[i].0,
                        a_txid: a[i].1->0.txid,
                        b: a[j].0,
                        b_txid: a[j].1->0.txid,
                    });
                agreement::clash_of_insert(a, point, at, x, i, j);
                deepest_of_insert(a, at, x, i, j);
                assert(spender_dispute(
                    b,
                    agreement::shifted(i, at),
                    agreement::shifted(j, at),
                ));
                assert(b[agreement::shifted(i, at)] == a[i]);
                assert(b[agreement::shifted(j, at)] == a[j]);
            } else {
                assert forall|m: int| 0 <= m < b.len() implies (#[trigger] b[m]).1 is None by {
                    if m != at {
                        assert(b[m] == a[if m < at {
                            m
                        } else {
                            m - 1
                        }]);
                    }
                }
            }
        },
        Ok(spend) => {
            agreement::agreement_of_insert(a, point, at, x);
            if is_reported_spend(a, spend) {
                let k = choose|k: int| #[trigger]
                    is_deepest_up_to(a, k, n) && a[k].1 == Some(spend.outspend);
                deepest_of_insert(a, at, x, k, n);
                assert(b[agreement::shifted(k, at)] == a[k]);
                if spend.contested_by is Some {
                    let i = choose|i: int| #[trigger]
                        is_first_unspent_up_to(a, i, n) && a[i].0 == spend.contested_by->0;
                    first_unspent_of_insert(a, at, x, i);
                    assert(b[agreement::shifted(i, at)] == a[i]);
                } else {
                    assert forall|m: int| 0 <= m < b.len() implies !says_unspent(
                        #[trigger] b[m],
                    ) by {
                        if m != at {
                            assert(b[m] == a[if m < at {
                                m
                            } else {
                                m - 1
                            }]);
                        }
                    }
                }
                assert(is_reported_spend(b, spend));
            } else {
                let k = choose|k: int| #[trigger]
                    is_first_unspent_up_to(a, k, n) && a[k].1 == Some(spend.outspend);
                first_unspent_of_insert(a, at, x, k);
                assert(b[agreement::shifted(k, at)] == a[k]);
                assert forall|m: int| 0 <= m < b.len() implies !says_spent(#[trigger] b[m]) by {
                    if m != at {
                        assert(b[m] == a[if m < at {
                            m
                        } else {
                            m - 1
                        }]);
                    }
                }
                assert(is_unspent(b, spend));
            }
        },
    }
}

proof fn deepest_of_insert(a: Seq<OutspendAnswer>, at: int, x: OutspendAnswer, k: int, n: int)
    requires
        0 <= at <= a.len(),
        x.1 is None,
        0 <= n <= a.len(),
        is_deepest_up_to(a, k, n),
    ensures
        n < a.len() ==> is_deepest_up_to(
            a.insert(at, x),
            agreement::shifted(k, at),
            agreement::shifted(n, at),
        ),
        n == a.len() ==> is_deepest_up_to(
            a.insert(at, x),
            agreement::shifted(k, at),
            n + 1,
        ),
{
    let b = a.insert(at, x);
    let l = agreement::shifted(k, at);
    assert(b[l] == a[k]);
    assert forall|m: int| 0 <= m < b.len() && says_spent(#[trigger] b[m]) implies b[m] == a[if m
        < at {
        m
    } else {
        m - 1
    }] by {}
}

proof fn first_unspent_of_insert(a: Seq<OutspendAnswer>, at: int, x: OutspendAnswer, k: int)
    requires
        0 <= at <= a.len(),
        x.1 is None,
        is_first_unspent_up_to(a, k, a.len() as int),
    ensures
        is_first_unspent_up_to(
            a.insert(at, x),
            agreement::shifted(k, at),
            a.len() as int + 1,
        ),
{
    let b = a.insert(at, x);
    assert(b[agreement::shifted(k, at)] == a[k]);
    assert forall|m: int| 0 <= m < b.len() && says_unspent(#[trigger] b[m]) implies b[m] == a[if m
        < at {
        m
    } else {
        m - 1
    }] by {}
}

} // verus!
