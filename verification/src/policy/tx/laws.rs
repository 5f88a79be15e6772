//! What reconciling where a transaction is promises, over the fields of the
//! answers.

use vstd::prelude::*;

use crate::error::ErrorView;
use crate::policy::tx::TxAnswer;
use crate::types::TxInfoView;
#[allow(unused_imports)]
use crate::policy::{agreement, tx};

verus! {

/// The answer says that the transaction is confirmed in block `height`.
pub open spec fn mined_at(x: TxAnswer, height: u64) -> bool {
    x.1 matches Some(info) && info.status.confirmed && info.status.block_height == Some(height)
}

/// Two answers that put a confirmed transaction in different blocks are the one
/// thing that fails: nothing else does, and they always do.
pub proof fn only_two_blocks_conflict(
    txid: Seq<char>,
    a: Seq<TxAnswer>,
    r: Result<Option<TxInfoView>, ErrorView>,
)
    requires
        tx::tx_verdict(txid, a, r),
    ensures
        r is Err <==> exists|i: int, j: int, g: u64, h: u64|
            0 <= i < a.len() && 0 <= j < a.len() && g != h && #[trigger] mined_at(a[i], g)
                && #[trigger] mined_at(a[j], h),
        forall|x: TxAnswer, h: u64| #[trigger]
            mined_at(x, h) <==> x.1 is Some && x.1->0.status.confirmed
                && x.1->0.status.block_height == Some(h),
{
    tx::tx_fails_iff_heights_differ(txid, a, r);
    if r is Err {
        let (i, j) = choose|i: int, j: int|
            0 <= i < a.len() && 0 <= j < a.len() && tx::known_height(#[trigger] a[i]) is Some
                && tx::known_height(#[trigger] a[j]) is Some && tx::known_height(a[i])
                != tx::known_height(a[j]);
        let g = tx::known_height(a[i])->0;
        let h = tx::known_height(a[j])->0;
        assert(mined_at(a[i], g) && mined_at(a[j], h));
    }
    if exists|i: int, j: int, g: u64, h: u64|
        0 <= i < a.len() && 0 <= j < a.len() && g != h && #[trigger] mined_at(a[i], g)
            && #[trigger] mined_at(a[j], h) {
        let (i, j, g, h) = choose|i: int, j: int, g: u64, h: u64|
            0 <= i < a.len() && 0 <= j < a.len() && g != h && #[trigger] mined_at(a[i], g)
                && #[trigger] mined_at(a[j], h);
        assert(tx::known_height(a[i]) == Some(g) && tx::known_height(a[j]) == Some(h));
    }
}

/// The error names the transaction, and two providers with the different blocks
/// that they put it in: the second is the first that contradicts, and the first
/// is the last before it to name a block.
pub proof fn conflict_names_both_sides(txid: Seq<char>, a: Seq<TxAnswer>, e: ErrorView)
    requires
        tx::tx_verdict(txid, a, Err(e)),
    ensures
        exists|i: int, j: int, g: u64, h: u64|
            {
                &&& 0 <= i < j < a.len()
                &&& #[trigger] mined_at(a[i], g)
                &&& #[trigger] mined_at(a[j], h)
                &&& g != h
                &&& e == (ErrorView::HeightDisagreement {
                    txid,
                    a: a[i].0,
                    a_height: g,
                    b: a[j].0,
                    b_height: h,
                })
                &&& forall|k: int, f: u64| 0 <= k < j && #[trigger] mined_at(a[k], f) ==> k <= i
                    && f == g
            },
{
    let (i, j) = choose|i: int, j: int| #[trigger]
        tx::height_dispute(a, i, j) && e == (ErrorView::HeightDisagreement {
            txid,
            a: a[i].0,
            a_height: tx::known_height(a[i])->0,
            b: a[j].0,
            b_height: tx::known_height(a[j])->0,
        });
    let point = tx::height_point();
    let g = tx::known_height(a[i])->0;
    let h = tx::known_height(a[j])->0;
    assert(point(a[i]) is Some && point(a[j]) is Some && point(a[i]) != point(a[j]));
    assert(mined_at(a[i], g) && mined_at(a[j], h));
    assert forall|k: int, f: u64| 0 <= k < j && #[trigger] mined_at(a[k], f) implies k <= i && f
        == g by {
        assert(tx::known_height(a[k]) == Some(f));
        assert(point(a[k]) == point(a[i]));
    }
}

/// Confirmed in a block beats everything: where an answer puts the transaction
/// in a block and the verdict does not fail, what is returned is confirmed in
/// that block, and is the last answer to say so, whole.
pub proof fn a_known_block_wins(
    txid: Seq<char>,
    a: Seq<TxAnswer>,
    r: Result<Option<TxInfoView>, ErrorView>,
    k: int,
    height: u64,
)
    requires
        tx::tx_verdict(txid, a, r),
        r is Ok,
        0 <= k < a.len(),
        mined_at(a[k], height),
        forall|m: int, h: u64| k < m < a.len() ==> !#[trigger] mined_at(a[m], h),
    ensures
        r == Ok::<Option<TxInfoView>, ErrorView>(a[k].1),
        r->Ok_0->0.status.confirmed,
        r->Ok_0->0.status.block_height == Some(height),
{
    assert(a[k].1 is Some);
    tx::tx_unknown_iff_nobody_knows(txid, a, r);
    let info = r->Ok_0->0;
    let b = choose|b: int| #[trigger] tx::is_furthest(a, b) && a[b].1 == Some(info);
    assert(tx::advance(a[k]) == 3);
    assert(tx::advance(a[k]) <= tx::advance(a[b]));
    if k < b {
        assert(mined_at(a[b], a[b].1->0.status.block_height->0));
    }
}

/// Whichever answer puts the transaction in a block, what is returned is
/// confirmed in that block, unless the verdict fails.
pub proof fn a_known_block_is_returned(
    txid: Seq<char>,
    a: Seq<TxAnswer>,
    r: Result<Option<TxInfoView>, ErrorView>,
    k: int,
    height: u64,
)
    requires
        tx::tx_verdict(txid, a, r),
        0 <= k < a.len(),
        mined_at(a[k], height),
    ensures
        r is Err || (r->Ok_0 is Some && r->Ok_0->0.status.confirmed
            && r->Ok_0->0.status.block_height == Some(height)),
{
    assert(a[k].1 is Some);
    only_two_blocks_conflict(txid, a, r);
    tx::tx_unknown_iff_nobody_knows(txid, a, r);
    if r is Ok {
        let info = r->Ok_0->0;
        let b = choose|b: int| #[trigger] tx::is_furthest(a, b) && a[b].1 == Some(info);
        assert(tx::advance(a[k]) == 3);
        assert(tx::advance(a[k]) <= tx::advance(a[b]));
        assert(mined_at(a[b], a[b].1->0.status.block_height->0));
    }
}

/// Confirmed beats the mempool: where no answer names a block but one says
/// confirmed, what is returned is the first that does, whole.
pub proof fn confirmed_beats_the_mempool(
    txid: Seq<char>,
    a: Seq<TxAnswer>,
    r: Result<Option<TxInfoView>, ErrorView>,
    k: int,
)
    requires
        tx::tx_verdict(txid, a, r),
        forall|m: int, h: u64| 0 <= m < a.len() ==> !#[trigger] mined_at(a[m], h),
        0 <= k < a.len(),
        a[k].1 is Some,
        a[k].1->0.status.confirmed,
        forall|m: int|
            0 <= m < k && (#[trigger] a[m]).1 is Some ==> !a[m].1->0.status.confirmed,
    ensures
        r == Ok::<Option<TxInfoView>, ErrorView>(a[k].1),
{
    only_two_blocks_conflict(txid, a, r);
    tx::tx_unknown_iff_nobody_knows(txid, a, r);
    assert forall|m: int| 0 <= m < a.len() implies tx::advance(#[trigger] a[m]) <= 2 by {
        if tx::advance(a[m]) == 3 {
            assert(mined_at(a[m], a[m].1->0.status.block_height->0));
        }
    }
    let info = r->Ok_0->0;
    let b = choose|b: int| #[trigger] tx::is_furthest(a, b) && a[b].1 == Some(info);
    assert(tx::advance(a[k]) == 2);
    assert(tx::advance(a[k]) <= tx::advance(a[b]));
}

/// The mempool beats a 404: where no answer says confirmed, what is returned is
/// the last that has heard of the transaction, whole.
pub proof fn the_mempool_beats_a_404(
    txid: Seq<char>,
    a: Seq<TxAnswer>,
    r: Result<Option<TxInfoView>, ErrorView>,
    k: int,
)
    requires
        tx::tx_verdict(txid, a, r),
        forall|m: int|
            0 <= m < a.len() && (#[trigger] a[m]).1 is Some ==> !a[m].1->0.status.confirmed,
        0 <= k < a.len(),
        a[k].1 is Some,
        forall|m: int| k < m < a.len() ==> (#[trigger] a[m]).1 is None,
    ensures
        r == Ok::<Option<TxInfoView>, ErrorView>(a[k].1),
{
    only_two_blocks_conflict(txid, a, r);
    tx::tx_unknown_iff_nobody_knows(txid, a, r);
    if r is Err {
        let (i, j, g, h) = choose|i: int, j: int, g: u64, h: u64|
            0 <= i < a.len() && 0 <= j < a.len() && g != h && #[trigger] mined_at(a[i], g)
                && #[trigger] mined_at(a[j], h);
        assert(a[i].1 is Some);
    }
    let info = r->Ok_0->0;
    let b = choose|b: int| #[trigger] tx::is_furthest(a, b) && a[b].1 == Some(info);
    assert(tx::advance(a[k]) == 1);
    assert(a[b].1 is Some);
}

/// Nothing is returned exactly when nobody has heard of the transaction.
pub proof fn unknown_only_to_everybody(
    txid: Seq<char>,
    a: Seq<TxAnswer>,
    r: Result<Option<TxInfoView>, ErrorView>,
)
    requires
        tx::tx_verdict(txid, a, r),
    ensures
        r is Ok && r->Ok_0 is None <==> forall|k: int|
            0 <= k < a.len() ==> (#[trigger] a[k]).1 is None,
{
    tx::tx_unknown_iff_nobody_knows(txid, a, r);
}

} // verus!
