//! Reconciling what providers list for an address.

use vstd::prelude::*;

use crate::error::{Error, ErrorView};
use crate::text::{comes_before, same_text};
use crate::types::{AddressTx, AddressTxView, Answer, TxStatus, TxStatusView};
#[allow(unused_imports)]
use crate::policy::agreement;

pub mod laws;
pub mod listings;

verus! {

/// One provider's answer: its name, and the transactions it lists.
pub type AddressAnswer = (Seq<char>, Option<Seq<AddressTxView>>);

/// A transaction, with the provider that listed it.
pub type Copied = (Seq<char>, AddressTxView);

/// The transactions of one answer that pay `address`.
pub open spec fn listed(x: AddressAnswer, address: Seq<char>) -> Seq<Copied> {
    match x.1 {
        Some(txs) => txs.filter(|tx: AddressTxView| crate::types::pays(tx, address)).map_values(
            |tx: AddressTxView| (x.0, tx),
        ),
        None => Seq::empty(),
    }
}

/// The transactions of all answers that pay `address`, in the order of the
/// answers.
pub open spec fn sightings(a: Seq<AddressAnswer>, address: Seq<char>) -> Seq<Copied>
    decreases a.len(),
{
    if a.len() == 0 {
        Seq::empty()
    } else {
        sightings(a.drop_last(), address) + listed(a.last(), address)
    }
}

/// What was listed of one transaction.
pub open spec fn copies(a: Seq<AddressAnswer>, address: Seq<char>, txid: Seq<char>) -> Seq<Copied> {
    sightings(a, address).filter(|c: Copied| c.1.txid == txid)
}

/// Some provider lists `txid` as paying `address`.
pub open spec fn reported(a: Seq<AddressAnswer>, address: Seq<char>, txid: Seq<char>) -> bool {
    copies(a, address, txid).len() > 0
}

/// The provider lists `txid` as paying `address`, confirmed.
pub open spec fn confirms(x: AddressAnswer, address: Seq<char>, txid: Seq<char>) -> bool {
    x.1 is Some && exists|k: int|
        0 <= k < (x.1->0).len() && is_confirmation(#[trigger] (x.1->0)[k], address, txid)
}

/// `tx` is `txid`, pays `address` and is confirmed.
pub open spec fn is_confirmation(tx: AddressTxView, address: Seq<char>, txid: Seq<char>) -> bool {
    tx.txid == txid && crate::types::pays(tx, address) && tx.status.confirmed
}

/// How many providers say that `txid` is confirmed.
pub open spec fn votes(a: Seq<AddressAnswer>, address: Seq<char>, txid: Seq<char>) -> nat {
    a.filter(|x: AddressAnswer| confirms(x, address, txid)).len()
}

/// How many providers answered.
pub open spec fn answered(a: Seq<AddressAnswer>) -> nat {
    a.filter(|x: AddressAnswer| x.1 is Some).len()
}

/// More than half of the providers that answered say that `txid` is confirmed.
pub open spec fn majority(a: Seq<AddressAnswer>, address: Seq<char>, txid: Seq<char>) -> bool {
    2 * votes(a, address, txid) > answered(a)
}

/// The block that a copy of a transaction puts it in, where it is confirmed and
/// names one.
pub open spec fn block_of(c: Copied) -> Option<u64> {
    if c.1.status.confirmed {
        c.1.status.block_height
    } else {
        None
    }
}

/// [`block_of`], as the point on which copies agree or not.
pub open spec fn block_point() -> spec_fn(Copied) -> Option<u64> {
    |c: Copied| block_of(c)
}

/// What a copy says was paid to `address` first, as the point on which copies
/// agree or not.
pub open spec fn value_point(address: Seq<char>) -> spec_fn(Copied) -> Option<u64> {
    |c: Copied| Some(crate::types::paid(c.1, address))
}

/// What a copy says output `v` pays `address`, where it says that it does, as
/// the point on which copies agree or not.
pub open spec fn output_point(address: Seq<char>, v: int) -> spec_fn(Copied) -> Option<u64> {
    |c: Copied| crate::types::paid_by_output(c.1, address, v)
}

/// The first `n` copies name the same value for every output to `address`.
pub open spec fn outputs_agree_up_to(c: Seq<Copied>, address: Seq<char>, n: int) -> bool {
    forall|v: int|
        agreement::agree_up_to(c, #[trigger] output_point(address, v), n)
}

/// The first `n` copies do not contradict each other: they name the same block,
/// the same value for the first output to `address`, and the same value for the
/// same output.
pub open spec fn consistent(c: Seq<Copied>, address: Seq<char>, n: int) -> bool {
    &&& agreement::agree_up_to(c, block_point(), n)
    &&& agreement::agree_up_to(c, value_point(address), n)
    &&& outputs_agree_up_to(c, address, n)
}

/// The copies contradict each other.
pub open spec fn disputed(c: Seq<Copied>, address: Seq<char>) -> bool {
    !consistent(c, address, c.len() as int)
}

/// Copy `j` is the first that contradicts an earlier one, it contradicts the
/// block that `i` named, and `i` is the first to have named one.
pub open spec fn block_dispute(c: Seq<Copied>, address: Seq<char>, i: int, j: int) -> bool {
    &&& agreement::clash(c, block_point(), i, j)
    &&& forall|m: int| 0 <= m < i ==> block_of(#[trigger] c[m]) is None
    &&& consistent(c, address, j)
}

/// Copy `j` is the first that contradicts an earlier one, not in the block, and
/// it contradicts the first copy in what was paid first.
pub open spec fn value_dispute(c: Seq<Copied>, address: Seq<char>, j: int) -> bool {
    &&& agreement::clash(c, value_point(address), 0, j)
    &&& agreement::agree_up_to(c, block_point(), j + 1)
    &&& consistent(c, address, j)
}

/// Copy `j` contradicts `i` on the value of output `v`: the first output on
/// which it contradicts an earlier copy, where `i` is the first copy to name a
/// value.
pub open spec fn output_clash(
    c: Seq<Copied>,
    address: Seq<char>,
    v: int,
    i: int,
    j: int,
) -> bool {
    &&& agreement::clash(c, output_point(address, v), i, j)
    &&& forall|m: int|
        0 <= m < i ==> crate::types::paid_by_output((#[trigger] c[m]).1, address, v) is None
    &&& forall|w: int|
        w < v ==> agreement::agree_up_to(c, #[trigger] output_point(address, w), j + 1)
}

/// Copy `j` is the first that contradicts an earlier one, neither in the block
/// nor in what was paid first, and it contradicts the value that `i` names for
/// output `v`.
pub open spec fn output_dispute(
    c: Seq<Copied>,
    address: Seq<char>,
    v: int,
    i: int,
    j: int,
) -> bool {
    &&& output_clash(c, address, v, i, j)
    &&& agreement::agree_up_to(c, block_point(), j + 1)
    &&& agreement::agree_up_to(c, value_point(address), j + 1)
    &&& consistent(c, address, j)
}

/// `e` tells how the copies of `txid` contradict each other.
pub open spec fn tells_dispute(
    txid: Seq<char>,
    address: Seq<char>,
    c: Seq<Copied>,
    e: ErrorView,
) -> bool {
    ||| exists|i: int, j: int| #[trigger]
        block_dispute(c, address, i, j) && e == block_error(txid, c, i, j)
    ||| exists|j: int| #[trigger]
        value_dispute(c, address, j) && e == value_error(txid, address, c, j)
    ||| exists|v: int, i: int, j: int| #[trigger]
        output_dispute(c, address, v, i, j) && e == output_error(txid, address, c, v, i, j)
}

/// Copies `i` and `j` put `txid` in different blocks.
pub open spec fn block_error(txid: Seq<char>, c: Seq<Copied>, i: int, j: int) -> ErrorView {
    ErrorView::HeightDisagreement {
        txid,
        a: c[i].0,
        a_height: block_of(c[i])->0,
        b: c[j].0,
        b_height: block_of(c[j])->0,
    }
}

/// The first copy and copy `j` name different values for what `txid` paid
/// `address` first.
pub open spec fn value_error(
    txid: Seq<char>,
    address: Seq<char>,
    c: Seq<Copied>,
    j: int,
) -> ErrorView {
    ErrorView::ValueDisagreement {
        txid,
        address,
        a: c[0].0,
        a_value: crate::types::paid(c[0].1, address),
        b: c[j].0,
        b_value: crate::types::paid(c[j].1, address),
    }
}

/// Copies `i` and `j` name different values for output `v` of `txid`, which pays
/// `address`.
pub open spec fn output_error(
    txid: Seq<char>,
    address: Seq<char>,
    c: Seq<Copied>,
    v: int,
    i: int,
    j: int,
) -> ErrorView {
    ErrorView::ValueDisagreement {
        txid,
        address,
        a: c[i].0,
        a_value: crate::types::paid_by_output(c[i].1, address, v)->0,
        b: c[j].0,
        b_value: crate::types::paid_by_output(c[j].1, address, v)->0,
    }
}

/// The copy that is kept: the first that says what the majority says of
/// confirmation, or the very first where none does.
pub open spec fn is_kept(c: Seq<Copied>, confirmed: bool, k: int) -> bool {
    &&& 0 <= k < c.len()
    &&& forall|j: int| 0 <= j < k ==> (#[trigger] c[j]).1.status.confirmed != confirmed
    &&& c[k].1.status.confirmed == confirmed || (k == 0 && forall|j: int|
        0 <= j < c.len() ==> (#[trigger] c[j]).1.status.confirmed != confirmed)
}

/// A status that claims nothing.
pub open spec fn unclaimed() -> TxStatusView {
    TxStatusView { confirmed: false, block_height: None, block_hash: None, block_time: None }
}

/// `tx` is what is returned of the copies: the one that is kept, without its
/// claim to a block where the majority does not confirm it.
pub open spec fn settles(c: Seq<Copied>, confirmed: bool, tx: AddressTxView) -> bool {
    exists|k: int| #[trigger]
        is_kept(c, confirmed, k) && tx == if confirmed {
            c[k].1
        } else {
            AddressTxView { status: unclaimed(), ..c[k].1 }
        }
}

/// What the providers' answers about `address` come to.
pub open spec fn address_verdict(
    address: Seq<char>,
    a: Seq<AddressAnswer>,
    r: Result<Seq<AddressTxView>, ErrorView>,
) -> bool {
    match r {
        Ok(out) => {
            &&& forall|txid: Seq<char>| #[trigger]
                reported(a, address, txid) ==> (exists|i: int|
                    0 <= i < out.len() && (#[trigger] out[i]).txid == txid)
            &&& forall|i: int, j: int|
                0 <= i < j < out.len() ==> crate::text::precedes(
                    (#[trigger] out[i]).txid,
                    (#[trigger] out[j]).txid,
                )
            &&& forall|i: int|
                0 <= i < out.len() ==> is_settled(a, address, #[trigger] out[i])
        },
        Err(e) => exists|txid: Seq<char>| #[trigger]
            is_first_disputed(a, address, txid) && tells_dispute(
                txid,
                address,
                copies(a, address, txid),
                e,
            ),
    }
}

/// `txid` is the first, in the order of txids, that is reported and disputed.
pub open spec fn is_first_disputed(
    a: Seq<AddressAnswer>,
    address: Seq<char>,
    txid: Seq<char>,
) -> bool {
    &&& reported(a, address, txid)
    &&& disputed(copies(a, address, txid), address)
    &&& forall|t: Seq<char>| #[trigger]
        reported(a, address, t) && crate::text::precedes(t, txid) ==> !disputed(
            copies(a, address, t),
            address,
        )
}

/// `tx` is reported, undisputed, and as the majority settles it.
pub open spec fn is_settled(
    a: Seq<AddressAnswer>,
    address: Seq<char>,
    tx: AddressTxView,
) -> bool {
    &&& reported(a, address, tx.txid)
    &&& !disputed(copies(a, address, tx.txid), address)
    &&& settles(copies(a, address, tx.txid), majority(a, address, tx.txid), tx)
}

/// What has been gathered of one transaction.
struct Group {
    txid: String,
    copies: Vec<(String, AddressTx)>,
    /// How many providers say that it is confirmed.
    votes: usize,
    /// The number, from 1, of the last answer that counts among `votes`.
    voter: usize,
}

/// The groups are those of the answers `a`: one for each transaction reported,
/// in the order of their txids, with all copies and all votes.
spec fn grouped(groups: Seq<Group>, a: Seq<AddressAnswer>, address: Seq<char>) -> bool {
    &&& forall|i: int, j: int|
        0 <= i < j < groups.len() ==> crate::text::precedes(
            (#[trigger] groups[i]).txid@,
            (#[trigger] groups[j]).txid@,
        )
    &&& forall|i: int| 0 <= i < groups.len() ==> is_group(#[trigger] groups[i], a, address)
    &&& forall|txid: Seq<char>| #[trigger]
        reported(a, address, txid) ==> (exists|i: int|
            0 <= i < groups.len() && (#[trigger] groups[i]).txid@ == txid)
}

/// The group holds what `a` reports of its transaction.
spec fn is_group(g: Group, a: Seq<AddressAnswer>, address: Seq<char>) -> bool {
    &&& g.copies.deep_view() == copies(a, address, g.txid@)
    &&& g.copies.len() > 0
    &&& g.votes == votes(a, address, g.txid@)
}

/// Each group remembers whether the last of the answers, the `n`th, is counted
/// among its votes.
spec fn counted(groups: Seq<Group>, a: Seq<AddressAnswer>, address: Seq<char>) -> bool {
    forall|i: int|
        0 <= i < groups.len() ==> (#[trigger] groups[i]).voter <= a.len() && (groups[i].voter
            == a.len() <==> confirms(a.last(), address, groups[i].txid@))
}

/// One more answer adds what it lists.
pub(crate) proof fn copies_of_push(
    a: Seq<AddressAnswer>,
    x: AddressAnswer,
    address: Seq<char>,
    txid: Seq<char>,
)
    ensures
        copies(a.push(x), address, txid) == copies(a, address, txid) + listed(x, address).filter(
            |c: Copied| c.1.txid == txid,
        ),
{
    assert(a.push(x).drop_last() =~= a);
    Seq::filter_distributes_over_add(
        sightings(a, address),
        listed(x, address),
        |c: Copied| c.1.txid == txid,
    );
}

/// One more transaction in an answer is one more listed, if it pays.
proof fn listed_of_push(base: Seq<char>, txs: Seq<AddressTxView>, tx: AddressTxView, address: Seq<char>)
    ensures
        listed((base, Some(txs.push(tx))), address) == if crate::types::pays(tx, address) {
            listed((base, Some(txs)), address).push((base, tx))
        } else {
            listed((base, Some(txs)), address)
        },
{
    txs.lemma_filter_push(tx, |tx: AddressTxView| crate::types::pays(tx, address));
    assert(listed((base, Some(txs.push(tx))), address) =~= if crate::types::pays(tx, address) {
        listed((base, Some(txs)), address).push((base, tx))
    } else {
        listed((base, Some(txs)), address)
    });
}

/// One more transaction in the last answer is one more copy of it, if it pays.
pub(crate) proof fn copies_of_longer_answer(
    a: Seq<AddressAnswer>,
    base: Seq<char>,
    txs: Seq<AddressTxView>,
    tx: AddressTxView,
    address: Seq<char>,
    txid: Seq<char>,
)
    ensures
        copies(a.push((base, Some(txs.push(tx)))), address, txid) == if tx.txid == txid
            && crate::types::pays(tx, address) {
            copies(a.push((base, Some(txs))), address, txid).push((base, tx))
        } else {
            copies(a.push((base, Some(txs))), address, txid)
        },
{
    let p = |c: Copied| c.1.txid == txid;
    copies_of_push(a, (base, Some(txs)), address, txid);
    copies_of_push(a, (base, Some(txs.push(tx))), address, txid);
    listed_of_push(base, txs, tx, address);
    if crate::types::pays(tx, address) {
        listed((base, Some(txs)), address).lemma_filter_push((base, tx), p);
    }
    assert(copies(a.push((base, Some(txs.push(tx)))), address, txid) =~= if tx.txid == txid
        && crate::types::pays(tx, address) {
        copies(a.push((base, Some(txs))), address, txid).push((base, tx))
    } else {
        copies(a.push((base, Some(txs))), address, txid)
    });
}

/// An answer that lists nothing adds no copy.
pub(crate) proof fn copies_of_blank_answer(
    a: Seq<AddressAnswer>,
    x: AddressAnswer,
    address: Seq<char>,
    txid: Seq<char>,
)
    requires
        x.1 is None || x.1 == Some(Seq::<AddressTxView>::empty()),
    ensures
        copies(a.push(x), address, txid) == copies(a, address, txid),
        !confirms(x, address, txid),
{
    let p = |c: Copied| c.1.txid == txid;
    copies_of_push(a, x, address, txid);
    reveal(Seq::filter);
    assert(listed(x, address) =~= Seq::empty());
    assert(Seq::<Copied>::empty().filter(p) =~= Seq::empty());
    assert(copies(a.push(x), address, txid) =~= copies(a, address, txid));
}

/// One more answer is one more vote, if it confirms.
pub(crate) proof fn votes_of_push(
    a: Seq<AddressAnswer>,
    x: AddressAnswer,
    address: Seq<char>,
    txid: Seq<char>,
)
    ensures
        votes(a.push(x), address, txid) == votes(a, address, txid) + if confirms(x, address, txid) {
            1nat
        } else {
            0nat
        },
        votes(a, address, txid) <= a.len(),
{
    let p = |x: AddressAnswer| confirms(x, address, txid);
    a.lemma_filter_push(x, p);
    a.lemma_filter_len(p);
}

/// One more answer counts, if it is one.
pub(crate) proof fn answered_of_push(a: Seq<AddressAnswer>, x: AddressAnswer)
    ensures
        answered(a.push(x)) == answered(a) + if x.1 is Some {
            1nat
        } else {
            0nat
        },
        answered(a) <= a.len(),
{
    let p = |x: AddressAnswer| x.1 is Some;
    a.lemma_filter_push(x, p);
    a.lemma_filter_len(p);
}

/// One more transaction in an answer confirms itself, if it is confirmed.
proof fn confirms_of_push(
    base: Seq<char>,
    txs: Seq<AddressTxView>,
    tx: AddressTxView,
    address: Seq<char>,
    txid: Seq<char>,
)
    ensures
        confirms((base, Some(txs.push(tx))), address, txid) <==> (confirms(
            (base, Some(txs)),
            address,
            txid,
        ) || is_confirmation(tx, address, txid)),
{
    let x: AddressAnswer = (base, Some(txs));
    let y: AddressAnswer = (base, Some(txs.push(tx)));
    if confirms(x, address, txid) {
        let k = choose|k: int|
            0 <= k < (x.1->0).len() && is_confirmation(#[trigger] (x.1->0)[k], address, txid);
        assert((y.1->0)[k] == (x.1->0)[k]);
    }
    if is_confirmation(tx, address, txid) {
        assert((y.1->0)[txs.len() as int] == tx);
    }
    if confirms(y, address, txid) {
        let k = choose|k: int|
            0 <= k < (y.1->0).len() && is_confirmation(#[trigger] (y.1->0)[k], address, txid);
        if k < txs.len() {
            assert((y.1->0)[k] == (x.1->0)[k]);
        }
    }
}

/// Where `txid` stands, or belongs, among groups in the order of their txids.
fn place(groups: &Vec<Group>, txid: &str) -> (at: usize)
    requires
        forall|i: int, j: int|
            0 <= i < j < groups.len() ==> crate::text::precedes(
                (#[trigger] groups@[i]).txid@,
                (#[trigger] groups@[j]).txid@,
            ),
    ensures
        at <= groups.len(),
        forall|i: int|
            0 <= i < at ==> crate::text::precedes((#[trigger] groups@[i]).txid@, txid@),
        forall|i: int|
            at <= i < groups.len() ==> !crate::text::precedes(
                (#[trigger] groups@[i]).txid@,
                txid@,
            ),
{
    let mut lo: usize = 0;
    let mut hi: usize = groups.len();
    while lo < hi
        invariant
            lo <= hi <= groups.len(),
            forall|i: int, j: int|
                0 <= i < j < groups.len() ==> crate::text::precedes(
                    (#[trigger] groups@[i]).txid@,
                    (#[trigger] groups@[j]).txid@,
                ),
            forall|i: int|
                0 <= i < lo ==> crate::text::precedes((#[trigger] groups@[i]).txid@, txid@),
            forall|i: int|
                hi <= i < groups.len() ==> !crate::text::precedes(
                    (#[trigger] groups@[i]).txid@,
                    txid@,
                ),
        decreases hi - lo,
    {
        let mid: usize = lo + (hi - lo) / 2;
        let ghost pivot = groups@[mid as int].txid@;
        if comes_before(groups[mid].txid.as_str(), txid) {
            proof {
                assert forall|i: int| 0 <= i < mid + 1 implies crate::text::precedes(
                    (#[trigger] groups@[i]).txid@,
                    txid@,
                ) by {
                    if i < mid {
                        crate::text::precedes_transitive(groups@[i].txid@, pivot, txid@);
                    }
                }
            }
            lo = mid + 1;
        } else {
            proof {
                assert forall|i: int|
                    mid <= i < groups.len() implies !crate::text::precedes(
                    (#[trigger] groups@[i]).txid@,
                    txid@,
                ) by {
                    if i > mid && crate::text::precedes(groups@[i].txid@, txid@) {
                        crate::text::precedes_transitive(pivot, groups@[i].txid@, txid@);
                    }
                }
            }
            hi = mid;
        }
    }
    lo
}

/// What one more transaction in the last answer changes for `txid`.
proof fn filing(
    earlier: Seq<AddressAnswer>,
    base: Seq<char>,
    txs: Seq<AddressTxView>,
    tx: AddressTxView,
    address: Seq<char>,
    txid: Seq<char>,
)
    requires
        crate::types::pays(tx, address),
    ensures
        ({
            let before: Seq<AddressAnswer> = earlier.push((base, Some(txs)));
            let after: Seq<AddressAnswer> = earlier.push((base, Some(txs.push(tx))));
            let confirmed = tx.txid == txid && tx.status.confirmed;
            &&& copies(after, address, txid) == if tx.txid == txid {
                copies(before, address, txid).push((base, tx))
            } else {
                copies(before, address, txid)
            }
            &&& confirms(after.last(), address, txid) <==> (confirms(before.last(), address, txid)
                || confirmed)
            &&& votes(after, address, txid) == votes(before, address, txid) + if confirmed
                && !confirms(before.last(), address, txid) {
                1nat
            } else {
                0nat
            }
            &&& votes(after, address, txid) <= after.len()
            &&& copies(before, address, txid).len() == 0 ==> votes(before, address, txid) == 0
                && !confirms(before.last(), address, txid)
        }),
{
    let x: AddressAnswer = (base, Some(txs));
    let y: AddressAnswer = (base, Some(txs.push(tx)));
    copies_of_longer_answer(earlier, base, txs, tx, address, txid);
    votes_of_push(earlier, x, address, txid);
    votes_of_push(earlier, y, address, txid);
    confirms_of_push(base, txs, tx, address, txid);
    if copies(earlier.push(x), address, txid).len() == 0 {
        no_votes_without_copies(earlier.push(x), address, txid);
        assert(earlier.push(x).last() == x);
    }
}

/// Who confirms a transaction has listed it.
proof fn no_votes_without_copies(a: Seq<AddressAnswer>, address: Seq<char>, txid: Seq<char>)
    requires
        copies(a, address, txid).len() == 0,
    ensures
        votes(a, address, txid) == 0,
        a.len() > 0 ==> !confirms(a.last(), address, txid),
    decreases a.len(),
{
    let p = |x: AddressAnswer| confirms(x, address, txid);
    reveal(Seq::filter);
    if a.len() > 0 {
        let rest = a.drop_last();
        let x = a.last();
        assert(rest.push(x) =~= a);
        copies_of_push(rest, x, address, txid);
        votes_of_push(rest, x, address, txid);
        no_votes_without_copies(rest, address, txid);
        if confirms(x, address, txid) {
            confirmation_is_listed(x, address, txid);
        }
    }
}

/// An answer that confirms a transaction lists it.
proof fn confirmation_is_listed(x: AddressAnswer, address: Seq<char>, txid: Seq<char>)
    requires
        confirms(x, address, txid),
    ensures
        listed(x, address).filter(|c: Copied| c.1.txid == txid).len() > 0,
{
    let txs = x.1->0;
    let p = |tx: AddressTxView| crate::types::pays(tx, address);
    let q = |c: Copied| c.1.txid == txid;
    let k = choose|k: int|
        0 <= k < (x.1->0).len() && is_confirmation(#[trigger] (x.1->0)[k], address, txid);
    txs.lemma_filter_contains(p, k);
    let m = choose|m: int| 0 <= m < txs.filter(p).len() && txs.filter(p)[m] == txs[k];
    assert(listed(x, address)[m] == (x.0, txs[k]));
    listed(x, address).lemma_filter_contains(q, m);
    assert(listed(x, address).filter(q).contains((x.0, txs[k])));
}

/// Files one transaction that pays `address`, listed by the provider `base` in
/// the last of the answers.
fn file(
    groups: &mut Vec<Group>,
    base: &String,
    tx: AddressTx,
    number: usize,
    Ghost(earlier): Ghost<Seq<AddressAnswer>>,
    Ghost(txs): Ghost<Seq<AddressTxView>>,
    Ghost(address): Ghost<Seq<char>>,
)
    requires
        number == earlier.len() + 1,
        crate::types::pays(tx.deep_view(), address),
        grouped(old(groups)@, earlier.push((base@, Some(txs))), address),
        counted(old(groups)@, earlier.push((base@, Some(txs))), address),
    ensures
        grouped(final(groups)@, earlier.push((base@, Some(txs.push(tx.deep_view())))), address),
        counted(final(groups)@, earlier.push((base@, Some(txs.push(tx.deep_view())))), address),
{
    let ghost txv = tx.deep_view();
    let ghost before: Seq<AddressAnswer> = earlier.push((base@, Some(txs)));
    let ghost after: Seq<AddressAnswer> = earlier.push((base@, Some(txs.push(txv))));
    let ghost held = groups@;
    let at: usize = place(groups, tx.txid.as_str());
    let confirmed = tx.status.confirmed;
    if at < groups.len() && same_text(groups[at].txid.as_str(), tx.txid.as_str()) {
        let ghost g0 = groups@[at as int];
        proof {
            assert(is_group(g0, before, address));
            filing(earlier, base@, txs, txv, address, txv.txid);
        }
        let group = &mut groups[at];
        group.copies.push((base.clone(), tx));
        if confirmed && group.voter != number {
            group.votes = group.votes + 1;
            group.voter = number;
        }
        proof {
            let g = groups@[at as int];
            assert(groups@ =~= held.update(at as int, g));
            assert(g.copies.deep_view() =~= g0.copies.deep_view().push((base@, txv)));
            assert forall|i: int| 0 <= i < groups@.len() implies is_group(
                #[trigger] groups@[i],
                after,
                address,
            ) && groups@[i].voter <= after.len() && (groups@[i].voter == after.len() <==> confirms(
                after.last(),
                address,
                groups@[i].txid@,
            )) by {
                assert(is_group(held[i], before, address));
                filing(earlier, base@, txs, txv, address, held[i].txid@);
                crate::text::precedes_irreflexive(txv.txid);
                if i > at {
                    assert(crate::text::precedes(held[at as int].txid@, held[i].txid@));
                }
            }
            assert forall|t: Seq<char>| #[trigger] reported(after, address, t) implies exists|
                i: int,
            | 0 <= i < groups@.len() && (#[trigger] groups@[i]).txid@ == t by {
                filing(earlier, base@, txs, txv, address, t);
                if t == txv.txid {
                    assert(groups@[at as int].txid@ == t);
                } else {
                    assert(reported(before, address, t));
                    let i = choose|i: int| 0 <= i < held.len() && (#[trigger] held[i]).txid@ == t;
                    assert(groups@[i].txid@ == t);
                }
            }
        }
    } else {
        proof {
            let t = txv.txid;
            assert forall|i: int| at <= i < held.len() implies crate::text::precedes(
                t,
                (#[trigger] held[i]).txid@,
            ) by {
                crate::text::precedes_total(t, held[i].txid@);
                if i > at {
                    assert(crate::text::precedes(held[at as int].txid@, held[i].txid@));
                }
            }
            if reported(before, address, t) {
                let i = choose|i: int| 0 <= i < held.len() && (#[trigger] held[i]).txid@ == t;
                crate::text::precedes_irreflexive(t);
            }
            filing(earlier, base@, txs, txv, address, t);
        }
        let txid = tx.txid.clone();
        let mut only: Vec<(String, AddressTx)> = Vec::new();
        only.push((base.clone(), tx));
        let group = Group {
            txid,
            copies: only,
            votes: if confirmed {
                1
            } else {
                0
            },
            voter: if confirmed {
                number
            } else {
                0
            },
        };
        assert(group.copies.deep_view() =~= copies(before, address, txv.txid).push((base@, txv)));
        groups.insert(at, group);
        proof {
            assert(groups@ =~= held.insert(at as int, group));
            assert forall|i: int| 0 <= i < groups@.len() implies is_group(
                #[trigger] groups@[i],
                after,
                address,
            ) && groups@[i].voter <= after.len() && (groups@[i].voter == after.len() <==> confirms(
                after.last(),
                address,
                groups@[i].txid@,
            )) by {
                if i != at {
                    let k = if i < at {
                        i
                    } else {
                        i - 1
                    };
                    assert(groups@[i] == held[k]);
                    assert(is_group(held[k], before, address));
                    filing(earlier, base@, txs, txv, address, held[k].txid@);
                    crate::text::precedes_irreflexive(txv.txid);
                }
            }
            assert forall|t: Seq<char>| #[trigger] reported(after, address, t) implies exists|
                i: int,
            | 0 <= i < groups@.len() && (#[trigger] groups@[i]).txid@ == t by {
                filing(earlier, base@, txs, txv, address, t);
                if t == txv.txid {
                    assert(groups@[at as int].txid@ == t);
                } else {
                    assert(reported(before, address, t));
                    let k = choose|k: int| 0 <= k < held.len() && (#[trigger] held[k]).txid@ == t;
                    let i = if k < at {
                        k
                    } else {
                        k + 1
                    };
                    assert(groups@[i] == held[k]);
                }
            }
            assert forall|i: int, j: int| 0 <= i < j < groups@.len() implies crate::text::precedes(
                (#[trigger] groups@[i]).txid@,
                (#[trigger] groups@[j]).txid@,
            ) by {
                let ki = if i < at {
                    i
                } else {
                    i - 1
                };
                let kj = if j < at {
                    j
                } else {
                    j - 1
                };
                if i != at {
                    assert(groups@[i] == held[ki]);
                }
                if j != at {
                    assert(groups@[j] == held[kj]);
                }
            }
        }
    }
}

/// Every copy pays the address, and is of the transaction.
pub(crate) proof fn copies_pay(a: Seq<AddressAnswer>, address: Seq<char>, txid: Seq<char>)
    ensures
        forall|k: int|
            0 <= k < copies(a, address, txid).len() ==> crate::types::pays(
                (#[trigger] copies(a, address, txid)[k]).1,
                address,
            ) && copies(a, address, txid)[k].1.txid == txid,
{
    sightings_pay(a, address);
    let s = sightings(a, address);
    let q = |c: Copied| c.1.txid == txid;
    assert forall|k: int| 0 <= k < copies(a, address, txid).len() implies crate::types::pays(
        (#[trigger] copies(a, address, txid)[k]).1,
        address,
    ) && copies(a, address, txid)[k].1.txid == txid by {
        s.lemma_filter_pred(q, k);
        s.lemma_filter_contains_rev(q, s.filter(q)[k]);
    }
}

proof fn sightings_pay(a: Seq<AddressAnswer>, address: Seq<char>)
    ensures
        forall|k: int|
            0 <= k < sightings(a, address).len() ==> crate::types::pays(
                (#[trigger] sightings(a, address)[k]).1,
                address,
            ),
    decreases a.len(),
{
    if a.len() > 0 {
        sightings_pay(a.drop_last(), address);
        let x = a.last();
        let p = |tx: AddressTxView| crate::types::pays(tx, address);
        if x.1 is Some {
            assert forall|k: int| 0 <= k < listed(x, address).len() implies crate::types::pays(
                (#[trigger] listed(x, address)[k]).1,
                address,
            ) by {
                (x.1->0).lemma_filter_pred(p, k);
            }
        }
        let n = sightings(a.drop_last(), address).len();
        assert forall|k: int| 0 <= k < sightings(a, address).len() implies crate::types::pays(
            (#[trigger] sightings(a, address)[k]).1,
            address,
        ) by {
            if k < n {
                assert(sightings(a, address)[k] == sightings(a.drop_last(), address)[k]);
            } else {
                assert(sightings(a, address)[k] == listed(x, address)[k - n]);
            }
        }
    }
}

/// Gathers what the answers report, by transaction, with the number of
/// providers that answered.
fn gather(address: &str, answers: Vec<Answer<Vec<AddressTx>>>) -> (r: (usize, Vec<Group>))
    ensures
        r.0 == answered(answers.deep_view()),
        grouped(r.1@, answers.deep_view(), address@),
{
    let ghost a: Seq<AddressAnswer> = answers.deep_view();
    let mut heard: usize = 0;
    let mut groups: Vec<Group> = Vec::new();
    let mut number: usize = 0;
    let total: usize = answers.len();
    proof {
        reveal(Seq::filter);
        assert(a.take(0) =~= Seq::empty());
    }
    for answer in it: answers
        invariant
            it.seq() == answers@,
            number == it.index(),
            total == answers.len(),
            a == answers.deep_view(),
            heard == answered(a.take(number as int)),
            heard <= number,
            grouped(groups@, a.take(number as int), address@),
            forall|i: int| 0 <= i < groups.len() ==> (#[trigger] groups@[i]).voter <= number,
    {
        let ghost earlier = a.take(number as int);
        let ghost x = a[number as int];
        assert(x == answer.deep_view());
        assert(a.take(number + 1) =~= earlier.push(x));
        let (base, listing) = answer;
        number = number + 1;
        proof {
            answered_of_push(earlier, x);
        }
        match listing {
            None => {
                proof {
                    keeps_groups(groups@, earlier, x, address@);
                }
            },
            Some(txs) => {
                heard = heard + 1;
                let ghost all = txs.deep_view();
                let ghost blank: AddressAnswer = (base@, Some(Seq::<AddressTxView>::empty()));
                proof {
                    keeps_groups(groups@, earlier, blank, address@);
                    assert(all.take(0) =~= Seq::empty());
                    assert(counted(groups@, earlier.push(blank), address@)) by {
                        assert forall|i: int| 0 <= i < groups@.len() implies !confirms(
                            blank,
                            address@,
                            (#[trigger] groups@[i]).txid@,
                        ) by {
                            copies_of_blank_answer(earlier, blank, address@, groups@[i].txid@);
                        }
                    }
                }
                for tx in inner: txs
                    invariant
                        inner.seq() == txs@,
                        all == txs.deep_view(),
                        number == earlier.len() + 1,
                        grouped(
                            groups@,
                            earlier.push((base@, Some(all.take(inner.index())))),
                            address@,
                        ),
                        counted(
                            groups@,
                            earlier.push((base@, Some(all.take(inner.index())))),
                            address@,
                        ),
                {
                    let ghost seen = all.take(inner.index());
                    let ghost txv = tx.deep_view();
                    assert(txv == all[inner.index()]);
                    assert(all.take(inner.index() + 1) =~= seen.push(txv));
                    if tx.output_to(address).is_some() {
                        file(
                            &mut groups,
                            &base,
                            tx,
                            number,
                            Ghost(earlier),
                            Ghost(seen),
                            Ghost(address@),
                        );
                    } else {
                        proof {
                            passes_over(groups@, earlier, base@, seen, txv, address@);
                        }
                    }
                }
                assert(all.take(all.len() as int) =~= all);
                assert(x == (base@, Some(all)));
            },
        }
    }
    assert(a.take(a.len() as int) =~= a);
    (heard, groups)
}

/// An answer that lists nothing leaves the groups as they are.
proof fn keeps_groups(
    groups: Seq<Group>,
    a: Seq<AddressAnswer>,
    x: AddressAnswer,
    address: Seq<char>,
)
    requires
        grouped(groups, a, address),
        x.1 is None || x.1 == Some(Seq::<AddressTxView>::empty()),
    ensures
        grouped(groups, a.push(x), address),
{
    assert forall|i: int| 0 <= i < groups.len() implies is_group(
        #[trigger] groups[i],
        a.push(x),
        address,
    ) by {
        copies_of_blank_answer(a, x, address, groups[i].txid@);
        votes_of_push(a, x, address, groups[i].txid@);
    }
    assert forall|t: Seq<char>| #[trigger] reported(a.push(x), address, t) implies exists|i: int|
        0 <= i < groups.len() && (#[trigger] groups[i]).txid@ == t by {
        copies_of_blank_answer(a, x, address, t);
        assert(reported(a, address, t));
    }
}

/// A transaction that does not pay the address leaves the groups as they are.
proof fn passes_over(
    groups: Seq<Group>,
    earlier: Seq<AddressAnswer>,
    base: Seq<char>,
    txs: Seq<AddressTxView>,
    tx: AddressTxView,
    address: Seq<char>,
)
    requires
        !crate::types::pays(tx, address),
        grouped(groups, earlier.push((base, Some(txs))), address),
        counted(groups, earlier.push((base, Some(txs))), address),
    ensures
        grouped(groups, earlier.push((base, Some(txs.push(tx)))), address),
        counted(groups, earlier.push((base, Some(txs.push(tx)))), address),
{
    let x: AddressAnswer = (base, Some(txs));
    let y: AddressAnswer = (base, Some(txs.push(tx)));
    let before = earlier.push(x);
    let after = earlier.push(y);
    assert forall|i: int| 0 <= i < groups.len() implies is_group(#[trigger] groups[i], after, address)
        && (confirms(after.last(), address, groups[i].txid@) <==> confirms(
        before.last(),
        address,
        groups[i].txid@,
    )) by {
        assert(is_group(groups[i], before, address));
        let t = groups[i].txid@;
        copies_of_longer_answer(earlier, base, txs, tx, address, t);
        votes_of_push(earlier, x, address, t);
        votes_of_push(earlier, y, address, t);
        confirms_of_push(base, txs, tx, address, t);
    }
    assert forall|t: Seq<char>| #[trigger] reported(after, address, t) implies exists|i: int|
        0 <= i < groups.len() && (#[trigger] groups[i]).txid@ == t by {
        copies_of_longer_answer(earlier, base, txs, tx, address, t);
        assert(reported(before, address, t));
    }
}

/// The first copy that says of confirmation what `confirmed` says, or the first
/// one.
fn kept(copies: &Vec<(String, AddressTx)>, confirmed: bool) -> (k: usize)
    requires
        copies.len() > 0,
    ensures
        is_kept(copies.deep_view(), confirmed, k as int),
{
    let ghost c = copies.deep_view();
    let mut k: usize = 0;
    while k < copies.len()
        invariant
            k <= copies.len(),
            c == copies.deep_view(),
            forall|j: int| 0 <= j < k ==> (#[trigger] c[j]).1.status.confirmed != confirmed,
        decreases copies.len() - k,
    {
        assert(c[k as int] == copies@[k as int].deep_view());
        if copies[k].1.status.confirmed == confirmed {
            return k;
        }
        k = k + 1;
    }
    0
}

/// What output `v` of `tx` pays `address`, where there is one that does.
fn output_value(tx: &AddressTx, address: &str, v: usize) -> (r: Option<u64>)
    ensures
        r == crate::types::paid_by_output(tx.deep_view(), address@, v as int),
{
    if v < tx.vout.len() {
        let out = &tx.vout[v];
        assert(tx.deep_view().vout[v as int] == out.deep_view());
        if let Some(to) = &out.scriptpubkey_address {
            if same_text(to.as_str(), address) {
                return Some(out.value);
            }
        }
    }
    None
}

/// The first of the copies before `j` that names a value for output `v`, with
/// the value.
fn first_named(
    copies: &Vec<(String, AddressTx)>,
    address: &str,
    v: usize,
    j: usize,
) -> (r: Option<(usize, u64)>)
    requires
        j <= copies.len(),
    ensures
        match r {
            Some((i, value)) => {
                &&& i < j
                &&& crate::types::paid_by_output(
                    copies.deep_view()[i as int].1,
                    address@,
                    v as int,
                ) == Some(value)
                &&& forall|m: int|
                    0 <= m < i ==> crate::types::paid_by_output(
                        (#[trigger] copies.deep_view()[m]).1,
                        address@,
                        v as int,
                    ) is None
            },
            None => forall|m: int|
                0 <= m < j ==> crate::types::paid_by_output(
                    (#[trigger] copies.deep_view()[m]).1,
                    address@,
                    v as int,
                ) is None,
        },
{
    let ghost c = copies.deep_view();
    let mut i: usize = 0;
    while i < j
        invariant
            i <= j <= copies.len(),
            c == copies.deep_view(),
            forall|m: int|
                0 <= m < i ==> crate::types::paid_by_output(
                    (#[trigger] c[m]).1,
                    address@,
                    v as int,
                ) is None,
        decreases j - i,
    {
        assert(c[i as int] == copies@[i as int].deep_view());
        if let Some(value) = output_value(&copies[i].1, address, v) {
            return Some((i, value));
        }
        i = i + 1;
    }
    None
}

/// Where copy `j` first contradicts an earlier copy on the value of an output to
/// `address`: that copy, its value, and the value that copy `j` names.
fn clashing_output(
    copies: &Vec<(String, AddressTx)>,
    address: &str,
    j: usize,
) -> (r: Option<(usize, u64, u64)>)
    requires
        j < copies.len(),
        outputs_agree_up_to(copies.deep_view(), address@, j as int),
    ensures
        match r {
            Some((i, theirs, own)) => i < j && exists|v: int| #[trigger]
                output_clash(copies.deep_view(), address@, v, i as int, j as int)
                    && crate::types::paid_by_output(
                    copies.deep_view()[i as int].1,
                    address@,
                    v,
                ) == Some(theirs) && crate::types::paid_by_output(
                    copies.deep_view()[j as int].1,
                    address@,
                    v,
                ) == Some(own),
            None => outputs_agree_up_to(copies.deep_view(), address@, j + 1),
        },
{
    let ghost c = copies.deep_view();
    let outputs: usize = copies[j].1.vout.len();
    let mut v: usize = 0;
    assert(c[j as int] == copies@[j as int].deep_view());
    assert(c[j as int].1.vout.len() == outputs);
    proof {
        assert forall|w: int| w < 0 implies agreement::agree_up_to(
            c,
            #[trigger] output_point(address@, w),
            j + 1,
        ) by {
            agreement::silent_item_agrees(c, output_point(address@, w), j as int);
        }
    }
    while v < outputs
        invariant
            v <= outputs,
            j < copies.len(),
            c == copies.deep_view(),
            c[j as int] == copies@[j as int].deep_view(),
            c[j as int].1.vout.len() == outputs,
            outputs_agree_up_to(c, address@, j as int),
            forall|w: int|
                w < v ==> agreement::agree_up_to(c, #[trigger] output_point(address@, w), j + 1),
        decreases outputs - v,
    {
        let ghost point = output_point(address@, v as int);
        assert(agreement::agree_up_to(c, point, j as int));
        match output_value(&copies[j].1, address, v) {
            Some(own) => {
                match first_named(copies, address, v, j) {
                    Some((i, theirs)) => {
                        if theirs != own {
                            assert(output_clash(c, address@, v as int, i as int, j as int));
                            return Some((i, theirs, own));
                        }
                        assert(agreement::agree_up_to(c, point, j + 1)) by {
                            agreement::echo_agrees(c, point, i as int, j as int);
                        }
                    },
                    None => {
                        assert(agreement::agree_up_to(c, point, j + 1));
                    },
                }
            },
            None => {
                proof {
                    agreement::silent_item_agrees(c, point, j as int);
                }
            },
        }
        v = v + 1;
    }
    proof {
        assert forall|w: int| agreement::agree_up_to(
            c,
            #[trigger] output_point(address@, w),
            j + 1,
        ) by {
            if w >= outputs {
                agreement::silent_item_agrees(c, output_point(address@, w), j as int);
            }
        }
    }
    None
}

/// Settles one transaction: fails where its copies contradict each other, and
/// otherwise gives the one that is kept.
fn settle(address: &str, group: Group, answered: usize) -> (r: Result<AddressTx, Error>)
    requires
        group.copies.len() > 0,
        group.votes <= answered,
        forall|k: int|
            0 <= k < group.copies.len() ==> crate::types::pays(
                (#[trigger] group.copies.deep_view()[k]).1,
                address@,
            ),
    ensures
        match r {
            Ok(tx) => !disputed(group.copies.deep_view(), address@) && settles(
                group.copies.deep_view(),
                2 * group.votes > answered,
                tx.deep_view(),
            ),
            Err(e) => tells_dispute(group.txid@, address@, group.copies.deep_view(), e@),
        },
{
    let ghost c = group.copies.deep_view();
    let ghost bp = block_point();
    let ghost vp = value_point(address@);
    let mut located: Option<(usize, u64)> = None;
    let mut value: u64 = 0;
    let mut j: usize = 0;
    while j < group.copies.len()
        invariant
            j <= group.copies.len(),
            c == group.copies.deep_view(),
            bp == block_point(),
            vp == value_point(address@),
            forall|k: int|
                0 <= k < c.len() ==> crate::types::pays((#[trigger] c[k]).1, address@),
            consistent(c, address@, j as int),
            j > 0 ==> value == crate::types::paid(c[0].1, address@),
            match located {
                Some((i, h)) => {
                    &&& i < j
                    &&& block_of(c[i as int]) == Some(h)
                    &&& forall|m: int| 0 <= m < i ==> block_of(#[trigger] c[m]) is None
                },
                None => forall|m: int| 0 <= m < j ==> block_of(#[trigger] c[m]) is None,
            },
        decreases group.copies.len() - j,
    {
        let tx = &group.copies[j].1;
        assert(c[j as int] == group.copies@[j as int].deep_view());
        if tx.status.confirmed {
            if let Some(h) = tx.status.block_height {
                match located {
                    Some((i, prev)) => {
                        assert(c[i as int] == group.copies@[i as int].deep_view());
                        if prev != h {
                            assert(block_dispute(c, address@, i as int, j as int));
                            return Err(
                                Error::HeightDisagreement {
                                    txid: group.txid.clone(),
                                    a: group.copies[i].0.clone(),
                                    a_height: prev,
                                    b: group.copies[j].0.clone(),
                                    b_height: h,
                                },
                            );
                        }
                    },
                    None => {
                        located = Some((j, h));
                    },
                }
            }
        }
        assert(agreement::agree_up_to(c, bp, j + 1));
        if let Some((_, out)) = tx.output_to(address) {
            if j == 0 {
                value = out.value;
            } else if value != out.value {
                assert(c[0] == group.copies@[0].deep_view());
                assert(value_dispute(c, address@, j as int));
                return Err(
                    Error::ValueDisagreement {
                        txid: group.txid.clone(),
                        address: address.to_owned(),
                        a: group.copies[0].0.clone(),
                        a_value: value,
                        b: group.copies[j].0.clone(),
                        b_value: out.value,
                    },
                );
            }
        }
        assert(agreement::agree_up_to(c, vp, j + 1));
        if let Some((i, theirs, own)) = clashing_output(&group.copies, address, j) {
            proof {
                let v = choose|v: int| #[trigger]
                    output_clash(c, address@, v, i as int, j as int)
                        && crate::types::paid_by_output(c[i as int].1, address@, v) == Some(theirs)
                        && crate::types::paid_by_output(c[j as int].1, address@, v) == Some(own);
                assert(c[i as int] == group.copies@[i as int].deep_view());
                assert(output_dispute(c, address@, v, i as int, j as int));
            }
            return Err(
                Error::ValueDisagreement {
                    txid: group.txid.clone(),
                    address: address.to_owned(),
                    a: group.copies[i].0.clone(),
                    a_value: theirs,
                    b: group.copies[j].0.clone(),
                    b_value: own,
                },
            );
        }
        j = j + 1;
    }
    let confirmed = group.votes > answered - group.votes;
    let mut copies = group.copies;
    let k: usize = kept(&copies, confirmed);
    assert(c[k as int] == copies@[k as int].deep_view());
    let (_, mut chosen) = copies.swap_remove(k);
    if !confirmed {
        chosen.status = TxStatus {
            confirmed: false,
            block_height: None,
            block_hash: None,
            block_time: None,
        };
    }
    Ok(chosen)
}

/// Reconcile `/address/:addr/txs` across providers.
///
/// # Two rules, because the two mistakes do not cost the same
///
/// A watcher built on this tells somebody whether their money arrived. Saying
/// "confirmed" when it is not is worse than saying "not yet" when it is: the
/// first ends the user's attention, the second only prolongs it. So existence
/// and confirmation are reconciled differently.
///
/// **Existence is a union.** Any provider reporting a transaction that pays the
/// address is enough for it to appear here. A provider that has not seen a
/// mempool transaction yet is behind, not authoritative, and waiting for
/// agreement would mean the slowest provider setting the pace for every
/// deposit.
///
/// **Confirmation is a majority.** A transaction is returned confirmed only if
/// more than half of the providers that ANSWERED say it is. Otherwise it is
/// downgraded to seen-but-unconfirmed: the deposit still shows up, it just does
/// not yet carry the claim that ends the user's attention. A provider that
/// lists a transaction more than once still has one vote.
///
/// With a single provider a majority is whatever it says.
/// [`crate::policy::quorum_warning`] is what tells an operator they are in that
/// position.
///
/// # What is an error rather than a downgrade
///
/// Two confirmed answers naming different block heights, or any two answers
/// naming different values for the same output. Neither is lag: a transaction's
/// height and its outputs are fixed once it is mined. One provider is wrong
/// about money, and the caller must not pick a side.
///
/// The same output is the one at the same index, where both say that it pays
/// the address. So is the first that pays it, at whatever index: that is the
/// deposit.
pub fn reconcile_address_txs(
    address: &str,
    answers: Vec<Answer<Vec<AddressTx>>>,
) -> (r: Result<Vec<AddressTx>, Error>)
    ensures
        address_verdict(
            address@,
            answers.deep_view(),
            crate::error::outcome(r),
        ),
{
    let ghost a: Seq<AddressAnswer> = answers.deep_view();
    let (heard, groups) = gather(address, answers);
    let ghost held = groups@;
    let mut out: Vec<AddressTx> = Vec::new();
    for group in it: groups
        invariant
            it.seq() == held,
            a == answers.deep_view(),
            grouped(held, a, address@),
            heard == answered(a),
            out.len() == it.index(),
            forall|i: int|
                0 <= i < it.index() ==> is_settled(a, address@, #[trigger] out.deep_view()[i])
                    && out.deep_view()[i].txid == held[i].txid@,
    {
        let ghost n = it.index();
        let ghost t = group.txid@;
        let ghost before = out.deep_view();
        proof {
            assert(is_group(held[n], a, address@));
            copies_pay(a, address@, t);
            voters_answered(a, address@, t);
            assert(group.copies.deep_view().len() == group.copies.len());
        }
        match settle(address, group, heard) {
            Ok(tx) => {
                proof {
                    let c = copies(a, address@, t);
                    let k = choose|k: int| #[trigger]
                        is_kept(c, majority(a, address@, t), k) && tx.deep_view() == if majority(
                            a,
                            address@,
                            t,
                        ) {
                            c[k].1
                        } else {
                            AddressTxView { status: unclaimed(), ..c[k].1 }
                        };
                    assert(tx.deep_view().txid == t);
                }
                out.push(tx);
                assert(out.deep_view() =~= before.push(tx.deep_view()));
            },
            Err(e) => {
                proof {
                    assert forall|u: Seq<char>| #[trigger]
                        reported(a, address@, u) && crate::text::precedes(
                            u,
                            t,
                        ) implies !disputed(copies(a, address@, u), address@) by {
                        let i = choose|i: int|
                            0 <= i < held.len() && (#[trigger] held[i]).txid@ == u;
                        crate::text::precedes_irreflexive(t);
                        if i > n {
                            assert(crate::text::precedes(held[n].txid@, held[i].txid@));
                            crate::text::precedes_transitive(t, u, t);
                        }
                        assert(is_settled(a, address@, before[i]));
                    }
                    assert(is_first_disputed(a, address@, t)) by {
                        told_is_disputed(t, address@, copies(a, address@, t), e@);
                    }
                }
                return Err(e);
            },
        }
    }
    proof {
        assert forall|t: Seq<char>| #[trigger] reported(a, address@, t) implies exists|i: int|
            0 <= i < out.deep_view().len() && (#[trigger] out.deep_view()[i]).txid == t by {
            let i = choose|i: int| 0 <= i < held.len() && (#[trigger] held[i]).txid@ == t;
            assert(out.deep_view()[i].txid == t);
        }
        assert forall|i: int, j: int|
            0 <= i < j < out.deep_view().len() implies crate::text::precedes(
            (#[trigger] out.deep_view()[i]).txid,
            (#[trigger] out.deep_view()[j]).txid,
        ) by {
            assert(crate::text::precedes(held[i].txid@, held[j].txid@));
        }
    }
    Ok(out)
}

/// A dispute that an error tells is one.
proof fn told_is_disputed(txid: Seq<char>, address: Seq<char>, c: Seq<Copied>, e: ErrorView)
    requires
        tells_dispute(txid, address, c, e),
    ensures
        disputed(c, address),
{
}

/// Who votes has answered.
pub(crate) proof fn voters_answered(a: Seq<AddressAnswer>, address: Seq<char>, txid: Seq<char>)
    ensures
        votes(a, address, txid) <= answered(a),
    decreases a.len(),
{
    reveal(Seq::filter);
    if a.len() > 0 {
        let rest = a.drop_last();
        assert(rest.push(a.last()) =~= a);
        votes_of_push(rest, a.last(), address, txid);
        answered_of_push(rest, a.last());
        voters_answered(rest, address, txid);
    }
}

} // verus!
