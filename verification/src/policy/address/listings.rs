//! What reconciling an address's transactions promises, over the outputs and
//! statuses that the providers list.

use vstd::prelude::*;

use crate::error::ErrorView;
use crate::policy::address::{AddressAnswer, Copied};
use crate::types::AddressTxView;
#[allow(unused_imports)]
use crate::policy::address::laws;
#[allow(unused_imports)]
use crate::policy::{address, agreement};
#[allow(unused_imports)]
use crate::types;

verus! {

/// Answer `p` lists a `k`th transaction.
pub open spec fn is_listing(a: Seq<AddressAnswer>, p: int, k: int) -> bool {
    0 <= p < a.len() && a[p].1 is Some && 0 <= k < (a[p].1->0).len()
}

/// The `k`th transaction that answer `p` lists.
pub open spec fn listing(a: Seq<AddressAnswer>, p: int, k: int) -> AddressTxView {
    (a[p].1->0)[k]
}

/// Output `v` of the transaction is there, and pays `address`.
pub open spec fn output_pays(tx: AddressTxView, address: Seq<char>, v: int) -> bool {
    0 <= v < tx.vout.len() && tx.vout[v].scriptpubkey_address == Some(address)
}

/// A deposit is reported whichever output it is: a txid is returned exactly when
/// some provider lists a transaction of that txid with an output to the address,
/// at any index whatever.
pub proof fn any_output_is_reported(
    address: Seq<char>,
    a: Seq<AddressAnswer>,
    out: Seq<AddressTxView>,
    txid: Seq<char>,
)
    requires
        address::address_verdict(address, a, Ok(out)),
    ensures
        (exists|i: int| 0 <= i < out.len() && (#[trigger] out[i]).txid == txid) <==> (exists|
            p: int,
            k: int,
            v: int,
        |
            {
                &&& 0 <= p < a.len()
                &&& a[p].1 is Some
                &&& 0 <= k < (a[p].1->0).len()
                &&& (a[p].1->0)[k].txid == txid
                &&& 0 <= v < (a[p].1->0)[k].vout.len()
                &&& (#[trigger] (a[p].1->0)[k].vout[v]).scriptpubkey_address == Some(address)
            }),
{
    laws::existence_is_a_union(address, a, out, txid);
    if exists|i: int| 0 <= i < out.len() && (#[trigger] out[i]).txid == txid {
        let (p, k) = choose|p: int, k: int| #[trigger] laws::lists(a, address, txid, p, k);
        let tx = (a[p].1->0)[k];
        types::laws::any_output_pays(tx, address);
        let v = choose|v: int|
            0 <= v < tx.vout.len() && (#[trigger] tx.vout[v]).scriptpubkey_address == Some(address);
        assert((a[p].1->0)[k].vout[v].scriptpubkey_address == Some(address));
    }
    if exists|p: int, k: int, v: int|
        {
            &&& 0 <= p < a.len()
            &&& a[p].1 is Some
            &&& 0 <= k < (a[p].1->0).len()
            &&& (a[p].1->0)[k].txid == txid
            &&& 0 <= v < (a[p].1->0)[k].vout.len()
            &&& (#[trigger] (a[p].1->0)[k].vout[v]).scriptpubkey_address == Some(address)
        } {
        let (p, k, v) = choose|p: int, k: int, v: int|
            {
                &&& 0 <= p < a.len()
                &&& a[p].1 is Some
                &&& 0 <= k < (a[p].1->0).len()
                &&& (a[p].1->0)[k].txid == txid
                &&& 0 <= v < (a[p].1->0)[k].vout.len()
                &&& (#[trigger] (a[p].1->0)[k].vout[v]).scriptpubkey_address == Some(address)
            };
        listing_with_output(a, address, txid, p, k, v);
    }
}

proof fn listing_with_output(
    a: Seq<AddressAnswer>,
    address: Seq<char>,
    txid: Seq<char>,
    p: int,
    k: int,
    v: int,
)
    requires
        is_listing(a, p, k),
        listing(a, p, k).txid == txid,
        output_pays(listing(a, p, k), address, v),
    ensures
        laws::lists(a, address, txid, p, k),
{
    let tx = (a[p].1->0)[k];
    assert(tx.vout[v].scriptpubkey_address == Some(address));
    types::laws::any_output_pays(tx, address);
}

/// Confirmation is a majority of the providers that answered, one vote each: a
/// provider votes for it by listing the transaction confirmed, with an output to
/// the address.
pub proof fn more_than_half_confirm(
    address: Seq<char>,
    a: Seq<AddressAnswer>,
    out: Seq<AddressTxView>,
    i: int,
)
    requires
        address::address_verdict(address, a, Ok(out)),
        0 <= i < out.len(),
    ensures
        out[i].status.confirmed <==> 2 * a.filter(
            |x: AddressAnswer|
                x.1 is Some && exists|k: int, v: int|
                    {
                        &&& 0 <= k < (x.1->0).len()
                        &&& (x.1->0)[k].txid == out[i].txid
                        &&& (x.1->0)[k].status.confirmed
                        &&& 0 <= v < (x.1->0)[k].vout.len()
                        &&& (#[trigger] (x.1->0)[k].vout[v]).scriptpubkey_address == Some(address)
                    },
        ).len() > a.filter(|x: AddressAnswer| x.1 is Some).len(),
{
    let txid = out[i].txid;
    let raw = |x: AddressAnswer|
        x.1 is Some && exists|k: int, v: int|
            {
                &&& 0 <= k < (x.1->0).len()
                &&& (x.1->0)[k].txid == out[i].txid
                &&& (x.1->0)[k].status.confirmed
                &&& 0 <= v < (x.1->0)[k].vout.len()
                &&& (#[trigger] (x.1->0)[k].vout[v]).scriptpubkey_address == Some(address)
            };
    let says = |x: AddressAnswer| address::confirms(x, address, txid);
    laws::confirmation_is_a_majority(address, a, out, i);
    assert forall|x: AddressAnswer| #[trigger] raw(x) == says(x) by {
        if says(x) {
            let k = choose|k: int|
                0 <= k < (x.1->0).len() && address::is_confirmation(
                    #[trigger] (x.1->0)[k],
                    address,
                    txid,
                );
            let tx = (x.1->0)[k];
            types::laws::any_output_pays(tx, address);
            let v = choose|v: int|
                0 <= v < tx.vout.len() && (#[trigger] tx.vout[v]).scriptpubkey_address == Some(
                    address,
                );
            assert((x.1->0)[k].vout[v].scriptpubkey_address == Some(address));
        }
        if raw(x) {
            let (k, v) = choose|k: int, v: int|
                {
                    &&& 0 <= k < (x.1->0).len()
                    &&& (x.1->0)[k].txid == out[i].txid
                    &&& (x.1->0)[k].status.confirmed
                    &&& 0 <= v < (x.1->0)[k].vout.len()
                    &&& (#[trigger] (x.1->0)[k].vout[v]).scriptpubkey_address == Some(address)
                };
            let tx = (x.1->0)[k];
            assert(tx.vout[v].scriptpubkey_address == Some(address));
            types::laws::any_output_pays(tx, address);
            assert(address::is_confirmation((x.1->0)[k], address, txid));
        }
    }
    assert(raw =~= says);
}

/// What is not confirmed by the majority claims nothing: not confirmed, no
/// height, no block, no time.
pub proof fn a_downgrade_claims_nothing(
    address: Seq<char>,
    a: Seq<AddressAnswer>,
    out: Seq<AddressTxView>,
    i: int,
)
    requires
        address::address_verdict(address, a, Ok(out)),
        0 <= i < out.len(),
        !out[i].status.confirmed,
    ensures
        out[i].status.block_height is None,
        out[i].status.block_hash is None,
        out[i].status.block_time is None,
{
    laws::confirmation_is_a_majority(address, a, out, i);
}

/// The transactions are returned in the order of their txids, each once.
pub proof fn returned_in_order(
    address: Seq<char>,
    a: Seq<AddressAnswer>,
    out: Seq<AddressTxView>,
    i: int,
    j: int,
)
    requires
        address::address_verdict(address, a, Ok(out)),
        0 <= i < j < out.len(),
    ensures
        crate::text::precedes(out[i].txid, out[j].txid),
        out[i].txid != out[j].txid,
{
    crate::text::precedes_irreflexive(out[i].txid);
}

/// How many copies come before the `k`th transaction of answer `p`.
spec fn place(
    a: Seq<AddressAnswer>,
    address: Seq<char>,
    txid: Seq<char>,
    p: int,
    k: int,
) -> int {
    address::copies(
        a.take(p).push((a[p].0, Some((a[p].1->0).take(k)))),
        address,
        txid,
    ).len() as int
}

/// One more answer, or one more transaction in the last, only adds copies behind
/// those there are.
proof fn copies_only_grow(
    a: Seq<AddressAnswer>,
    address: Seq<char>,
    txid: Seq<char>,
    n: int,
)
    requires
        0 <= n <= a.len(),
    ensures
        address::copies(a.take(n), address, txid).is_prefix_of(address::copies(a, address, txid)),
    decreases a.len() - n,
{
    if n == a.len() {
        assert(a.take(n) =~= a);
    } else {
        copies_only_grow(a, address, txid, n + 1);
        assert(a.take(n + 1) =~= a.take(n).push(a[n]));
        address::copies_of_push(a.take(n), a[n], address, txid);
        assert(address::copies(a.take(n), address, txid).is_prefix_of(
            address::copies(a.take(n + 1), address, txid),
        ));
    }
}

proof fn listing_only_grows(
    earlier: Seq<AddressAnswer>,
    base: Seq<char>,
    txs: Seq<AddressTxView>,
    address: Seq<char>,
    txid: Seq<char>,
    n: int,
)
    requires
        0 <= n <= txs.len(),
    ensures
        address::copies(earlier.push((base, Some(txs.take(n)))), address, txid).is_prefix_of(
            address::copies(earlier.push((base, Some(txs))), address, txid),
        ),
    decreases txs.len() - n,
{
    if n == txs.len() {
        assert(txs.take(n) =~= txs);
    } else {
        listing_only_grows(earlier, base, txs, address, txid, n + 1);
        assert(txs.take(n + 1) =~= txs.take(n).push(txs[n]));
        address::copies_of_longer_answer(earlier, base, txs.take(n), txs[n], address, txid);
    }
}

/// What a provider lists is the copy at its place, and later listings come
/// later.
proof fn listing_stands_at_its_place(
    a: Seq<AddressAnswer>,
    address: Seq<char>,
    txid: Seq<char>,
    p: int,
    k: int,
)
    requires
        laws::lists(a, address, txid, p, k),
    ensures
        place(a, address, txid, p, k) < address::copies(a, address, txid).len(),
        address::copies(a, address, txid)[place(a, address, txid, p, k)] == (
            a[p].0,
            (a[p].1->0)[k],
        ),
        place(a, address, txid, p, k + 1) == place(a, address, txid, p, k) + 1,
{
    let earlier = a.take(p);
    let base = a[p].0;
    let txs = a[p].1->0;
    assert(txs.take(k + 1) =~= txs.take(k).push(txs[k]));
    address::copies_of_longer_answer(earlier, base, txs.take(k), txs[k], address, txid);
    listing_only_grows(earlier, base, txs, address, txid, k + 1);
    assert(a.take(p + 1) =~= earlier.push((base, Some(txs))));
    copies_only_grow(a, address, txid, p + 1);
    let i = place(a, address, txid, p, k);
    let head = address::copies(earlier.push((base, Some(txs.take(k + 1)))), address, txid);
    let part = address::copies(a.take(p + 1), address, txid);
    let all = address::copies(a, address, txid);
    assert(head[i] == (base, txs[k]));
    assert(head[i] == part.subrange(0, head.len() as int)[i]);
    assert(part[i] == all.subrange(0, part.len() as int)[i]);
}

/// An earlier listing of the transaction has an earlier place.
proof fn earlier_listing_earlier_place(
    a: Seq<AddressAnswer>,
    address: Seq<char>,
    txid: Seq<char>,
    p: int,
    k: int,
    q: int,
    l: int,
)
    requires
        laws::lists(a, address, txid, p, k),
        laws::lists(a, address, txid, q, l),
        p < q || (p == q && k < l),
    ensures
        place(a, address, txid, p, k) < place(a, address, txid, q, l),
{
    listing_stands_at_its_place(a, address, txid, p, k);
    let txs = a[p].1->0;
    if p == q {
        let upto = (a[p].1->0).take(l);
        listing_only_grows(a.take(p), a[p].0, upto, address, txid, k + 1);
        assert(upto.take(k + 1) =~= txs.take(k + 1));
    } else {
        listing_only_grows(a.take(p), a[p].0, txs, address, txid, k + 1);
        assert(a.take(p + 1) =~= a.take(p).push((a[p].0, Some(txs))));
        copies_only_grow(a.take(q), address, txid, p + 1);
        assert(a.take(q).take(p + 1) =~= a.take(p + 1));
        let head: AddressAnswer = (a[q].0, Some((a[q].1->0).take(l)));
        address::copies_of_push(a.take(q), head, address, txid);
    }
}

/// Every copy is a listing, at its place.
proof fn copy_is_listed_at_its_place(
    a: Seq<AddressAnswer>,
    address: Seq<char>,
    txid: Seq<char>,
    c: int,
) -> (r: (int, int))
    requires
        0 <= c < address::copies(a, address, txid).len(),
    ensures
        laws::lists(a, address, txid, r.0, r.1),
        place(a, address, txid, r.0, r.1) == c,
    decreases a.len(),
{
    if a.len() == 0 {
        reveal(Seq::filter);
        assert(address::copies(a, address, txid).len() == 0);
        (0, 0)
    } else {
        let n = a.len() - 1;
        let rest = a.drop_last();
        let last = a[n];
        assert(rest.push(last) =~= a);
        assert(a.take(n) =~= rest);
        if c < address::copies(rest, address, txid).len() {
            let (p, k) = copy_is_listed_at_its_place(rest, address, txid, c);
            assert(rest[p] == a[p]);
            assert(rest.take(p) =~= a.take(p));
            (p, k)
        } else {
            address::copies_of_push(rest, last, address, txid);
            if last.1 is None {
                address::copies_of_blank_answer(rest, last, address, txid);
                (0, 0)
            } else {
                let txs = last.1->0;
                assert(txs.take(txs.len() as int) =~= txs);
                let k = copy_in_last_answer(rest, last.0, txs, address, txid, c, txs.len() as int);
                (n, k)
            }
        }
    }
}

proof fn copy_in_last_answer(
    rest: Seq<AddressAnswer>,
    base: Seq<char>,
    txs: Seq<AddressTxView>,
    address: Seq<char>,
    txid: Seq<char>,
    c: int,
    n: int,
) -> (k: int)
    requires
        0 <= n <= txs.len(),
        address::copies(rest, address, txid).len() <= c < address::copies(
            rest.push((base, Some(txs.take(n)))),
            address,
            txid,
        ).len(),
    ensures
        0 <= k < n,
        txs[k].txid == txid,
        types::pays(txs[k], address),
        address::copies(rest.push((base, Some(txs.take(k)))), address, txid).len() == c,
    decreases n,
{
    if n == 0 {
        assert(txs.take(0) =~= Seq::empty());
        address::copies_of_blank_answer(rest, (base, Some(txs.take(0))), address, txid);
        0
    } else {
        assert(txs.take(n) =~= txs.take(n - 1).push(txs[n - 1]));
        address::copies_of_longer_answer(rest, base, txs.take(n - 1), txs[n - 1], address, txid);
        if c < address::copies(rest.push((base, Some(txs.take(n - 1)))), address, txid).len() {
            copy_in_last_answer(rest, base, txs, address, txid, c, n - 1)
        } else {
            n - 1
        }
    }
}

/// What is returned is what a provider lists, with all its outputs. Where it is
/// confirmed it is the first listing that says so, whole; otherwise it is the
/// first that does not say so, or the first of all, without a claim.
pub proof fn the_first_listing_is_returned_whole(
    address: Seq<char>,
    a: Seq<AddressAnswer>,
    out: Seq<AddressTxView>,
    i: int,
) -> (r: (int, int))
    requires
        address::address_verdict(address, a, Ok(out)),
        0 <= i < out.len(),
    ensures
        0 <= r.0 < a.len(),
        a[r.0].1 is Some,
        0 <= r.1 < (a[r.0].1->0).len(),
        exists|v: int| #[trigger] output_pays((a[r.0].1->0)[r.1], address, v),
        (a[r.0].1->0)[r.1].txid == out[i].txid,
        (a[r.0].1->0)[r.1].vout == out[i].vout,
        out[i].status.confirmed ==> (a[r.0].1->0)[r.1] == out[i],
        forall|q: int, l: int, v: int|
            {
                &&& #[trigger] is_listing(a, q, l)
                &&& (q < r.0 || (q == r.0 && l < r.1))
                &&& (a[q].1->0)[l].txid == out[i].txid
                &&& #[trigger] output_pays((a[q].1->0)[l], address, v)
            } ==> (a[q].1->0)[l].status.confirmed != out[i].status.confirmed,
        (a[r.0].1->0)[r.1].status.confirmed != out[i].status.confirmed ==> forall|
            q: int,
            l: int,
            v: int,
        |
            {
                &&& #[trigger] is_listing(a, q, l)
                &&& (a[q].1->0)[l].txid == out[i].txid
                &&& #[trigger] output_pays((a[q].1->0)[l], address, v)
            } ==> (a[q].1->0)[l].status.confirmed && !(q < r.0 || (q == r.0 && l < r.1)),
{
    let txid = out[i].txid;
    let c = address::copies(a, address, txid);
    let m = address::majority(a, address, txid);
    laws::confirmation_is_a_majority(address, a, out, i);
    assert(address::is_settled(a, address, out[i]));
    let kept = choose|kept: int| #[trigger]
        address::is_kept(c, m, kept) && out[i] == if m {
            c[kept].1
        } else {
            AddressTxView { status: address::unclaimed(), ..c[kept].1 }
        };
    let (p, k) = copy_is_listed_at_its_place(a, address, txid, kept);
    listing_stands_at_its_place(a, address, txid, p, k);
    let tx = (a[p].1->0)[k];
    types::laws::any_output_pays(tx, address);
    let v = choose|v: int|
        0 <= v < tx.vout.len() && (#[trigger] tx.vout[v]).scriptpubkey_address == Some(address);
    assert(output_pays((a[p].1->0)[k], address, v));
    assert forall|q: int, l: int, v: int|
        {
            &&& #[trigger] is_listing(a, q, l)
            &&& (q < p || (q == p && l < k))
            &&& (a[q].1->0)[l].txid == out[i].txid
            &&& #[trigger] output_pays((a[q].1->0)[l], address, v)
        } implies (a[q].1->0)[l].status.confirmed != out[i].status.confirmed by {
        listing_with_output(a, address, txid, q, l, v);
        listing_stands_at_its_place(a, address, txid, q, l);
        earlier_listing_earlier_place(a, address, txid, q, l, p, k);
        assert(c[place(a, address, txid, q, l)].1.status.confirmed != m);
    }
    if tx.status.confirmed != out[i].status.confirmed {
        assert forall|q: int, l: int, v: int|
            {
                &&& #[trigger] is_listing(a, q, l)
                &&& (a[q].1->0)[l].txid == out[i].txid
                &&& #[trigger] output_pays((a[q].1->0)[l], address, v)
            } implies (a[q].1->0)[l].status.confirmed && !(q < p || (q == p && l < k)) by {
            listing_with_output(a, address, txid, q, l, v);
            listing_stands_at_its_place(a, address, txid, q, l);
            assert(c[place(a, address, txid, q, l)].1.status.confirmed != m);
            if q < p || (q == p && l < k) {
                earlier_listing_earlier_place(a, address, txid, q, l, p, k);
            }
        }
    }
    (p, k)
}

/// A transaction that two listings contradict each other about is disputed.
proof fn contradiction_is_disputed(
    a: Seq<AddressAnswer>,
    address: Seq<char>,
    txid: Seq<char>,
    p: int,
    k: int,
    q: int,
    l: int,
    point: spec_fn(Copied) -> Option<u64>,
)
    requires
        laws::lists(a, address, txid, p, k),
        laws::lists(a, address, txid, q, l),
        point((a[p].0, listing(a, p, k))) is Some,
        point((a[q].0, listing(a, q, l))) is Some,
        point((a[p].0, listing(a, p, k))) != point((a[q].0, listing(a, q, l))),
    ensures
        address::reported(a, address, txid),
        !agreement::agree(address::copies(a, address, txid), point),
{
    listing_stands_at_its_place(a, address, txid, p, k);
    listing_stands_at_its_place(a, address, txid, q, l);
    let c = address::copies(a, address, txid);
    let i = place(a, address, txid, p, k);
    let j = place(a, address, txid, q, l);
    assert(point(c[i]) != point(c[j]));
}

/// A failure is told of no later a txid than one that is disputed.
proof fn disputed_fails_no_later(
    address: Seq<char>,
    a: Seq<AddressAnswer>,
    r: Result<Seq<AddressTxView>, ErrorView>,
    txid: Seq<char>,
)
    requires
        address::address_verdict(address, a, r),
        address::reported(a, address, txid),
        address::disputed(address::copies(a, address, txid), address),
    ensures
        r is Err,
        r->Err_0 is HeightDisagreement || r->Err_0 is ValueDisagreement,
        !crate::text::precedes(txid, told_txid(r->Err_0)),
{
    laws::address_fails_iff_disputed(address, a, r);
    let e = r->Err_0;
    let t = choose|t: Seq<char>| #[trigger]
        address::is_first_disputed(a, address, t) && address::tells_dispute(
            t,
            address,
            address::copies(a, address, t),
            e,
        );
    assert(told_txid(e) == t);
}

/// The transaction that a failure is about.
pub open spec fn told_txid(e: ErrorView) -> Seq<char> {
    match e {
        ErrorView::HeightDisagreement { txid, .. } => txid,
        ErrorView::ValueDisagreement { txid, .. } => txid,
        _ => Seq::empty(),
    }
}

/// Two listings that put a confirmed transaction in different blocks always
/// fail, and nothing but a transaction with a smaller or the same txid is blamed.
pub proof fn different_blocks_fail(
    address: Seq<char>,
    a: Seq<AddressAnswer>,
    r: Result<Seq<AddressTxView>, ErrorView>,
    p: int,
    k: int,
    v: int,
    q: int,
    l: int,
    w: int,
)
    requires
        address::address_verdict(address, a, r),
        is_listing(a, p, k),
        is_listing(a, q, l),
        output_pays(listing(a, p, k), address, v),
        output_pays(listing(a, q, l), address, w),
        listing(a, p, k).txid == listing(a, q, l).txid,
        listing(a, p, k).status.confirmed,
        listing(a, q, l).status.confirmed,
        listing(a, p, k).status.block_height is Some,
        listing(a, q, l).status.block_height is Some,
        listing(a, p, k).status.block_height != listing(a, q, l).status.block_height,
    ensures
        r is Err,
        !crate::text::precedes(listing(a, p, k).txid, told_txid(r->Err_0)),
{
    let txid = listing(a, p, k).txid;
    listing_with_output(a, address, txid, p, k, v);
    listing_with_output(a, address, txid, q, l, w);
    contradiction_is_disputed(a, address, txid, p, k, q, l, address::block_point());
    disputed_fails_no_later(address, a, r, txid);
}

/// Two listings that name different values for the output at one index always
/// fail, where both say that it pays the address.
pub proof fn different_values_fail(
    address: Seq<char>,
    a: Seq<AddressAnswer>,
    r: Result<Seq<AddressTxView>, ErrorView>,
    p: int,
    k: int,
    q: int,
    l: int,
    v: int,
)
    requires
        address::address_verdict(address, a, r),
        is_listing(a, p, k),
        is_listing(a, q, l),
        output_pays(listing(a, p, k), address, v),
        output_pays(listing(a, q, l), address, v),
        listing(a, p, k).txid == listing(a, q, l).txid,
        listing(a, p, k).vout[v].value != listing(a, q, l).vout[v].value,
    ensures
        r is Err,
        !crate::text::precedes(listing(a, p, k).txid, told_txid(r->Err_0)),
{
    let txid = listing(a, p, k).txid;
    listing_with_output(a, address, txid, p, k, v);
    listing_with_output(a, address, txid, q, l, v);
    types::laws::output_pays_its_own_address(
        listing(a, p, k),
        address,
        v,
        listing(a, p, k).vout[v].value,
    );
    types::laws::output_pays_its_own_address(
        listing(a, q, l),
        address,
        v,
        listing(a, q, l).vout[v].value,
    );
    contradiction_is_disputed(a, address, txid, p, k, q, l, address::output_point(address, v));
    disputed_fails_no_later(address, a, r, txid);
}

/// Two listings that name different values for the first output to the address
/// always fail, at whatever index either has it.
pub proof fn different_first_values_fail(
    address: Seq<char>,
    a: Seq<AddressAnswer>,
    r: Result<Seq<AddressTxView>, ErrorView>,
    p: int,
    k: int,
    v: int,
    q: int,
    l: int,
    w: int,
)
    requires
        address::address_verdict(address, a, r),
        is_listing(a, p, k),
        is_listing(a, q, l),
        output_pays(listing(a, p, k), address, v),
        output_pays(listing(a, q, l), address, w),
        forall|u: int| 0 <= u < v ==> !#[trigger] output_pays(listing(a, p, k), address, u),
        forall|u: int| 0 <= u < w ==> !#[trigger] output_pays(listing(a, q, l), address, u),
        listing(a, p, k).txid == listing(a, q, l).txid,
        listing(a, p, k).vout[v].value != listing(a, q, l).vout[w].value,
    ensures
        r is Err,
        !crate::text::precedes(listing(a, p, k).txid, told_txid(r->Err_0)),
{
    let txid = listing(a, p, k).txid;
    let s = listing(a, p, k);
    let t = listing(a, q, l);
    listing_with_output(a, address, txid, p, k, v);
    listing_with_output(a, address, txid, q, l, w);
    assert forall|u: int| 0 <= u < v implies (#[trigger] s.vout[u]).scriptpubkey_address != Some(
        address,
    ) by {
        assert(!output_pays(s, address, u));
    }
    assert forall|u: int| 0 <= u < w implies (#[trigger] t.vout[u]).scriptpubkey_address != Some(
        address,
    ) by {
        assert(!output_pays(t, address, u));
    }
    types::laws::first_output_is_what_is_paid(s, address, v);
    types::laws::first_output_is_what_is_paid(t, address, w);
    contradiction_is_disputed(a, address, txid, p, k, q, l, address::value_point(address));
    disputed_fails_no_later(address, a, r, txid);
}

/// Nothing else fails: every failure names a transaction and two providers that
/// list it with an output to the address, confirmed in the different blocks that
/// the error names, or with the different values that it names, for the output
/// at one index or for the first output.
pub proof fn failures_name_both_sides(
    address: Seq<char>,
    a: Seq<AddressAnswer>,
    e: ErrorView,
) -> (r: (int, int, int, int, int, int))
    requires
        address::address_verdict(address, a, Err(e)),
    ensures
        ({
            let (p, k, v, q, l, w) = r;
            let s = listing(a, p, k);
            let t = listing(a, q, l);
            &&& is_listing(a, p, k)
            &&& is_listing(a, q, l)
            &&& output_pays(s, address, v)
            &&& output_pays(t, address, w)
            &&& s.txid == t.txid
            &&& match e {
                ErrorView::HeightDisagreement { txid, a: x, a_height, b: y, b_height } => {
                    &&& txid == s.txid
                    &&& x == a[p].0
                    &&& y == a[q].0
                    &&& a_height != b_height
                    &&& s.status.confirmed && s.status.block_height == Some(a_height)
                    &&& t.status.confirmed && t.status.block_height == Some(b_height)
                },
                ErrorView::ValueDisagreement { txid, address: to, a: x, a_value, b: y, b_value } => {
                    &&& txid == s.txid
                    &&& to == address
                    &&& x == a[p].0
                    &&& y == a[q].0
                    &&& a_value != b_value
                    &&& s.vout[v].value == a_value
                    &&& t.vout[w].value == b_value
                    &&& v == w || {
                        &&& forall|u: int| 0 <= u < v ==> !#[trigger] output_pays(s, address, u)
                        &&& forall|u: int| 0 <= u < w ==> !#[trigger] output_pays(t, address, u)
                    }
                },
                _ => false,
            }
        }),
{
    let txid = choose|txid: Seq<char>| #[trigger]
        address::is_first_disputed(a, address, txid) && address::tells_dispute(
            txid,
            address,
            address::copies(a, address, txid),
            e,
        );
    let c = address::copies(a, address, txid);
    let (n, i, j) = laws::told_dispute(txid, address, c, e);
    if address::block_dispute(c, address, i, j) && e == address::block_error(txid, c, i, j) {
        let point = address::block_point();
        assert(point(c[i]) is Some && point(c[j]) is Some && point(c[i]) != point(c[j]));
        let (p, k, v) = copy_with_output(a, address, txid, i);
        let (q, l, w) = copy_with_output(a, address, txid, j);
        (p, k, v, q, l, w)
    } else if address::value_dispute(c, address, j) && e == address::value_error(
        txid,
        address,
        c,
        j,
    ) {
        let point = address::value_point(address);
        assert(point(c[0]) != point(c[j]));
        let (p, k, v) = copy_with_output(a, address, txid, 0);
        let (q, l, w) = copy_with_output(a, address, txid, j);
        (p, k, v, q, l, w)
    } else {
        let point = address::output_point(address, n);
        assert(point(c[i]) is Some && point(c[j]) is Some && point(c[i]) != point(c[j]));
        let (p, k, v) = copy_with_output(a, address, txid, i);
        let (q, l, w) = copy_with_output(a, address, txid, j);
        types::laws::output_pays_its_own_address(c[i].1, address, n, point(c[i])->0);
        types::laws::output_pays_its_own_address(c[j].1, address, n, point(c[j])->0);
        (p, k, n, q, l, n)
    }
}

/// A copy is listed by its provider, and pays the address with its first output
/// to it.
proof fn copy_with_output(
    a: Seq<AddressAnswer>,
    address: Seq<char>,
    txid: Seq<char>,
    i: int,
) -> (r: (int, int, int))
    requires
        0 <= i < address::copies(a, address, txid).len(),
    ensures
        is_listing(a, r.0, r.1),
        address::copies(a, address, txid)[i] == (a[r.0].0, listing(a, r.0, r.1)),
        listing(a, r.0, r.1).txid == txid,
        output_pays(listing(a, r.0, r.1), address, r.2),
        forall|u: int|
            0 <= u < r.2 ==> !#[trigger] output_pays(listing(a, r.0, r.1), address, u),
        types::paid(listing(a, r.0, r.1), address) == listing(a, r.0, r.1).vout[r.2].value,
{
    let (p, k) = copy_is_listed_at_its_place(a, address, txid, i);
    listing_stands_at_its_place(a, address, txid, p, k);
    let tx = (a[p].1->0)[k];
    let v = types::first_output_exists(tx, address);
    types::only_first_output(tx, address, v);
    (p, k, v)
}

} // verus!
