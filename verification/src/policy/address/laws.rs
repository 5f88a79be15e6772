//! What reconciling an address's transactions promises, whatever the answers.

use vstd::prelude::*;

use crate::error::ErrorView;
use crate::types::AddressTxView;
use crate::policy::address::{AddressAnswer, Copied};
#[allow(unused_imports)]
use crate::policy::{address, agreement};

verus! {

/// Transaction `k` of answer `p` is `txid`, and pays `address`.
pub open spec fn lists(
    a: Seq<AddressAnswer>,
    address: Seq<char>,
    txid: Seq<char>,
    p: int,
    k: int,
) -> bool {
    &&& 0 <= p < a.len()
    &&& a[p].1 is Some
    &&& 0 <= k < (a[p].1->0).len()
    &&& (a[p].1->0)[k].txid == txid
    &&& crate::types::pays((a[p].1->0)[k], address)
}

/// What a provider lists is among the copies.
proof fn listing_is_a_copy(
    a: Seq<AddressAnswer>,
    address: Seq<char>,
    txid: Seq<char>,
    p: int,
    k: int,
)
    requires
        lists(a, address, txid, p, k),
    ensures
        address::copies(a, address, txid).contains((a[p].0, (a[p].1->0)[k])),
    decreases a.len(),
{
    let rest = a.drop_last();
    let x = a.last();
    let pay = |tx: AddressTxView| crate::types::pays(tx, address);
    let of = |c: Copied| c.1.txid == txid;
    let item: Copied = (a[p].0, (a[p].1->0)[k]);
    assert(rest.push(x) =~= a);
    address::copies_of_push(rest, x, address, txid);
    let old_copies = address::copies(rest, address, txid);
    let new_copies = address::listed(x, address).filter(of);
    if p < rest.len() {
        assert(rest[p] == a[p]);
        assert(lists(rest, address, txid, p, k));
        listing_is_a_copy(rest, address, txid, p, k);
        let i = choose|i: int| 0 <= i < old_copies.len() && old_copies[i] == item;
        assert(address::copies(a, address, txid)[i] == item);
    } else {
        let txs = x.1->0;
        txs.lemma_filter_contains(pay, k);
        let m = choose|m: int| 0 <= m < txs.filter(pay).len() && txs.filter(pay)[m] == txs[k];
        assert(address::listed(x, address)[m] == item);
        address::listed(x, address).lemma_filter_contains(of, m);
        let i = choose|i: int| 0 <= i < new_copies.len() && new_copies[i] == item;
        assert(address::copies(a, address, txid)[old_copies.len() + i] == item);
    }
}

/// A copy is what some provider lists.
proof fn copy_is_a_listing(a: Seq<AddressAnswer>, address: Seq<char>, txid: Seq<char>, i: int)
    requires
        0 <= i < address::copies(a, address, txid).len(),
    ensures
        exists|p: int, k: int| #[trigger]
            lists(a, address, txid, p, k) && address::copies(a, address, txid)[i] == (
                a[p].0,
                (a[p].1->0)[k],
            ),
    decreases a.len(),
{
    let of = |c: Copied| c.1.txid == txid;
    let pay = |tx: AddressTxView| crate::types::pays(tx, address);
    address::copies_pay(a, address, txid);
    let c = address::copies(a, address, txid)[i];
    reveal(Seq::filter);
    assert(a.len() > 0);
    let rest = a.drop_last();
    let x = a.last();
    assert(rest.push(x) =~= a);
    address::copies_of_push(rest, x, address, txid);
    let n = address::copies(rest, address, txid).len();
    if i < n {
        copy_is_a_listing(rest, address, txid, i);
        let (p, k) = choose|p: int, k: int| #[trigger]
            lists(rest, address, txid, p, k) && address::copies(rest, address, txid)[i] == (
                rest[p].0,
                (rest[p].1->0)[k],
            );
        assert(a[p] == rest[p]);
        assert(lists(a, address, txid, p, k));
    } else {
        let found = address::listed(x, address).filter(of);
        assert(found[i - n] == c);
        address::listed(x, address).lemma_filter_contains_rev(of, c);
        let m = choose|m: int| 0 <= m < address::listed(x, address).len() && address::listed(x, address)[m] == c;
        let txs = x.1->0;
        assert(txs.filter(pay)[m] == c.1);
        txs.lemma_filter_contains_rev(pay, c.1);
        let k = choose|k: int| 0 <= k < txs.len() && txs[k] == c.1;
        assert(lists(a, address, txid, a.len() - 1, k));
    }
}

/// A transaction is reported exactly when some provider lists it.
pub proof fn reported_iff_listed(a: Seq<AddressAnswer>, address: Seq<char>, txid: Seq<char>)
    ensures
        address::reported(a, address, txid) <==> exists|p: int, k: int| #[trigger]
            lists(a, address, txid, p, k),
{
    if address::reported(a, address, txid) {
        copy_is_a_listing(a, address, txid, 0);
    }
    if exists|p: int, k: int| #[trigger] lists(a, address, txid, p, k) {
        let (p, k) = choose|p: int, k: int| #[trigger] lists(a, address, txid, p, k);
        listing_is_a_copy(a, address, txid, p, k);
    }
}

/// Existence is a union: a transaction is returned exactly when some provider
/// lists it as paying the address.
pub proof fn existence_is_a_union(
    address: Seq<char>,
    a: Seq<AddressAnswer>,
    out: Seq<AddressTxView>,
    txid: Seq<char>,
)
    requires
        address::address_verdict(address, a, Ok(out)),
    ensures
        (exists|i: int| 0 <= i < out.len() && (#[trigger] out[i]).txid == txid) <==> (exists|
            p: int,
            k: int,
        | #[trigger] lists(a, address, txid, p, k)),
{
    reported_iff_listed(a, address, txid);
    if exists|i: int| 0 <= i < out.len() && (#[trigger] out[i]).txid == txid {
        let i = choose|i: int| 0 <= i < out.len() && (#[trigger] out[i]).txid == txid;
        assert(address::is_settled(a, address, out[i]));
    }
}

/// Where somebody confirms a transaction, some copy of it is confirmed.
proof fn votes_need_a_confirmed_copy(a: Seq<AddressAnswer>, address: Seq<char>, txid: Seq<char>)
    requires
        address::votes(a, address, txid) > 0,
    ensures
        exists|i: int|
            0 <= i < address::copies(a, address, txid).len() && (#[trigger] address::copies(
                a,
                address,
                txid,
            )[i]).1.status.confirmed,
{
    let says = |x: AddressAnswer| address::confirms(x, address, txid);
    let voters = a.filter(says);
    let x = voters[0];
    a.lemma_filter_pred(says, 0);
    a.lemma_filter_contains_rev(says, x);
    let p = choose|p: int| 0 <= p < a.len() && a[p] == x;
    let k = choose|k: int|
        0 <= k < (x.1->0).len() && address::is_confirmation(#[trigger] (x.1->0)[k], address, txid);
    assert(lists(a, address, txid, p, k));
    listing_is_a_copy(a, address, txid, p, k);
    let c = address::copies(a, address, txid);
    let i = choose|i: int| 0 <= i < c.len() && c[i] == (a[p].0, (a[p].1->0)[k]);
    assert(c[i].1.status.confirmed);
}

/// Confirmation is a majority: what is returned is confirmed exactly when more
/// than half of the providers that answered say so, and otherwise carries no
/// claim to a block at all.
pub proof fn confirmation_is_a_majority(
    address: Seq<char>,
    a: Seq<AddressAnswer>,
    out: Seq<AddressTxView>,
    i: int,
)
    requires
        address::address_verdict(address, a, Ok(out)),
        0 <= i < out.len(),
    ensures
        out[i].status.confirmed <==> 2 * address::votes(a, address, out[i].txid) > address::answered(a),
        !out[i].status.confirmed ==> out[i].status == address::unclaimed(),
{
    let txid = out[i].txid;
    let c = address::copies(a, address, txid);
    let m = address::majority(a, address, txid);
    assert(address::is_settled(a, address, out[i]));
    let k = choose|k: int| #[trigger]
        address::is_kept(c, m, k) && out[i] == if m {
            c[k].1
        } else {
            AddressTxView { status: address::unclaimed(), ..c[k].1 }
        };
    if m {
        votes_need_a_confirmed_copy(a, address, txid);
        let j = choose|j: int| 0 <= j < c.len() && (#[trigger] c[j]).1.status.confirmed;
        assert(c[k].1.status.confirmed);
    }
}

/// One provider has one vote, and only who answers has one.
pub proof fn one_provider_one_vote(a: Seq<AddressAnswer>, address: Seq<char>, txid: Seq<char>)
    ensures
        address::votes(a, address, txid) <= address::answered(a) <= a.len(),
{
    address::voters_answered(a, address, txid);
    a.lemma_filter_len(|x: AddressAnswer| x.1 is Some);
}

/// With a single answer the majority is whatever it says.
pub proof fn single_provider_decides(
    a: Seq<AddressAnswer>,
    address: Seq<char>,
    txid: Seq<char>,
    p: int,
)
    requires
        0 <= p < a.len(),
        a[p].1 is Some,
        forall|q: int| 0 <= q < a.len() && q != p ==> (#[trigger] a[q]).1 is None,
    ensures
        address::majority(a, address, txid) <==> address::confirms(a[p], address, txid),
    decreases a.len(),
{
    let rest = a.drop_last();
    let x = a.last();
    assert(rest.push(x) =~= a);
    address::votes_of_push(rest, x, address, txid);
    address::answered_of_push(rest, x);
    if p < rest.len() {
        assert(x.1 is None);
        single_provider_decides(rest, address, txid, p);
    } else {
        nobody_answers(rest, address, txid);
    }
}

proof fn nobody_answers(a: Seq<AddressAnswer>, address: Seq<char>, txid: Seq<char>)
    requires
        forall|q: int| 0 <= q < a.len() ==> (#[trigger] a[q]).1 is None,
    ensures
        address::answered(a) == 0,
        address::votes(a, address, txid) == 0,
    decreases a.len(),
{
    reveal(Seq::filter);
    if a.len() > 0 {
        let rest = a.drop_last();
        assert(rest.push(a.last()) =~= a);
        address::votes_of_push(rest, a.last(), address, txid);
        address::answered_of_push(rest, a.last());
        nobody_answers(rest, address, txid);
    }
}

/// The verdict fails exactly when the copies of some transaction contradict each
/// other: they name different blocks, or different values for the same output.
pub proof fn address_fails_iff_disputed(
    address: Seq<char>,
    a: Seq<AddressAnswer>,
    r: Result<Seq<AddressTxView>, ErrorView>,
)
    requires
        address::address_verdict(address, a, r),
    ensures
        r is Err <==> exists|txid: Seq<char>| #[trigger]
            address::reported(a, address, txid) && address::disputed(address::copies(a, address, txid), address),
{
    match r {
        Ok(out) => {
            assert forall|txid: Seq<char>| #[trigger] address::reported(a, address, txid) implies !address::disputed(
                address::copies(a, address, txid),
                address,
            ) by {
                let i = choose|i: int| 0 <= i < out.len() && (#[trigger] out[i]).txid == txid;
                assert(address::is_settled(a, address, out[i]));
            }
        },
        Err(e) => {
            let txid = choose|txid: Seq<char>| #[trigger]
                address::is_first_disputed(a, address, txid) && address::tells_dispute(
                    txid,
                    address,
                    address::copies(a, address, txid),
                    e,
                );
            assert(address::reported(a, address, txid));
        },
    }
}

/// What was paid is settled: every provider that lists a transaction says that
/// its first output to the address paid what is returned.
pub proof fn every_listing_agrees_on_value(
    address: Seq<char>,
    a: Seq<AddressAnswer>,
    out: Seq<AddressTxView>,
    i: int,
    p: int,
    k: int,
)
    requires
        address::address_verdict(address, a, Ok(out)),
        0 <= i < out.len(),
        lists(a, address, out[i].txid, p, k),
    ensures
        crate::types::paid((a[p].1->0)[k], address) == crate::types::paid(out[i], address),
{
    let txid = out[i].txid;
    let c = address::copies(a, address, txid);
    let m = address::majority(a, address, txid);
    let point = address::value_point(address);
    assert(address::is_settled(a, address, out[i]));
    let kept = choose|kept: int| #[trigger]
        address::is_kept(c, m, kept) && out[i] == if m {
            c[kept].1
        } else {
            AddressTxView { status: address::unclaimed(), ..c[kept].1 }
        };
    listing_is_a_copy(a, address, txid, p, k);
    let j = choose|j: int| 0 <= j < c.len() && c[j] == (a[p].0, (a[p].1->0)[k]);
    assert(point(c[j]) == point(c[kept]));
    assert(out[i].vout == c[kept].1.vout);
    address::copies_pay(a, address, txid);
    same_outputs_pay_the_same(out[i], c[kept].1, address);
}

/// Every output to the address is settled: whoever lists a transaction with an
/// output to the address, at an index where the one returned pays it too, names
/// the same value for it.
pub proof fn every_listing_agrees_on_outputs(
    address: Seq<char>,
    a: Seq<AddressAnswer>,
    out: Seq<AddressTxView>,
    i: int,
    p: int,
    k: int,
    v: int,
)
    requires
        address::address_verdict(address, a, Ok(out)),
        0 <= i < out.len(),
        lists(a, address, out[i].txid, p, k),
        crate::types::paid_by_output((a[p].1->0)[k], address, v) is Some,
        crate::types::paid_by_output(out[i], address, v) is Some,
    ensures
        crate::types::paid_by_output((a[p].1->0)[k], address, v) == crate::types::paid_by_output(
            out[i],
            address,
            v,
        ),
{
    let txid = out[i].txid;
    let c = address::copies(a, address, txid);
    let m = address::majority(a, address, txid);
    let point = address::output_point(address, v);
    assert(address::is_settled(a, address, out[i]));
    let kept = choose|kept: int| #[trigger]
        address::is_kept(c, m, kept) && out[i] == if m {
            c[kept].1
        } else {
            AddressTxView { status: address::unclaimed(), ..c[kept].1 }
        };
    listing_is_a_copy(a, address, txid, p, k);
    let j = choose|j: int| 0 <= j < c.len() && c[j] == (a[p].0, (a[p].1->0)[k]);
    assert(agreement::agree_up_to(c, point, c.len() as int));
    assert(out[i].vout == c[kept].1.vout);
    assert(point(c[j]) == point(c[kept]));
}

proof fn same_outputs_pay_the_same(s: AddressTxView, t: AddressTxView, address: Seq<char>)
    requires
        s.vout == t.vout,
        crate::types::pays(t, address),
    ensures
        crate::types::paid(s, address) == crate::types::paid(t, address),
{
    let i = crate::types::first_output_exists(t, address);
    assert(crate::types::is_output_to(s, address, i));
    crate::types::only_first_output(s, address, i);
    crate::types::only_first_output(t, address, i);
}

/// Silence is not a vote: a provider that never answered, wherever it stands,
/// changes nothing.
pub proof fn silence_is_not_a_vote(
    address: Seq<char>,
    a: Seq<AddressAnswer>,
    at: int,
    base: Seq<char>,
    r: Result<Seq<AddressTxView>, ErrorView>,
)
    requires
        0 <= at <= a.len(),
        address::address_verdict(address, a, r),
    ensures
        address::address_verdict(address, a.insert(at, (base, None)), r),
{
    let x: AddressAnswer = (base, None);
    let b = a.insert(at, x);
    silence_adds_nothing(a, at, x, address);
    assert forall|txid: Seq<char>| #![trigger address::votes(b, address, txid)]
        address::votes(b, address, txid) == address::votes(a, address, txid) by {
        silence_counts_for_nothing(a, at, x, |y: AddressAnswer| address::confirms(y, address, txid));
    }
    silence_counts_for_nothing(a, at, x, |y: AddressAnswer| y.1 is Some);
    assert forall|txid: Seq<char>| #![trigger address::reported(b, address, txid)]
        address::reported(b, address, txid) == address::reported(a, address, txid) && address::copies(b, address, txid)
            == address::copies(a, address, txid) by {}
    match r {
        Ok(out) => {
            assert forall|i: int| 0 <= i < out.len() implies address::is_settled(
                b,
                address,
                #[trigger] out[i],
            ) by {
                assert(address::is_settled(a, address, out[i]));
                assert(address::reported(b, address, out[i].txid));
                assert(address::majority(b, address, out[i].txid) == address::majority(a, address, out[i].txid));
            }
            assert forall|txid: Seq<char>| #[trigger] address::reported(b, address, txid) implies exists|
                i: int,
            | 0 <= i < out.len() && (#[trigger] out[i]).txid == txid by {
                assert(address::reported(a, address, txid));
            }
        },
        Err(e) => {
            let txid = choose|txid: Seq<char>| #[trigger]
                address::is_first_disputed(a, address, txid) && address::tells_dispute(
                    txid,
                    address,
                    address::copies(a, address, txid),
                    e,
                );
            assert(address::reported(b, address, txid));
            assert forall|t: Seq<char>| #[trigger]
                address::reported(b, address, t) && crate::text::precedes(t, txid) implies !address::disputed(
                address::copies(b, address, t),
                address,
            ) by {
                assert(address::reported(a, address, t));
            }
            assert(address::is_first_disputed(b, address, txid));
        },
    }
}

proof fn silence_adds_nothing(
    a: Seq<AddressAnswer>,
    at: int,
    x: AddressAnswer,
    address: Seq<char>,
)
    requires
        0 <= at <= a.len(),
        x.1 is None,
    ensures
        address::sightings(a.insert(at, x), address) == address::sightings(a, address),
    decreases a.len() - at,
{
    let b = a.insert(at, x);
    if at == a.len() {
        assert(b.drop_last() =~= a);
        assert(address::sightings(b, address) =~= address::sightings(a, address));
    } else {
        assert(b.drop_last() =~= a.drop_last().insert(at, x));
        assert(b.last() == a.last());
        silence_adds_nothing(a.drop_last(), at, x, address);
    }
}

proof fn silence_counts_for_nothing(
    a: Seq<AddressAnswer>,
    at: int,
    x: AddressAnswer,
    p: spec_fn(AddressAnswer) -> bool,
)
    requires
        0 <= at <= a.len(),
        !p(x),
    ensures
        a.insert(at, x).filter(p).len() == a.filter(p).len(),
{
    let left = a.take(at);
    let right = a.skip(at);
    assert(a =~= left + right);
    assert(a.insert(at, x) =~= left.push(x) + right);
    left.lemma_filter_push(x, p);
    Seq::filter_distributes_over_add(left, right, p);
    Seq::filter_distributes_over_add(left.push(x), right, p);
}

/// The block is settled: every provider that lists a transaction confirmed in a
/// known block names the block that is returned, where one is.
pub proof fn every_listing_agrees_on_block(
    address: Seq<char>,
    a: Seq<AddressAnswer>,
    out: Seq<AddressTxView>,
    i: int,
    p: int,
    k: int,
)
    requires
        address::address_verdict(address, a, Ok(out)),
        0 <= i < out.len(),
        lists(a, address, out[i].txid, p, k),
        address::block_of((a[p].0, (a[p].1->0)[k])) is Some,
        out[i].status.block_height is Some,
    ensures
        address::block_of((a[p].0, (a[p].1->0)[k])) == out[i].status.block_height,
{
    let txid = out[i].txid;
    let c = address::copies(a, address, txid);
    let m = address::majority(a, address, txid);
    let point = address::block_point();
    confirmation_is_a_majority(address, a, out, i);
    assert(address::is_settled(a, address, out[i]));
    let kept = choose|kept: int| #[trigger]
        address::is_kept(c, m, kept) && out[i] == if m {
            c[kept].1
        } else {
            AddressTxView { status: address::unclaimed(), ..c[kept].1 }
        };
    listing_is_a_copy(a, address, txid, p, k);
    let j = choose|j: int| 0 <= j < c.len() && c[j] == (a[p].0, (a[p].1->0)[k]);
    assert(point(c[j]) == point(c[kept]));
}

/// What is returned of a transaction is determined.
proof fn settled_is_unique(a: Seq<AddressAnswer>, address: Seq<char>, s: AddressTxView, t: AddressTxView)
    requires
        address::is_settled(a, address, s),
        address::is_settled(a, address, t),
        s.txid == t.txid,
    ensures
        s == t,
{
    let c = address::copies(a, address, s.txid);
    let m = address::majority(a, address, s.txid);
    let k = choose|k: int| #[trigger]
        address::is_kept(c, m, k) && s == if m {
            c[k].1
        } else {
            AddressTxView { status: address::unclaimed(), ..c[k].1 }
        };
    let l = choose|l: int| #[trigger]
        address::is_kept(c, m, l) && t == if m {
            c[l].1
        } else {
            AddressTxView { status: address::unclaimed(), ..c[l].1 }
        };
    if k < l {
        assert(c[k].1.status.confirmed != m);
    } else if l < k {
        assert(c[l].1.status.confirmed != m);
    }
}

/// Two disputes are told of the same copy: the first that contradicts an earlier
/// one.
proof fn one_dispute_at_a_time(c: Seq<Copied>, address: Seq<char>, j: int, l: int)
    requires
        address::consistent(c, address, j),
        address::consistent(c, address, l),
        !address::consistent(c, address, j + 1),
        !address::consistent(c, address, l + 1),
    ensures
        j == l,
{
    if j < l {
        consistent_before(c, address, j + 1, l);
    } else if l < j {
        consistent_before(c, address, l + 1, j);
    }
}

proof fn consistent_before(c: Seq<Copied>, address: Seq<char>, m: int, n: int)
    requires
        m <= n,
        address::consistent(c, address, n),
    ensures
        address::consistent(c, address, m),
{
    assert forall|v: int| agreement::agree_up_to(
        c,
        #[trigger] address::output_point(address, v),
        m,
    ) by {
        assert(agreement::agree_up_to(c, address::output_point(address, v), n));
    }
}

/// What the disputes of the three sorts have in common, and how they differ: on
/// which of the points the copy contradicts an earlier one.
proof fn sorts_of_dispute(c: Seq<Copied>, address: Seq<char>, v: int, i: int, j: int)
    ensures
        address::block_dispute(c, address, i, j) ==> !agreement::agree_up_to(
            c,
            address::block_point(),
            j + 1,
        ),
        address::value_dispute(c, address, j) ==> !agreement::agree_up_to(
            c,
            address::value_point(address),
            j + 1,
        ),
        address::output_dispute(c, address, v, i, j) ==> !agreement::agree_up_to(
            c,
            address::output_point(address, v),
            j + 1,
        ),
{
    let bp = address::block_point();
    let vp = address::value_point(address);
    let op = address::output_point(address, v);
    if address::block_dispute(c, address, i, j) {
        assert(bp(c[i]) != bp(c[j]));
    }
    if address::value_dispute(c, address, j) {
        assert(vp(c[0]) != vp(c[j]));
    }
    if address::output_dispute(c, address, v, i, j) {
        assert(op(c[i]) != op(c[j]));
    }
}

/// How the copies of a transaction contradict each other is determined.
proof fn dispute_is_unique(
    txid: Seq<char>,
    address: Seq<char>,
    c: Seq<Copied>,
    e: ErrorView,
    f: ErrorView,
)
    requires
        address::tells_dispute(txid, address, c, e),
        address::tells_dispute(txid, address, c, f),
    ensures
        e == f,
{
    let (v, i, j) = told_dispute(txid, address, c, e);
    let (w, k, l) = told_dispute(txid, address, c, f);
    sorts_of_dispute(c, address, v, i, j);
    sorts_of_dispute(c, address, w, k, l);
    one_dispute_at_a_time(c, address, j, l);
    if address::block_dispute(c, address, i, j) {
        if i < k {
            assert(address::block_of(c[i]) is None);
        } else if k < i {
            assert(address::block_of(c[k]) is None);
        }
    } else if address::output_dispute(c, address, v, i, j) {
        if v < w {
            assert(agreement::agree_up_to(c, address::output_point(address, v), j + 1));
        } else if w < v {
            assert(agreement::agree_up_to(c, address::output_point(address, w), j + 1));
        }
        if i < k {
            assert(crate::types::paid_by_output(c[i].1, address, v) is None);
        } else if k < i {
            assert(crate::types::paid_by_output(c[k].1, address, v) is None);
        }
    }
}

/// The dispute that an error tells: the output, where it is about one, and the
/// two copies.
pub(crate) proof fn told_dispute(
    txid: Seq<char>,
    address: Seq<char>,
    c: Seq<Copied>,
    e: ErrorView,
) -> (r: (int, int, int))
    requires
        address::tells_dispute(txid, address, c, e),
    ensures
        ({
            let (v, i, j) = r;
            ||| address::block_dispute(c, address, i, j) && e == address::block_error(txid, c, i, j)
            ||| address::value_dispute(c, address, j) && e == address::value_error(
                txid,
                address,
                c,
                j,
            )
            ||| address::output_dispute(c, address, v, i, j) && e == address::output_error(
                txid,
                address,
                c,
                v,
                i,
                j,
            )
        }),
{
    if exists|i: int, j: int| #[trigger]
        address::block_dispute(c, address, i, j) && e == address::block_error(txid, c, i, j) {
        let (i, j) = choose|i: int, j: int| #[trigger]
            address::block_dispute(c, address, i, j) && e == address::block_error(txid, c, i, j);
        (0, i, j)
    } else if exists|j: int| #[trigger]
        address::value_dispute(c, address, j) && e == address::value_error(txid, address, c, j) {
        let j = choose|j: int| #[trigger]
            address::value_dispute(c, address, j) && e == address::value_error(txid, address, c, j);
        (0, 0, j)
    } else {
        choose|v: int, i: int, j: int| #[trigger]
            address::output_dispute(c, address, v, i, j) && e == address::output_error(
                txid,
                address,
                c,
                v,
                i,
                j,
            )
    }
}

/// The answers determine the verdict.
pub proof fn address_verdict_is_unique(
    address: Seq<char>,
    a: Seq<AddressAnswer>,
    r: Result<Seq<AddressTxView>, ErrorView>,
    q: Result<Seq<AddressTxView>, ErrorView>,
)
    requires
        address::address_verdict(address, a, r),
        address::address_verdict(address, a, q),
    ensures
        r == q,
{
    address_fails_iff_disputed(address, a, r);
    address_fails_iff_disputed(address, a, q);
    match (r, q) {
        (Ok(s), Ok(t)) => {
            if s.len() <= t.len() {
                same_txids(address, a, s, t, s.len() as int);
                same_length(address, a, s, t);
            } else {
                same_txids(address, a, t, s, t.len() as int);
                same_length(address, a, t, s);
            }
            assert forall|i: int| 0 <= i < s.len() implies s[i] == t[i] by {
                assert(address::is_settled(a, address, s[i]) && address::is_settled(a, address, t[i]));
                settled_is_unique(a, address, s[i], t[i]);
            }
            assert(s =~= t);
        },
        (Err(e), Err(f)) => {
            let x = choose|x: Seq<char>| #[trigger]
                address::is_first_disputed(a, address, x) && address::tells_dispute(
                    x,
                    address,
                    address::copies(a, address, x),
                    e,
                );
            let y = choose|y: Seq<char>| #[trigger]
                address::is_first_disputed(a, address, y) && address::tells_dispute(
                    y,
                    address,
                    address::copies(a, address, y),
                    f,
                );
            crate::text::precedes_total(x, y);
            assert(address::reported(a, address, x) && address::reported(a, address, y));
            dispute_is_unique(x, address, address::copies(a, address, x), e, f);
        },
        _ => {},
    }
}

/// Two lists that settle the same answers begin with the same transactions.
proof fn same_txids(
    address: Seq<char>,
    a: Seq<AddressAnswer>,
    s: Seq<AddressTxView>,
    t: Seq<AddressTxView>,
    n: int,
)
    requires
        address::address_verdict(address, a, Ok(s)),
        address::address_verdict(address, a, Ok(t)),
        0 <= n <= s.len(),
        n <= t.len(),
    ensures
        forall|i: int| 0 <= i < n ==> (#[trigger] s[i]).txid == t[i].txid,
    decreases n,
{
    if n > 0 {
        same_txids(address, a, s, t, n - 1);
        let k = n - 1;
        assert(address::is_settled(a, address, s[k]) && address::is_settled(a, address, t[k]));
        let i = choose|i: int| 0 <= i < t.len() && (#[trigger] t[i]).txid == s[k].txid;
        let j = choose|j: int| 0 <= j < s.len() && (#[trigger] s[j]).txid == t[k].txid;
        crate::text::precedes_irreflexive(s[k].txid);
        crate::text::precedes_irreflexive(t[k].txid);
        if i < k {
            assert(s[i].txid == t[i].txid);
            assert(crate::text::precedes(s[i].txid, s[k].txid));
        }
        if j < k {
            assert(s[j].txid == t[j].txid);
            assert(crate::text::precedes(t[j].txid, t[k].txid));
        }
        if i > k && j > k {
            assert(crate::text::precedes(t[k].txid, t[i].txid));
            assert(crate::text::precedes(s[k].txid, s[j].txid));
            crate::text::precedes_transitive(s[k].txid, t[k].txid, s[k].txid);
        }
    }
}

/// Two lists that settle the same answers are of one length.
proof fn same_length(
    address: Seq<char>,
    a: Seq<AddressAnswer>,
    s: Seq<AddressTxView>,
    t: Seq<AddressTxView>,
)
    requires
        address::address_verdict(address, a, Ok(s)),
        address::address_verdict(address, a, Ok(t)),
        s.len() <= t.len(),
        forall|i: int| 0 <= i < s.len() ==> (#[trigger] s[i]).txid == t[i].txid,
    ensures
        s.len() == t.len(),
{
    if s.len() < t.len() {
        let n = s.len() as int;
        assert(address::is_settled(a, address, t[n]));
        let i = choose|i: int| 0 <= i < s.len() && (#[trigger] s[i]).txid == t[n].txid;
        assert(crate::text::precedes(t[i].txid, t[n].txid));
        crate::text::precedes_irreflexive(t[n].txid);
    }
}

/// The order of the answers does not matter: whether the verdict fails, which
/// transactions are returned and which of them are confirmed are the same in any
/// order.
pub proof fn address_order_does_not_matter(
    address: Seq<char>,
    a: Seq<AddressAnswer>,
    b: Seq<AddressAnswer>,
    r: Result<Seq<AddressTxView>, ErrorView>,
    q: Result<Seq<AddressTxView>, ErrorView>,
)
    requires
        a.to_multiset() == b.to_multiset(),
        address::address_verdict(address, a, r),
        address::address_verdict(address, b, q),
    ensures
        match (r, q) {
            (Ok(s), Ok(t)) => forall|i: int|
                0 <= i < s.len() ==> (exists|j: int|
                    0 <= j < t.len() && (#[trigger] t[j]).txid == (#[trigger] s[i]).txid
                        && t[j].status.confirmed == s[i].status.confirmed),
            (Err(_), Err(_)) => true,
            _ => false,
        },
{
    address_fails_iff_disputed(address, a, r);
    address_fails_iff_disputed(address, b, q);
    agreement::reordering_keeps_items(a, b);
    if r is Err {
        let x = choose|x: Seq<char>| #[trigger]
            address::reported(a, address, x) && address::disputed(address::copies(a, address, x), address);
        same_copies(a, b, address, x);
        same_dispute(address::copies(a, address, x), address::copies(b, address, x), address);
        assert(address::reported(b, address, x));
    }
    if q is Err {
        let x = choose|x: Seq<char>| #[trigger]
            address::reported(b, address, x) && address::disputed(address::copies(b, address, x), address);
        same_copies(b, a, address, x);
        same_dispute(address::copies(b, address, x), address::copies(a, address, x), address);
        assert(address::reported(a, address, x));
    }
    if r is Ok && q is Ok {
        let s = r->Ok_0;
        let t = q->Ok_0;
        assert forall|i: int| 0 <= i < s.len() implies exists|j: int|
            0 <= j < t.len() && (#[trigger] t[j]).txid == (#[trigger] s[i]).txid
                && t[j].status.confirmed == s[i].status.confirmed by {
            let x = s[i].txid;
            assert(address::is_settled(a, address, s[i]));
            same_copies(a, b, address, x);
            assert(address::reported(b, address, x));
            let j = choose|j: int| 0 <= j < t.len() && (#[trigger] t[j]).txid == x;
            confirmation_is_a_majority(address, a, s, i);
            confirmation_is_a_majority(address, b, t, j);
            agreement::count_ignores_order(
                a,
                b,
                |y: AddressAnswer| address::confirms(y, address, x),
            );
            agreement::count_ignores_order(a, b, |y: AddressAnswer| y.1 is Some);
        }
    }
}

/// The same answers in another order give the same copies in another order.
proof fn same_copies(
    a: Seq<AddressAnswer>,
    b: Seq<AddressAnswer>,
    address: Seq<char>,
    txid: Seq<char>,
)
    requires
        agreement::same_items(a, b),
    ensures
        agreement::same_items(address::copies(a, address, txid), address::copies(b, address, txid)),
        address::reported(a, address, txid) == address::reported(b, address, txid),
{
    let c = address::copies(a, address, txid);
    let d = address::copies(b, address, txid);
    assert forall|x: Copied| c.contains(x) <==> d.contains(x) by {
        if c.contains(x) {
            copy_stands_elsewhere(a, b, address, txid, x);
        }
        if d.contains(x) {
            copy_stands_elsewhere(b, a, address, txid, x);
        }
    }
    if c.len() > 0 {
        assert(c.contains(c[0]));
        assert(d.contains(c[0]));
    }
    if d.len() > 0 {
        assert(d.contains(d[0]));
        assert(c.contains(d[0]));
    }
}

proof fn copy_stands_elsewhere(
    a: Seq<AddressAnswer>,
    b: Seq<AddressAnswer>,
    address: Seq<char>,
    txid: Seq<char>,
    x: Copied,
)
    requires
        agreement::same_items(a, b),
        address::copies(a, address, txid).contains(x),
    ensures
        address::copies(b, address, txid).contains(x),
{
    let c = address::copies(a, address, txid);
    let i = choose|i: int| 0 <= i < c.len() && c[i] == x;
    copy_is_a_listing(a, address, txid, i);
    let (p, k) = choose|p: int, k: int| #[trigger]
        lists(a, address, txid, p, k) && c[i] == (a[p].0, (a[p].1->0)[k]);
    let q = agreement::counterpart(a, b, p);
    assert(lists(b, address, txid, q, k));
    listing_is_a_copy(b, address, txid, q, k);
}

proof fn same_dispute(c: Seq<Copied>, d: Seq<Copied>, address: Seq<char>)
    requires
        agreement::same_items(c, d),
        address::disputed(c, address),
    ensures
        address::disputed(d, address),
{
    agreement::agreement_ignores_order(c, d, address::block_point());
    agreement::agreement_ignores_order(c, d, address::value_point(address));
    if !address::outputs_agree_up_to(c, address, c.len() as int) {
        let v = choose|v: int|
            !agreement::agree_up_to(
                c,
                #[trigger] address::output_point(address, v),
                c.len() as int,
            );
        agreement::agreement_ignores_order(c, d, address::output_point(address, v));
    }
}

} // verus!
