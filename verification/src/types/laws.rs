//! What the shapes and the provider roots promise, over their fields and
//! characters.

use vstd::prelude::*;

use crate::types::{
    AddressTx, AddressTxView, Outspend, TxInfo, TxStatus, TxStatusView, Vout,
};
#[allow(unused_imports)]
use crate::text;
#[allow(unused_imports)]
use crate::types;

verus! {

/// A text that may be missing, as characters.
pub open spec fn characters(s: Option<String>) -> Option<Seq<char>> {
    match s {
        Some(text) => Some(text@),
        None => None,
    }
}

/// What is said of a status is said of all its fields.
pub proof fn status_keeps_every_field(s: TxStatus)
    ensures
        s.deep_view().confirmed == s.confirmed,
        s.deep_view().block_height == s.block_height,
        s.deep_view().block_hash == characters(s.block_hash),
        s.deep_view().block_time == s.block_time,
{
}

/// What is said of a transaction is said of all its fields.
pub proof fn tx_keeps_every_field(info: TxInfo)
    ensures
        info.deep_view().txid == info.txid@,
        info.deep_view().status == info.status.deep_view(),
{
}

/// What is said of a spend is said of all its fields.
pub proof fn outspend_keeps_every_field(o: Outspend)
    ensures
        o.deep_view().spent == o.spent,
        o.deep_view().txid == characters(o.txid),
        o.deep_view().status is Some <==> o.status is Some,
        o.status is Some ==> o.deep_view().status->0 == o.status->0.deep_view(),
{
}

/// What is said of an output is said of all its fields.
pub proof fn output_keeps_every_field(o: Vout)
    ensures
        o.deep_view().scriptpubkey_address == characters(o.scriptpubkey_address),
        o.deep_view().value == o.value,
{
}

/// What is said of a transaction that touches an address is said of all its
/// fields, and of every output.
pub proof fn address_tx_keeps_every_field(tx: AddressTx)
    ensures
        tx.deep_view().txid == tx.txid@,
        tx.deep_view().status == tx.status.deep_view(),
        tx.deep_view().vout.len() == tx.vout@.len(),
        forall|v: int|
            0 <= v < tx.vout@.len() ==> #[trigger] tx.deep_view().vout[v]
                == tx.vout@[v].deep_view(),
{
}

/// A transaction pays an address exactly when one of its outputs does, at any
/// index whatever.
pub proof fn any_output_pays(tx: AddressTxView, address: Seq<char>)
    ensures
        types::pays(tx, address) <==> exists|v: int|
            0 <= v < tx.vout.len() && (#[trigger] tx.vout[v]).scriptpubkey_address == Some(address),
{
}

/// What is paid is what the first output to the address pays: not the last, and
/// not the sum.
pub proof fn first_output_is_what_is_paid(tx: AddressTxView, address: Seq<char>, v: int)
    requires
        0 <= v < tx.vout.len(),
        tx.vout[v].scriptpubkey_address == Some(address),
        forall|w: int| 0 <= w < v ==> (#[trigger] tx.vout[w]).scriptpubkey_address != Some(address),
    ensures
        types::paid(tx, address) == tx.vout[v].value,
{
    assert(types::is_output_to(tx, address, v));
    types::only_first_output(tx, address, v);
}

/// An output pays its value to the address that it names, and nothing to any
/// other.
pub proof fn output_pays_its_own_address(
    tx: AddressTxView,
    address: Seq<char>,
    v: int,
    value: u64,
)
    ensures
        types::paid_by_output(tx, address, v) == Some(value) <==> 0 <= v < tx.vout.len()
            && tx.vout[v].scriptpubkey_address == Some(address) && tx.vout[v].value == value,
{
}

/// A transaction in the mempool has no confirmations, and neither has one in no
/// known block.
pub proof fn mempool_has_no_confirmations(status: TxStatusView, tip: u64)
    requires
        !status.confirmed || status.block_height is None,
    ensures
        types::depth(status, tip) == 0,
{
}

/// A confirmed transaction has one confirmation in the tip's own block, or above
/// a tip that lags, and one more for every block on top.
pub proof fn one_confirmation_per_block(status: TxStatusView, height: u64, tip: u64)
    requires
        status.confirmed,
        status.block_height == Some(height),
    ensures
        tip <= height ==> types::depth(status, tip) == 1,
        height <= tip && tip < u64::MAX ==> types::depth(status, (tip + 1) as u64)
            == types::depth(status, tip) + 1,
        height <= tip ==> types::depth(status, tip) + height == tip + 1,
{
}

/// The root of a host is the host itself, whole, whatever white space stands
/// before it and whatever white space and slashes behind it.
pub proof fn root_is_the_host(before: Seq<char>, host: Seq<char>, after: Seq<char>)
    requires
        text::laws::blank(before),
        text::laws::blank_or_slashes(after),
        host.len() > 0 ==> !text::is_space(host.first()) && !text::is_space(host.last())
            && host.last() != '/',
    ensures
        types::root(before + host + after) == host,
{
    let all = before + host + after;
    if host.len() > 0 {
        assert(all =~= before + (host + after));
        text::laws::start_is_cut(before, host + after);
        text::laws::bare_end_is_cut(host, after);
    } else {
        assert forall|i: int| 0 <= i < all.len() implies text::is_space(#[trigger] all[i])
            || all[i] == '/' by {
            if i < before.len() {
                assert(all[i] == before[i]);
            } else {
                assert(all[i] == after[i - before.len()]);
            }
        }
        cut_start_is_no_host(all);
        let rest = text::trim_start(all);
        text::laws::bare_end_is_cut(host, rest);
        assert(host + rest =~= rest);
    }
}

proof fn cut_start_is_no_host(s: Seq<char>)
    requires
        text::laws::blank_or_slashes(s),
    ensures
        text::laws::blank_or_slashes(text::trim_start(s)),
    decreases s.len(),
{
    if s.len() > 0 && text::is_space(s.first()) {
        let rest = s.drop_first();
        assert forall|i: int| 0 <= i < rest.len() implies text::is_space(#[trigger] rest[i])
            || rest[i] == '/' by {
            assert(rest[i] == s[i + 1]);
        }
        cut_start_is_no_host(rest);
    }
}

/// One more base adds its host at the end, unless it is blank or its host stands
/// there already; without any base there is no root.
pub proof fn one_more_base(
    bases: Seq<Seq<char>>,
    before: Seq<char>,
    host: Seq<char>,
    after: Seq<char>,
)
    requires
        text::laws::blank(before),
        text::laws::blank_or_slashes(after),
        host.len() > 0 ==> !text::is_space(host.first()) && !text::is_space(host.last())
            && host.last() != '/',
    ensures
        types::roots(Seq::empty()) == Seq::<Seq<char>>::empty(),
        types::roots(bases.push(before + host + after)) == if host.len() == 0 || types::roots(
            bases,
        ).contains(host) {
            types::roots(bases)
        } else {
            types::roots(bases).push(host)
        },
{
    root_is_the_host(before, host, after);
    assert(bases.push(before + host + after).drop_last() =~= bases);
}

} // verus!
