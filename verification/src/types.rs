//! The Esplora REST shapes this crate reads, and the answer type it reconciles.

use vstd::prelude::*;

use crate::text::{same_text, trim_bare};

pub mod laws;
pub mod route;

verus! {

/// Where a transaction sits, straight from the provider.
///
/// `block_height` is reported directly rather than derived from
/// tip-minus-confirmations, so a disagreement between providers about the tip
/// cannot corrupt it.
#[derive(Debug, Clone, PartialEq, Eq)]
pub struct TxStatus {
    pub confirmed: bool,
    pub block_height: Option<u64>,
    pub block_hash: Option<String>,
    pub block_time: Option<u64>,
}

/// A [`TxStatus`] with its texts as sequences of characters.
pub struct TxStatusView {
    pub confirmed: bool,
    pub block_height: Option<u64>,
    pub block_hash: Option<Seq<char>>,
    pub block_time: Option<u64>,
}

impl DeepView for TxStatus {
    type V = TxStatusView;

    open spec fn deep_view(&self) -> TxStatusView {
        TxStatusView {
            confirmed: self.confirmed,
            block_height: self.block_height,
            block_hash: self.block_hash.deep_view(),
            block_time: self.block_time,
        }
    }
}

/// A transaction as `/tx/:txid` reports it.
#[derive(Debug, Clone, PartialEq, Eq)]
pub struct TxInfo {
    pub txid: String,
    pub status: TxStatus,
}

/// A [`TxInfo`] with its texts as sequences of characters.
pub struct TxInfoView {
    pub txid: Seq<char>,
    pub status: TxStatusView,
}

impl DeepView for TxInfo {
    type V = TxInfoView;

    open spec fn deep_view(&self) -> TxInfoView {
        TxInfoView { txid: self.txid@, status: self.status.deep_view() }
    }
}

/// What spent an output, if anything.
///
/// Covers mempool spenders as well as confirmed ones, which is what makes a
/// mempool-and-block scan unnecessary: one request answers "has this been
/// spent, and by what".
#[derive(Debug, Clone, PartialEq, Eq)]
pub struct Outspend {
    pub spent: bool,
    /// Spending txid. Present iff `spent`.
    pub txid: Option<String>,
    pub status: Option<TxStatus>,
}

/// An [`Outspend`] with its texts as sequences of characters.
pub struct OutspendView {
    pub spent: bool,
    pub txid: Option<Seq<char>>,
    pub status: Option<TxStatusView>,
}

impl DeepView for Outspend {
    type V = OutspendView;

    open spec fn deep_view(&self) -> OutspendView {
        OutspendView {
            spent: self.spent,
            txid: self.txid.deep_view(),
            status: self.status.deep_view(),
        }
    }
}

/// One output of a transaction, as `/address/:addr/txs` reports it.
#[derive(Debug, Clone, PartialEq, Eq)]
pub struct Vout {
    /// The address this output pays, when Esplora can decode one.
    pub scriptpubkey_address: Option<String>,
    /// Value in satoshis.
    pub value: u64,
}

/// A [`Vout`] with its texts as sequences of characters.
pub struct VoutView {
    pub scriptpubkey_address: Option<Seq<char>>,
    pub value: u64,
}

impl DeepView for Vout {
    type V = VoutView;

    open spec fn deep_view(&self) -> VoutView {
        VoutView {
            scriptpubkey_address: self.scriptpubkey_address.deep_view(),
            value: self.value,
        }
    }
}

/// A transaction touching a watched address.
///
/// Only the fields a watcher reads: which transaction, whether it has landed,
/// and what it paid.
#[derive(Debug, Clone, PartialEq, Eq)]
pub struct AddressTx {
    pub txid: String,
    pub status: TxStatus,
    pub vout: Vec<Vout>,
}

/// An [`AddressTx`] with its texts as sequences of characters.
pub struct AddressTxView {
    pub txid: Seq<char>,
    pub status: TxStatusView,
    pub vout: Seq<VoutView>,
}

impl DeepView for AddressTx {
    type V = AddressTxView;

    open spec fn deep_view(&self) -> AddressTxView {
        AddressTxView {
            txid: self.txid@,
            status: self.status.deep_view(),
            vout: self.vout.deep_view(),
        }
    }
}

/// `i` is the first output of `tx` that pays `address`.
pub open spec fn is_output_to(tx: AddressTxView, address: Seq<char>, i: int) -> bool {
    &&& 0 <= i < tx.vout.len()
    &&& tx.vout[i].scriptpubkey_address == Some(address)
    &&& forall|j: int|
        0 <= j < i ==> (#[trigger] tx.vout[j]).scriptpubkey_address != Some(address)
}

/// Some output of `tx` pays `address`.
pub open spec fn pays(tx: AddressTxView, address: Seq<char>) -> bool {
    exists|i: int|
        0 <= i < tx.vout.len() && (#[trigger] tx.vout[i]).scriptpubkey_address == Some(address)
}

/// What the first output of `tx` that pays `address` pays it.
pub open spec fn paid(tx: AddressTxView, address: Seq<char>) -> u64 {
    tx.vout[choose|i: int| is_output_to(tx, address, i)].value
}

/// Output `i` is there, and its address is `address`.
pub open spec fn names(vout: Seq<Vout>, address: Seq<char>, i: int) -> bool {
    0 <= i < vout.len() && (vout[i].scriptpubkey_address matches Some(to) && to@ == address)
}

/// What output `v` of `tx` pays `address`, where there is one that does.
pub open spec fn paid_by_output(tx: AddressTxView, address: Seq<char>, v: int) -> Option<u64> {
    if 0 <= v < tx.vout.len() && tx.vout[v].scriptpubkey_address == Some(address) {
        Some(tx.vout[v].value)
    } else {
        None
    }
}

impl AddressTx {
    /// The first output paying `address`, with its index.
    ///
    /// First, not the sum: a deposit is one output, and a transaction that pays
    /// the same address twice is not something a watcher should quietly total
    /// up.
    pub fn output_to(&self, address: &str) -> (r: Option<(u32, &Vout)>)
        ensures
            match r {
                Some((index, out)) => pays(self.deep_view(), address@) && exists|i: int|
                    #[trigger] is_output_to(self.deep_view(), address@, i) && index == i as u32
                        && out.deep_view() == self.deep_view().vout[i],
                None => !pays(self.deep_view(), address@),
            },
            r matches Some((_, out)) ==> out.value == paid(self.deep_view(), address@),
            r is Some <==> exists|i: int| #[trigger] names(self.vout@, address@, i),
            r matches Some((index, out)) ==> exists|i: int| #[trigger]
                names(self.vout@, address@, i) && index == i as u32 && *out == self.vout@[i]
                    && forall|j: int| 0 <= j < i ==> !#[trigger] names(self.vout@, address@, j),
    {
        let ghost tx = self.deep_view();
        let mut i: usize = 0;
        while i < self.vout.len()
            invariant
                i <= self.vout.len(),
                tx == self.deep_view(),
                forall|j: int|
                    0 <= j < i ==> (#[trigger] tx.vout[j]).scriptpubkey_address != Some(address@),
                forall|j: int| 0 <= j < i ==> !#[trigger] names(self.vout@, address@, j),
            decreases self.vout.len() - i,
        {
            let out = &self.vout[i];
            assert(tx.vout[i as int] == out.deep_view());
            if let Some(to) = &out.scriptpubkey_address {
                if same_text(to.as_str(), address) {
                    proof {
                        assert(names(self.vout@, address@, i as int));
                        assert(is_output_to(tx, address@, i as int));
                        only_first_output(tx, address@, i as int);
                    }
                    return Some((i as u32, out));
                }
            }
            i = i + 1;
        }
        None
    }
}

/// A transaction that pays an address has a first output to it.
pub proof fn first_output_exists(tx: AddressTxView, address: Seq<char>) -> (i: int)
    requires
        pays(tx, address),
    ensures
        is_output_to(tx, address, i),
{
    let k = choose|k: int|
        0 <= k < tx.vout.len() && (#[trigger] tx.vout[k]).scriptpubkey_address == Some(address);
    first_output_up_to(tx, address, k)
}

proof fn first_output_up_to(tx: AddressTxView, address: Seq<char>, k: int) -> (i: int)
    requires
        0 <= k < tx.vout.len(),
        tx.vout[k].scriptpubkey_address == Some(address),
    ensures
        is_output_to(tx, address, i),
    decreases k,
{
    if exists|j: int| 0 <= j < k && (#[trigger] tx.vout[j]).scriptpubkey_address == Some(address) {
        let j = choose|j: int|
            0 <= j < k && (#[trigger] tx.vout[j]).scriptpubkey_address == Some(address);
        first_output_up_to(tx, address, j)
    } else {
        k
    }
}

/// What the first output to an address pays is what is paid.
pub proof fn only_first_output(tx: AddressTxView, address: Seq<char>, i: int)
    requires
        is_output_to(tx, address, i),
    ensures
        paid(tx, address) == tx.vout[i].value,
{
    let k = choose|k: int| is_output_to(tx, address, k);
    if k < i {
        assert(tx.vout[k].scriptpubkey_address != Some(address));
    } else if i < k {
        assert(tx.vout[i].scriptpubkey_address != Some(address));
    }
}

/// One provider's answer to one question.
///
/// `None` is an answer (a 404, the chain saying it has never heard of the
/// thing) and is deliberately distinct from a provider that could not be
/// reached, which never becomes an `Answer` at all. Conflating the two is how a
/// lagging provider turns into "the transaction does not exist".
pub type Answer<T> = (String, Option<T>);

/// How many blocks deep a transaction of this status is under `tip`: none while
/// it is in the mempool, and at least one once it is in a block.
pub open spec fn depth(status: TxStatusView, tip: u64) -> int {
    match status.block_height {
        Some(h) if status.confirmed => if tip >= h {
            tip - h + 1
        } else {
            1
        },
        _ => 0,
    }
}

/// Confirmations for a transaction against an agreed tip: 0 while it is in the
/// mempool.
///
/// Uses the provider's own `block_height`, so a provider lying about the tip
/// cannot inflate the depth of a transaction it reported honestly.
pub fn confirmations(info: &TxInfo, tip: u64) -> (r: u64)
    requires
        depth(info.deep_view().status, tip) <= u64::MAX,
    ensures
        r == depth(info.deep_view().status, tip),
        info.status.confirmed && info.status.block_height is Some ==> r + info.status.block_height->0
            == if tip >= info.status.block_height->0 {
            tip + 1
        } else {
            info.status.block_height->0 + 1
        },
        !info.status.confirmed || info.status.block_height is None ==> r == 0,
{
    match info.status.block_height {
        Some(h) if info.status.confirmed => tip.saturating_sub(h) + 1,
        _ => 0,
    }
}

/// A provider root as it is kept: without the white space around it and the
/// slashes that end it, however the two are mixed there.
pub open spec fn root(base: Seq<char>) -> Seq<char> {
    crate::text::bare_end(crate::text::trim_start(base))
}

/// The provider roots that `bases` names: each one's [`root`], in order, blanks
/// and those that stand earlier left out.
pub open spec fn roots(bases: Seq<Seq<char>>) -> Seq<Seq<char>>
    decreases bases.len(),
{
    if bases.len() == 0 {
        Seq::empty()
    } else {
        let kept = roots(bases.drop_last());
        let next = root(bases.last());
        if next.len() == 0 || kept.contains(next) {
            kept
        } else {
            kept.push(next)
        }
    }
}

/// No root is blank, and none stands twice.
pub proof fn roots_are_distinct(bases: Seq<Seq<char>>)
    ensures
        forall|i: int| 0 <= i < roots(bases).len() ==> (#[trigger] roots(bases)[i]).len() > 0,
        roots(bases).no_duplicates(),
    decreases bases.len(),
{
    if bases.len() > 0 {
        roots_are_distinct(bases.drop_last());
    }
}

/// Normalise provider roots: surrounding whitespace and trailing slashes
/// removed, blanks dropped, duplicates dropped, order kept.
///
/// Whitespace is trimmed before the blank test, so an all-space entry, the
/// shape a stray comma in a config list produces, is dropped rather than
/// becoming a provider whose every URL starts with a space.
///
/// Duplicates go because the count is load-bearing: one host listed three
/// times is one provider, and leaving it as three would silence
/// [`crate::policy::quorum_warning`] on a deployment that has no quorum at all.
pub fn normalise(bases: Vec<String>) -> (out: Vec<String>)
    ensures
        out.deep_view() == roots(bases.deep_view()),
{
    let mut out: Vec<String> = Vec::new();
    let mut i: usize = 0;
    assert(out.deep_view() =~= roots(bases.deep_view().take(0)));
    while i < bases.len()
        invariant
            i <= bases.len(),
            out.deep_view() == roots(bases.deep_view().take(i as int)),
        decreases bases.len() - i,
    {
        let base = trim_bare(bases[i].as_str());
        proof {
            let seen = bases.deep_view().take(i + 1);
            assert(seen.drop_last() =~= bases.deep_view().take(i as int));
            assert(seen.last() == bases@[i as int]@);
        }
        if !base.is_empty() && !lists(&out, base) {
            let ghost before = out.deep_view();
            out.push(base.to_owned());
            assert(out.deep_view() =~= before.push(base@));
        }
        i = i + 1;
    }
    assert(bases.deep_view().take(i as int) =~= bases.deep_view());
    out
}

/// Whether `list` holds `entry`.
fn lists(list: &Vec<String>, entry: &str) -> (r: bool)
    ensures
        r == list.deep_view().contains(entry@),
{
    let mut i: usize = 0;
    while i < list.len()
        invariant
            i <= list.len(),
            forall|j: int| 0 <= j < i ==> #[trigger] list.deep_view()[j] != entry@,
        decreases list.len() - i,
    {
        assert(list.deep_view()[i as int] == list@[i as int]@);
        if same_text(list[i].as_str(), entry) {
            return true;
        }
        i = i + 1;
    }
    false
}

/// Every root that is not blank is kept.
pub proof fn every_root_is_kept(bases: Seq<Seq<char>>, i: int)
    requires
        0 <= i < bases.len(),
        root(bases[i]).len() > 0,
    ensures
        roots(bases).contains(root(bases[i])),
    decreases bases.len(),
{
    let kept = roots(bases.drop_last());
    let all = roots(bases);
    if i < bases.len() - 1 {
        every_root_is_kept(bases.drop_last(), i);
        let k = choose|k: int| 0 <= k < kept.len() && kept[k] == root(bases[i]);
        assert(all[k] == root(bases[i]));
    } else if !kept.contains(root(bases[i])) {
        assert(all[kept.len() as int] == root(bases[i]));
    }
}

/// Nothing is made up: every root kept is the root of one that was given.
pub proof fn no_root_is_made_up(bases: Seq<Seq<char>>, k: int)
    requires
        0 <= k < roots(bases).len(),
    ensures
        exists|i: int| 0 <= i < bases.len() && root(#[trigger] bases[i]) == roots(bases)[k],
    decreases bases.len(),
{
    let rest = bases.drop_last();
    let kept = roots(rest);
    if k < kept.len() {
        no_root_is_made_up(rest, k);
        let i = choose|i: int| 0 <= i < rest.len() && root(#[trigger] rest[i]) == kept[k];
        assert(bases[i] == rest[i]);
    } else {
        assert(root(bases[bases.len() - 1]) == roots(bases)[k]);
    }
}

/// The order is kept: the roots of the first `n` come first.
pub proof fn root_order_is_kept(bases: Seq<Seq<char>>, n: int)
    requires
        0 <= n <= bases.len(),
    ensures
        roots(bases.take(n)).is_prefix_of(roots(bases)),
    decreases bases.len(),
{
    if n == bases.len() {
        assert(bases.take(n) =~= bases);
    } else {
        root_order_is_kept(bases.drop_last(), n);
        assert(bases.drop_last().take(n) =~= bases.take(n));
    }
}

/// One host listed many times is one provider.
pub proof fn one_host_is_one_provider(bases: Seq<Seq<char>>, host: Seq<char>)
    requires
        forall|i: int| 0 <= i < bases.len() ==> root(#[trigger] bases[i]) == host,
    ensures
        roots(bases).len() <= 1,
{
    roots_are_distinct(bases);
    if roots(bases).len() > 1 {
        no_root_is_made_up(bases, 0);
        no_root_is_made_up(bases, 1);
        assert(roots(bases)[0] == roots(bases)[1]);
    }
}

/// A root does not begin with white space, and ends neither with white space nor
/// with a slash.
pub proof fn root_is_bare(base: Seq<char>)
    ensures
        root(base).len() > 0 ==> {
            &&& !crate::text::is_space(root(base).first())
            &&& !crate::text::is_space(root(base).last())
            &&& root(base).last() != '/'
        },
{
    trim_start_is_bare(base);
    bare_end_is_bare(crate::text::trim_start(base));
}

proof fn trim_start_is_bare(s: Seq<char>)
    ensures
        crate::text::trim_start(s).len() > 0 ==> !crate::text::is_space(
            crate::text::trim_start(s).first(),
        ),
    decreases s.len(),
{
    if s.len() > 0 && crate::text::is_space(s.first()) {
        trim_start_is_bare(s.drop_first());
    }
}

proof fn bare_end_is_bare(s: Seq<char>)
    ensures
        crate::text::bare_end(s).is_prefix_of(s),
        crate::text::bare_end(s).len() > 0 ==> !crate::text::is_space(
            crate::text::bare_end(s).last(),
        ) && crate::text::bare_end(s).last() != '/',
    decreases s.len(),
{
    if s.len() > 0 && (crate::text::is_space(s.last()) || s.last() == '/') {
        bare_end_is_bare(s.drop_last());
    }
}

/// White space before a root, and white space or a slash after it, make no
/// other root.
pub proof fn spelling_does_not_matter(base: Seq<char>, c: char)
    ensures
        crate::text::is_space(c) || c == '/' ==> root(base.push(c)) == root(base),
        crate::text::is_space(c) ==> root(seq![c] + base) == root(base),
{
    if crate::text::is_space(c) {
        assert((seq![c] + base).drop_first() =~= base);
    }
    if crate::text::is_space(c) || c == '/' {
        longer_end_is_cut(base, c);
    }
}

proof fn longer_end_is_cut(base: Seq<char>, c: char)
    requires
        crate::text::is_space(c) || c == '/',
    ensures
        root(base.push(c)) == root(base),
    decreases base.len(),
{
    let longer = base.push(c);
    if base.len() > 0 && crate::text::is_space(base.first()) {
        assert(longer.drop_first() =~= base.drop_first().push(c));
        longer_end_is_cut(base.drop_first(), c);
    } else {
        assert(longer.drop_last() =~= base);
        if base.len() == 0 {
            assert(longer.drop_first() =~= base);
        }
    }
}

/// Normalising twice is normalising once.
pub proof fn normalising_twice_changes_nothing(bases: Seq<Seq<char>>)
    ensures
        roots(roots(bases)) == roots(bases),
{
    let r = roots(bases);
    roots_are_distinct(bases);
    assert forall|k: int| 0 <= k < r.len() implies root(#[trigger] r[k]) == r[k] by {
        no_root_is_made_up(bases, k);
        let i = choose|i: int| 0 <= i < bases.len() && root(#[trigger] bases[i]) == r[k];
        root_is_bare(bases[i]);
    }
    own_roots_are_kept(r, r.len() as int);
    assert(r.take(r.len() as int) =~= r);
}

proof fn own_roots_are_kept(r: Seq<Seq<char>>, n: int)
    requires
        0 <= n <= r.len(),
        forall|k: int| 0 <= k < r.len() ==> root(#[trigger] r[k]) == r[k] && r[k].len() > 0,
        r.no_duplicates(),
    ensures
        roots(r.take(n)) == r.take(n),
    decreases n,
{
    if n > 0 {
        own_roots_are_kept(r, n - 1);
        assert(r.take(n).drop_last() =~= r.take(n - 1));
        assert(r.take(n).last() == r[n - 1]);
        if r.take(n - 1).contains(r[n - 1]) {
            let earlier = r.take(n - 1);
            let last = r[n - 1];
            let k = choose|k: int| 0 <= k < earlier.len() && earlier[k] == last;
            assert(r[k] == r[n - 1]);
        }
        assert(r.take(n) =~= r.take(n - 1).push(r[n - 1]));
    } else {
        assert(r.take(0) =~= Seq::empty());
    }
}

/// A transaction has confirmations exactly when it is confirmed in a known
/// block; in the tip's block it has one, and a higher tip never takes one away.
pub proof fn depth_follows_the_tip(status: TxStatusView, tip: u64, higher: u64)
    requires
        tip <= higher,
    ensures
        depth(status, tip) > 0 <==> status.confirmed && status.block_height is Some,
        status.confirmed && status.block_height == Some(tip) ==> depth(status, tip) == 1,
        depth(status, tip) <= depth(status, higher),
{
}

} // verus!
