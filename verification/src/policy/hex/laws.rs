//! What reconciling a transaction's hex promises, over the text of the answers.

use vstd::prelude::*;

use crate::error::ErrorView;
use crate::policy::hex::HexAnswer;
#[allow(unused_imports)]
use crate::policy::{agreement, hex};
#[allow(unused_imports)]
use crate::text;

verus! {

/// What is returned is what a provider returned, character for character: where
/// an answer is `s` with nothing but white space around it, and the verdict does
/// not fail, it is `s`.
pub proof fn hex_is_returned_whole(
    txid: Seq<char>,
    a: Seq<HexAnswer>,
    r: Result<Option<Seq<char>>, ErrorView>,
    k: int,
    before: Seq<char>,
    s: Seq<char>,
    after: Seq<char>,
)
    requires
        hex::hex_verdict(txid, a, r),
        0 <= k < a.len(),
        a[k].1 == Some(before + s + after),
        text::laws::blank(before),
        text::laws::blank(after),
        s.len() > 0 ==> !text::is_space(s.first()) && !text::is_space(s.last()),
    ensures
        r is Err || r == Ok::<Option<Seq<char>>, ErrorView>(Some(s)),
{
    text::laws::trimming_gives_back_what_was_padded(before, s, after);
    hex::hex_from_one_provider_is_enough(txid, a, k, r);
}

/// The same of an answer that neither begins nor ends with white space: it is
/// returned as it stands.
pub proof fn bare_hex_is_returned_as_it_stands(
    txid: Seq<char>,
    a: Seq<HexAnswer>,
    r: Result<Option<Seq<char>>, ErrorView>,
    k: int,
)
    requires
        hex::hex_verdict(txid, a, r),
        0 <= k < a.len(),
        a[k].1 is Some,
        a[k].1->0.len() > 0 ==> !text::is_space(a[k].1->0.first()) && !text::is_space(
            a[k].1->0.last(),
        ),
    ensures
        r is Err || r == Ok::<Option<Seq<char>>, ErrorView>(a[k].1),
{
    let none = Seq::<char>::empty();
    assert(none + a[k].1->0 + none =~= a[k].1->0);
    hex_is_returned_whole(txid, a, r, k, none, a[k].1->0, none);
}

/// Two answers that differ at all, other than in the white space around them,
/// always fail.
pub proof fn any_difference_fails(
    txid: Seq<char>,
    a: Seq<HexAnswer>,
    r: Result<Option<Seq<char>>, ErrorView>,
    i: int,
    j: int,
)
    requires
        hex::hex_verdict(txid, a, r),
        0 <= i < a.len(),
        0 <= j < a.len(),
        a[i].1 is Some,
        a[j].1 is Some,
        a[i].1->0.len() > 0 ==> !text::is_space(a[i].1->0.first()) && !text::is_space(
            a[i].1->0.last(),
        ),
        a[j].1->0.len() > 0 ==> !text::is_space(a[j].1->0.first()) && !text::is_space(
            a[j].1->0.last(),
        ),
        a[i].1->0 != a[j].1->0,
    ensures
        r is Err,
{
    bare_hex_is_returned_as_it_stands(txid, a, r, i);
    bare_hex_is_returned_as_it_stands(txid, a, r, j);
}

/// White space and 404s are no difference: where every provider that has the
/// transaction returns `s`, whatever white space is around it, and one has it,
/// `s` is returned.
pub proof fn agreement_gives_the_hex(
    txid: Seq<char>,
    a: Seq<HexAnswer>,
    r: Result<Option<Seq<char>>, ErrorView>,
    s: Seq<char>,
)
    requires
        hex::hex_verdict(txid, a, r),
        forall|k: int|
            0 <= k < a.len() && (#[trigger] a[k]).1 is Some ==> text::trimmed(a[k].1->0) == s,
        exists|k: int| 0 <= k < a.len() && (#[trigger] a[k]).1 is Some,
    ensures
        r == Ok::<Option<Seq<char>>, ErrorView>(Some(s)),
{
    hex::hex_fails_iff_hex_differs(txid, a, r);
    let k = choose|k: int| 0 <= k < a.len() && (#[trigger] a[k]).1 is Some;
    let (before, after) = text::laws::every_text_is_padded(a[k].1->0);
    hex_is_returned_whole(txid, a, r, k, before, s, after);
}

/// Nothing is returned exactly when nobody has the transaction.
pub proof fn no_hex_only_from_nobody(
    txid: Seq<char>,
    a: Seq<HexAnswer>,
    r: Result<Option<Seq<char>>, ErrorView>,
)
    requires
        hex::hex_verdict(txid, a, r),
    ensures
        r is Ok && r->Ok_0 is None <==> forall|k: int|
            0 <= k < a.len() ==> (#[trigger] a[k]).1 is None,
{
    if r is Err {
        let (i, j) = choose|i: int, j: int| #[trigger] hex::hex_dispute(a, i, j);
        let point = hex::hex_point();
        assert(point(a[i]) is Some);
        assert(a[i].1 is Some);
    } else if r->Ok_0 is Some {
        let k = choose|k: int|
            0 <= k < a.len() && hex::hex_of(#[trigger] a[k]) == Some(r->Ok_0->0);
        assert(a[k].1 is Some);
    }
}

/// The error names the transaction and two providers that returned different
/// hex: the second is the first that contradicts, and the first is the last
/// before it that has the transaction.
pub proof fn difference_names_both_sides(txid: Seq<char>, a: Seq<HexAnswer>, e: ErrorView)
    requires
        hex::hex_verdict(txid, a, Err(e)),
    ensures
        exists|i: int, j: int|
            {
                &&& 0 <= i < j < a.len()
                &&& (#[trigger] a[i]).1 is Some
                &&& (#[trigger] a[j]).1 is Some
                &&& text::trimmed(a[i].1->0) != text::trimmed(a[j].1->0)
                &&& e == (ErrorView::BytesDisagreement { txid, a: a[i].0, b: a[j].0 })
                &&& forall|k: int|
                    0 <= k < j && (#[trigger] a[k]).1 is Some ==> k <= i && text::trimmed(
                        a[k].1->0,
                    ) == text::trimmed(a[i].1->0)
            },
{
    let (i, j) = choose|i: int, j: int| #[trigger]
        hex::hex_dispute(a, i, j) && e == (ErrorView::BytesDisagreement {
            txid,
            a: a[i].0,
            b: a[j].0,
        });
    let point = hex::hex_point();
    assert(point(a[i]) is Some && point(a[j]) is Some && point(a[i]) != point(a[j]));
    assert forall|k: int| 0 <= k < j && (#[trigger] a[k]).1 is Some implies k <= i
        && text::trimmed(a[k].1->0) == text::trimmed(a[i].1->0) by {
        assert(hex::hex_of(a[k]) is Some);
        assert(point(a[k]) == point(a[i]));
    }
}

} // verus!
