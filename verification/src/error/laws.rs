//! What the errors' messages promise.

use vstd::prelude::*;

use crate::error::{Error, ErrorView};
#[allow(unused_imports)]
use crate::error;
#[allow(unused_imports)]
use crate::text;
#[allow(unused_imports)]
use crate::types;

verus! {

/// What is said of an error is said of all its fields.
pub proof fn error_keeps_every_field(e: Error)
    ensures
        match e {
            Error::NoProviderAnswered { what, failures } => e@ == (ErrorView::NoProviderAnswered {
                what: what@,
                failures: failures@,
            }),
            Error::HeightDisagreement { txid, a, a_height, b, b_height } => e@ == (
            ErrorView::HeightDisagreement { txid: txid@, a: a@, a_height, b: b@, b_height }),
            Error::ValueDisagreement { txid, address, a, a_value, b, b_value } => e@ == (
            ErrorView::ValueDisagreement {
                txid: txid@,
                address: address@,
                a: a@,
                a_value,
                b: b@,
                b_value,
            }),
            Error::BytesDisagreement { txid, a, b } => e@ == (ErrorView::BytesDisagreement {
                txid: txid@,
                a: a@,
                b: b@,
            }),
            Error::SpenderDisagreement { outpoint, a, a_txid, b, b_txid } => e@ == (
            ErrorView::SpenderDisagreement {
                outpoint: outpoint@,
                a: a@,
                a_txid: types::laws::characters(a_txid),
                b: b@,
                b_txid: types::laws::characters(b_txid),
            }),
            Error::NotFound { what } => e@ == (ErrorView::NotFound { what: what@ }),
            Error::BroadcastRejected { failures } => e@ == (ErrorView::BroadcastRejected {
                failures: failures@,
            }),
            Error::NoProviders => e@ == ErrorView::NoProviders,
            Error::Http(message) => e@ == ErrorView::Http(message@),
        },
{
}

/// What is said of a result is said of the value or the error that it holds.
pub proof fn outcome_is_the_result<T: DeepView>(r: Result<T, Error>)
    ensures
        match r {
            Ok(v) => error::outcome(r) == Ok::<T::V, ErrorView>(v.deep_view()),
            Err(e) => error::outcome(r) == Err::<T::V, ErrorView>(e@),
        },
{
}

/// `all` holds `part`, which stands between `before` and `after`.
proof fn stands_between(all: Seq<char>, before: Seq<char>, part: Seq<char>, after: Seq<char>)
    requires
        all == before + part + after,
    ensures
        text::has_part(all, part),
{
    text::part_of_itself(part);
    text::part_of_longer(before, part, after, part);
}

/// The message about a question that nobody answered names the question, and
/// every failure whole.
pub proof fn message_tells_who_failed(what: Seq<char>, failures: Seq<char>)
    ensures
        text::has_part(
            error::error_text(ErrorView::NoProviderAnswered { what, failures }),
            what + ": "@ + failures,
        ),
{
    let all = error::error_text(ErrorView::NoProviderAnswered { what, failures });
    let none = Seq::<char>::empty();
    let start = "no esplora provider answered "@;
    assert(all =~= start + (what + ": "@ + failures) + none);
    stands_between(all, start, what + ": "@ + failures, none);
}

/// The message about different heights names the transaction, and says of each
/// provider which block it named.
#[verifier::spinoff_prover]
#[verifier::rlimit(40)]
pub proof fn message_tells_heights(
    txid: Seq<char>,
    a: Seq<char>,
    a_height: u64,
    b: Seq<char>,
    b_height: u64,
)
    ensures
        ({
            let e = ErrorView::HeightDisagreement { txid, a, a_height, b, b_height };
            &&& text::has_part(error::error_text(e), txid)
            &&& text::has_part(
                error::error_text(e),
                a + " says block "@ + text::decimal(a_height as nat),
            )
            &&& text::has_part(
                error::error_text(e),
                b + " says block "@ + text::decimal(b_height as nat),
            )
        }),
{
    let all = error::error_text(
        ErrorView::HeightDisagreement { txid, a, a_height, b, b_height },
    );
    let none = Seq::<char>::empty();
    let x = a + " says block "@ + text::decimal(a_height as nat);
    let y = b + " says block "@ + text::decimal(b_height as nat);
    let start = "providers disagree on where "@;
    assert(all =~= start + txid + (" is: "@ + x + ", "@ + y));
    stands_between(all, start, txid, " is: "@ + x + ", "@ + y);
    assert(all =~= (start + txid + " is: "@) + x + (", "@ + y));
    stands_between(all, start + txid + " is: "@, x, ", "@ + y);
    assert(all =~= (start + txid + " is: "@ + x + ", "@) + y + none);
    stands_between(all, start + txid + " is: "@ + x + ", "@, y, none);
}

/// The message about different values names the transaction and the address,
/// and says of each provider which value it named.
#[verifier::spinoff_prover]
#[verifier::rlimit(40)]
pub proof fn message_tells_values(
    txid: Seq<char>,
    address: Seq<char>,
    a: Seq<char>,
    a_value: u64,
    b: Seq<char>,
    b_value: u64,
)
    ensures
        ({
            let e = ErrorView::ValueDisagreement { txid, address, a, a_value, b, b_value };
            &&& text::has_part(error::error_text(e), txid + " paid "@ + address)
            &&& text::has_part(
                error::error_text(e),
                a + " says "@ + text::decimal(a_value as nat) + " sat"@,
            )
            &&& text::has_part(
                error::error_text(e),
                b + " says "@ + text::decimal(b_value as nat) + " sat"@,
            )
        }),
{
    let all = error::error_text(
        ErrorView::ValueDisagreement { txid, address, a, a_value, b, b_value },
    );
    let none = Seq::<char>::empty();
    let x = a + " says "@ + text::decimal(a_value as nat) + " sat"@;
    let y = b + " says "@ + text::decimal(b_value as nat) + " sat"@;
    let start = "providers disagree on what "@;
    let paid = txid + " paid "@ + address;
    reveal_strlit(" sat");
    reveal_strlit(" sat, ");
    reveal_strlit(", ");
    assert(" sat, "@ =~= " sat"@ + ", "@);
    assert(all =~= start + paid + (": "@ + x + ", "@ + y));
    stands_between(all, start, paid, ": "@ + x + ", "@ + y);
    assert(all =~= (start + paid + ": "@) + x + (", "@ + y));
    stands_between(all, start + paid + ": "@, x, ", "@ + y);
    assert(all =~= (start + paid + ": "@ + x + ", "@) + y + none);
    stands_between(all, start + paid + ": "@ + x + ", "@, y, none);
}

/// The message about different bytes names the transaction and both providers.
pub proof fn message_tells_bytes(txid: Seq<char>, a: Seq<char>, b: Seq<char>)
    ensures
        text::has_part(
            error::error_text(ErrorView::BytesDisagreement { txid, a, b }),
            txid + ": "@ + a + " and "@ + b,
        ),
{
    let all = error::error_text(ErrorView::BytesDisagreement { txid, a, b });
    let start = "providers disagree on the bytes of "@;
    let part = txid + ": "@ + a + " and "@ + b;
    assert(all =~= start + part + " returned different hex"@);
    stands_between(all, start, part, " returned different hex"@);
}

/// The message about different spenders names the output, and says of each
/// provider which spender it named, if any.
#[verifier::spinoff_prover]
#[verifier::rlimit(40)]
pub proof fn message_tells_spenders(
    outpoint: Seq<char>,
    a: Seq<char>,
    a_txid: Option<Seq<char>>,
    b: Seq<char>,
    b_txid: Option<Seq<char>>,
)
    ensures
        ({
            let e = ErrorView::SpenderDisagreement { outpoint, a, a_txid, b, b_txid };
            &&& text::has_part(error::error_text(e), outpoint)
            &&& text::has_part(error::error_text(e), a + " says "@ + error::spender_text(a_txid))
            &&& text::has_part(error::error_text(e), b + " says "@ + error::spender_text(b_txid))
        }),
        error::spender_text(None) == "None"@,
        a_txid is Some ==> text::has_part(
            error::spender_text(a_txid),
            text::debug_text(a_txid->0),
        ),
{
    let all = error::error_text(
        ErrorView::SpenderDisagreement { outpoint, a, a_txid, b, b_txid },
    );
    let none = Seq::<char>::empty();
    let x = a + " says "@ + error::spender_text(a_txid);
    let y = b + " says "@ + error::spender_text(b_txid);
    let start = "providers disagree on what spent "@;
    assert(all =~= start + outpoint + (": "@ + x + ", "@ + y));
    stands_between(all, start, outpoint, ": "@ + x + ", "@ + y);
    assert(all =~= (start + outpoint + ": "@) + x + (", "@ + y));
    stands_between(all, start + outpoint + ": "@, x, ", "@ + y);
    assert(all =~= (start + outpoint + ": "@ + x + ", "@) + y + none);
    stands_between(all, start + outpoint + ": "@ + x + ", "@, y, none);
    if a_txid is Some {
        stands_between(
            error::spender_text(a_txid),
            "Some("@,
            text::debug_text(a_txid->0),
            ")"@,
        );
    }
}

/// The other messages carry what they were given, whole.
pub proof fn message_carries_what_was_given(s: Seq<char>)
    ensures
        text::has_part(error::error_text(ErrorView::NotFound { what: s }), s),
        text::has_part(error::error_text(ErrorView::BroadcastRejected { failures: s }), s),
        error::error_text(ErrorView::Http(s)) == s,
{
    let none = Seq::<char>::empty();
    let found = error::error_text(ErrorView::NotFound { what: s });
    assert(found =~= none + s + " not found"@);
    stands_between(found, none, s, " not found"@);
    let rejected = error::error_text(ErrorView::BroadcastRejected { failures: s });
    assert(rejected =~= "no provider accepted the broadcast: "@ + s + none);
    stands_between(rejected, "no provider accepted the broadcast: "@, s, none);
}

} // verus!
