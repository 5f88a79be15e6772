//! The rules. Every one of them is a pure function over answers already
//! collected, so the policy can be tested without a network, and understood
//! without reading an HTTP client.
//!
//! The rules are asymmetric on purpose, because the failure modes are. An
//! unnoticed dropped broadcast or a wrong height can cost a user their money,
//! while an extra HTTP request costs nothing.

use vstd::prelude::*;
use vstd::string::StringExecFns;

use crate::error::{Error, ErrorView};
use crate::text::{contains_part, decimal_text, join, lower_chars};
use crate::types::Answer;

pub mod address;
pub mod agreement;
pub mod hex;
pub mod laws;
pub mod outspend;
pub mod tip;
pub mod tx;

pub use address::reconcile_address_txs;
pub use hex::reconcile_hex;
pub use outspend::{reconcile_outspend, Spend};
pub use tip::{agreed_tip, MAX_TIP_SKEW};
pub use tx::reconcile_tx;

verus! {

/// Below this, "drop the outlier and trust the majority" is not available: two
/// providers can only agree or disagree, never out-vote each other.
pub const MIN_PROVIDERS_FOR_MAJORITY: usize = 3;

/// What is said to whoever configures `providers` providers, too few.
pub open spec fn warning_text(providers: usize) -> Seq<char> {
    "only "@ + crate::text::decimal(providers as nat)
        + " esplora provider(s) configured; the tip outlier filter needs "@ + crate::text::decimal(
        MIN_PROVIDERS_FOR_MAJORITY as nat,
    ) + " to out-vote a liar and is a no-op below that"@
}

/// A warning when there are too few providers for the outlier filter to do
/// anything.
///
/// [`MAX_TIP_SKEW`] drops heights above the median, and with two providers the
/// median IS the higher of the two, so nothing is ever filtered and a single
/// provider reporting a wrong tip decides when a timelock has elapsed. A
/// deployment should learn that at startup, not from a lost refund.
pub fn quorum_warning(providers: usize) -> (r: Option<String>)
    ensures
        match r {
            Some(warning) => providers < MIN_PROVIDERS_FOR_MAJORITY && warning@ == warning_text(
                providers,
            ),
            None => providers >= MIN_PROVIDERS_FOR_MAJORITY,
        },
        r is Some <==> providers < 3,
{
    if providers < MIN_PROVIDERS_FOR_MAJORITY {
        Some(
            "only ".to_owned().concat(decimal_text(providers as u64).as_str()).concat(
                " esplora provider(s) configured; the tip outlier filter needs ",
            ).concat(decimal_text(MIN_PROVIDERS_FOR_MAJORITY as u64).as_str()).concat(
                " to out-vote a liar and is a no-op below that",
            ),
        )
    } else {
        None
    }
}

/// One provider's result: its name, and its answer or the text of its error.
pub type Fetched<T> = (String, Result<Option<T>, String>);

/// The answers among the results, in order.
pub open spec fn answers_of<T>(results: Seq<Fetched<T>>) -> Seq<Answer<T>> {
    results.filter_map(
        |x: Fetched<T>|
            match x.1 {
                Ok(answer) => Some((x.0, answer)),
                Err(_) => None,
            },
    )
}

/// The failures among the results, in order, each with its provider.
pub open spec fn failures_of<T>(results: Seq<Fetched<T>>) -> Seq<Seq<char>> {
    results.filter_map(
        |x: Fetched<T>|
            match x.1 {
                Ok(_) => None,
                Err(text) => Some(x.0@ + ": "@ + text@),
            },
    )
}

/// The error of a question that not one provider answered.
pub open spec fn unanswered<T>(what: Seq<char>, results: Seq<Fetched<T>>) -> ErrorView {
    ErrorView::NoProviderAnswered {
        what,
        failures: crate::text::joined(failures_of(results), "; "@),
    }
}

/// What is collected of the results: all answers and all failures, unless there
/// is no answer at all.
pub open spec fn collects<T>(
    what: Seq<char>,
    results: Seq<Fetched<T>>,
    r: Result<(Vec<Answer<T>>, Vec<String>), Error>,
) -> bool {
    match r {
        Ok((answers, failures)) => {
            &&& answers_of(results).len() > 0
            &&& answers@ == answers_of(results)
            &&& failures.deep_view() == failures_of(results)
        },
        Err(e) => answers_of(results).len() == 0 && e@ == unanswered(what, results),
    }
}

/// `rendered` is `results` with each error as `Display` writes it.
pub open spec fn renders<T, E: core::fmt::Display>(
    results: Seq<(String, Result<Option<T>, E>)>,
    rendered: Seq<Fetched<T>>,
) -> bool {
    &&& rendered.len() == results.len()
    &&& forall|i: int|
        0 <= i < results.len() ==> (#[trigger] rendered[i]).0 == results[i].0 && match results[i].1 {
            Ok(answer) => rendered[i].1 == Ok::<Option<T>, String>(answer),
            Err(e) => rendered[i].1 matches Err(text)
                && vstd::string::to_string_from_display_ensures::<E>(&e, text),
        }
}

/// Turn per-provider results into the answers to reconcile.
///
/// An error only when NOT ONE provider answered, since "all down" and "one
/// down" call for different responses. A 404 rides through as `(base, None)`
/// because it is an answer (the chain saying no), not a failure to ask.
///
/// Returns the answers and the failures, so a caller can log the partial
/// outage without this crate choosing how.
pub fn collect<T, E: core::fmt::Display>(
    what: &str,
    results: Vec<(String, Result<Option<T>, E>)>,
) -> (r: Result<(Vec<Answer<T>>, Vec<String>), Error>)
    ensures
        exists|rendered: Seq<Fetched<T>>| #[trigger]
            renders(results@, rendered) && collects(what@, rendered, r),
        r is Err <==> forall|i: int| 0 <= i < results@.len() ==> (#[trigger] results@[i]).1 is Err,
        r matches Ok((answers, failures)) ==> {
            &&& answers@.len() + failures@.len() == results@.len()
            &&& forall|i: int|
                0 <= i < results@.len() && (#[trigger] results@[i]).1 is Ok
                    ==> answers@[laws::answers_before(results@, i)] == (
                    results@[i].0,
                    results@[i].1->Ok_0,
                )
        },
{
    let mut rendered: Vec<Fetched<T>> = Vec::new();
    for result in it: results
        invariant
            it.seq() == results@,
            renders(results@.take(it.index()), rendered@),
    {
        let (base, res) = result;
        match res {
            Ok(answer) => {
                rendered.push((base, Ok(answer)));
            },
            Err(e) => {
                rendered.push((base, Err(e.to_string())));
            },
        }
    }
    assert(results@.take(results@.len() as int) =~= results@);
    let ghost written = rendered@;
    let r = collect_rendered(what, rendered);
    proof {
        assert(renders(results@, written));
        collect_fails_iff_nobody_answered(what@, written, r);
        assert forall|i: int| 0 <= i < results@.len() implies (#[trigger] results@[i]).1 is Ok == (
        written[i].1 is Ok) by {
            laws::rendering_keeps_every_answer(results@, written, i);
        }
        if r is Ok {
            let (answers, failures) = r->Ok_0;
            every_result_is_kept(written);
            assert(failures.deep_view().len() == failures@.len());
            assert forall|i: int|
                0 <= i < results@.len() && (#[trigger] results@[i]).1 is Ok implies answers@[
                laws::answers_before(results@, i)] == (results@[i].0, results@[i].1->Ok_0) by {
                laws::rendering_keeps_every_answer(results@, written, i);
                laws::collecting_keeps_every_result_in_its_place(
                    what@,
                    written,
                    answers,
                    failures,
                    i,
                );
            }
        }
    }
    r
}

/// [`collect`], of results whose errors are text.
pub fn collect_rendered<T>(what: &str, results: Vec<Fetched<T>>) -> (r: Result<
    (Vec<Answer<T>>, Vec<String>),
    Error,
>)
    ensures
        collects(what@, results@, r),
{
    let mut answers: Vec<Answer<T>> = Vec::new();
    let mut failures: Vec<String> = Vec::new();
    let ghost given = results@;
    assert(given.take(0) =~= Seq::empty());
    for result in it: results
        invariant
            it.seq() == given,
            answers@ == answers_of(given.take(it.index())),
            failures.deep_view() == failures_of(given.take(it.index())),
    {
        let ghost n = it.index();
        let ghost before = failures.deep_view();
        proof {
            assert(given.take(n + 1).drop_last() =~= given.take(n));
            assert(given.take(n + 1).last() == given[n]);
        }
        let (base, res) = result;
        match res {
            Ok(answer) => {
                answers.push((base, answer));
            },
            Err(text) => {
                failures.push(base.concat(": ").concat(text.as_str()));
                assert(failures.deep_view() =~= before.push(given[n].0@ + ": "@ + text@));
            },
        }
    }
    assert(given.take(given.len() as int) =~= given);
    if answers.is_empty() {
        return Err(
            Error::NoProviderAnswered { what: what.to_owned(), failures: join(&failures, "; ") },
        );
    }
    Ok((answers, failures))
}

/// The wordings with which a node says that it already has a transaction.
pub open spec fn known_wordings() -> Seq<Seq<char>> {
    seq![
        "txn-already-in-mempool"@,
        "txn-already-known"@,
        "transaction already in block chain"@,
        "transaction already in mempool"@,
        "already in mempool"@,
        "already have transaction"@,
        "transaction outputs already in utxo set"@,
    ]
}

/// `msg` holds one of the known wordings, in whatever case.
pub open spec fn says_already_known(msg: Seq<char>) -> bool {
    exists|i: int|
        0 <= i < known_wordings().len() && crate::text::has_part(
            crate::text::lowered(msg),
            #[trigger] known_wordings()[i],
        )
}

/// Does this rejection mean "we already have it"?
///
/// Matched against the KNOWN wordings, not the bare word "already": a bare
/// substring match swallows real rejections that merely mention it, and a
/// caller uses this to decide whether a failed broadcast is routine or an
/// emergency.
pub fn is_already_known(msg: &str) -> (r: bool)
    ensures
        r == says_already_known(msg@),
{
    let m = lower_chars(msg);
    let known: Vec<&str> = vec![
        "txn-already-in-mempool",
        "txn-already-known",
        "transaction already in block chain",
        "transaction already in mempool",
        // bitcoind's RPC wrapper around the two mempool rejects above.
        "already in mempool",
        "already have transaction",
        // bitcoind >= 25 for an already-mined transaction.
        "transaction outputs already in utxo set",
    ];
    let mut i: usize = 0;
    while i < known.len()
        invariant
            i <= known.len(),
            m@ == crate::text::lowered(msg@),
            known.len() == known_wordings().len(),
            forall|j: int| 0 <= j < known.len() ==> #[trigger] known_wordings()[j] == known@[j]@,
            forall|j: int|
                0 <= j < i ==> !crate::text::has_part(m@, #[trigger] known_wordings()[j]),
        decreases known.len() - i,
    {
        assert(known_wordings()[i as int] == known@[i as int]@);
        if contains_part(&m, known[i]) {
            return true;
        }
        i = i + 1;
    }
    false
}

/// Collecting fails exactly when not one provider answered: one that did is
/// enough, and a 404 is an answer.
pub proof fn collect_fails_iff_nobody_answered<T>(
    what: Seq<char>,
    results: Seq<Fetched<T>>,
    r: Result<(Vec<Answer<T>>, Vec<String>), Error>,
)
    requires
        collects(what, results, r),
    ensures
        r is Err <==> forall|i: int| 0 <= i < results.len() ==> (#[trigger] results[i]).1 is Err,
{
    if answers_of(results).len() == 0 {
        assert forall|i: int| 0 <= i < results.len() implies (#[trigger] results[i]).1 is Err by {
            if results[i].1 is Ok {
                answer_is_kept(results, i);
            }
        }
    } else {
        if forall|i: int| 0 <= i < results.len() ==> (#[trigger] results[i]).1 is Err {
            only_failures(results);
        }
    }
}

/// Nothing is dropped: every result ends up among the answers or among the
/// failures.
pub proof fn every_result_is_kept<T>(results: Seq<Fetched<T>>)
    ensures
        answers_of(results).len() + failures_of(results).len() == results.len(),
        forall|i: int|
            0 <= i < results.len() ==> match (#[trigger] results[i]).1 {
                Ok(answer) => answers_of(results).contains((results[i].0, answer)),
                Err(text) => failures_of(results).contains(results[i].0@ + ": "@ + text@),
            },
    decreases results.len(),
{
    if results.len() > 0 {
        every_result_is_kept(results.drop_last());
    }
    assert forall|i: int| 0 <= i < results.len() implies match (#[trigger] results[i]).1 {
        Ok(answer) => answers_of(results).contains((results[i].0, answer)),
        Err(text) => failures_of(results).contains(results[i].0@ + ": "@ + text@),
    } by {
        if results[i].1 is Ok {
            answer_is_kept(results, i);
        } else {
            failure_is_kept(results, i);
        }
    }
}

proof fn answer_is_kept<T>(results: Seq<Fetched<T>>, i: int)
    requires
        0 <= i < results.len(),
        results[i].1 is Ok,
    ensures
        answers_of(results).contains((results[i].0, results[i].1->Ok_0)),
    decreases results.len(),
{
    let rest = answers_of(results.drop_last());
    let all = answers_of(results);
    let item = (results[i].0, results[i].1->Ok_0);
    if i < results.len() - 1 {
        answer_is_kept(results.drop_last(), i);
        let k = choose|k: int| 0 <= k < rest.len() && rest[k] == item;
        assert(all[k] == item);
    } else {
        assert(all[rest.len() as int] == item);
    }
}

proof fn failure_is_kept<T>(results: Seq<Fetched<T>>, i: int)
    requires
        0 <= i < results.len(),
        results[i].1 is Err,
    ensures
        failures_of(results).contains(results[i].0@ + ": "@ + results[i].1->Err_0@),
    decreases results.len(),
{
    let rest = failures_of(results.drop_last());
    let all = failures_of(results);
    let item = results[i].0@ + ": "@ + results[i].1->Err_0@;
    if i < results.len() - 1 {
        failure_is_kept(results.drop_last(), i);
        let k = choose|k: int| 0 <= k < rest.len() && rest[k] == item;
        assert(all[k] == item);
    } else {
        assert(all[rest.len() as int] == item);
    }
}

proof fn only_failures<T>(results: Seq<Fetched<T>>)
    requires
        forall|i: int| 0 <= i < results.len() ==> (#[trigger] results[i]).1 is Err,
    ensures
        answers_of(results).len() == 0,
    decreases results.len(),
{
    if results.len() > 0 {
        only_failures(results.drop_last());
        assert(results.last().1 is Err);
    }
}

/// Not one provider answering is an error that names all of them.
pub proof fn unanswered_names_every_provider<T>(
    what: Seq<char>,
    results: Seq<Fetched<T>>,
    i: int,
)
    requires
        0 <= i < results.len(),
        results[i].1 is Err,
    ensures
        crate::text::has_part(
            crate::error::error_text(unanswered(what, results)),
            results[i].0@,
        ),
{
    let none = Seq::<char>::empty();
    let base = results[i].0@;
    let failure = base + ": "@ + results[i].1->Err_0@;
    failure_is_kept(results, i);
    let parts = failures_of(results);
    let k = choose|k: int| 0 <= k < parts.len() && parts[k] == failure;
    crate::text::joined_has_each(parts, "; "@, k);
    let list = crate::text::joined(parts, "; "@);
    let rest = ": "@ + results[i].1->Err_0@;
    assert(failure =~= base + rest);
    named_in_list(list, base, rest, failure);
    crate::text::part_of_longer("no esplora provider answered "@ + what + ": "@, list, none, base);
    assert("no esplora provider answered "@ + what + ": "@ + list + none
        =~= crate::error::error_text(unanswered(what, results)));
}

/// A list that holds a failure holds the provider it begins with.
pub proof fn named_in_list(
    list: Seq<char>,
    base: Seq<char>,
    rest: Seq<char>,
    failure: Seq<char>,
)
    requires
        crate::text::has_part(list, failure),
        failure == base + rest,
    ensures
        crate::text::has_part(list, base),
{
    let i = choose|i: int| #[trigger] crate::text::stands_at(list, failure, i);
    assert(list.subrange(i, i + base.len()) =~= failure.subrange(0, base.len() as int));
    assert(failure.subrange(0, base.len() as int) =~= base);
    assert(crate::text::stands_at(list, base, i));
}

/// Whether a rejection means "we already have it" does not depend on the case of
/// its letters.
pub proof fn wording_in_any_case(a: Seq<char>, b: Seq<char>)
    requires
        crate::text::lowered(a) == crate::text::lowered(b),
    ensures
        says_already_known(a) == says_already_known(b),
{
}

/// A known wording is recognised whatever stands before and after it.
pub proof fn wording_anywhere(before: Seq<char>, msg: Seq<char>, after: Seq<char>)
    requires
        says_already_known(msg),
    ensures
        says_already_known(before + msg + after),
{
    let i = choose|i: int|
        0 <= i < known_wordings().len() && crate::text::has_part(
            crate::text::lowered(msg),
            #[trigger] known_wordings()[i],
        );
    crate::text::part_of_longer(
        crate::text::lowered(before),
        crate::text::lowered(msg),
        crate::text::lowered(after),
        known_wordings()[i],
    );
    assert(crate::text::lowered(before + msg + after) =~= crate::text::lowered(before)
        + crate::text::lowered(msg) + crate::text::lowered(after));
}

} // verus!
