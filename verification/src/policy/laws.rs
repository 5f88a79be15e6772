//! What collecting results, warning of too few providers and recognising an
//! "already known" promise, over the results and the texts themselves.

use vstd::prelude::*;

use crate::error::{Error, ErrorView};
use crate::policy::Fetched;
use crate::types::Answer;
#[allow(unused_imports)]
use crate::policy;
#[allow(unused_imports)]
use crate::text;

verus! {

/// How many of the first `i` results are answers.
pub open spec fn answers_before<T, E>(
    results: Seq<(String, Result<Option<T>, E>)>,
    i: int,
) -> int {
    results.take(i).filter(|x: (String, Result<Option<T>, E>)| x.1 is Ok).len() as int
}

/// One more result is one more answer, if it is one.
proof fn one_more_result<T, E>(results: Seq<(String, Result<Option<T>, E>)>, i: int)
    requires
        0 <= i < results.len(),
    ensures
        answers_before(results, i + 1) == answers_before(results, i) + if results[i].1 is Ok {
            1int
        } else {
            0
        },
        0 <= answers_before(results, i) <= i,
{
    let p = |x: (String, Result<Option<T>, E>)| x.1 is Ok;
    assert(results.take(i + 1) =~= results.take(i).push(results[i]));
    results.take(i).lemma_filter_push(results[i], p);
    results.take(i).lemma_filter_len(p);
}

proof fn answers_of_push<T>(results: Seq<Fetched<T>>, x: Fetched<T>)
    ensures
        policy::answers_of(results.push(x)) == match x.1 {
            Ok(answer) => policy::answers_of(results).push((x.0, answer)),
            Err(_) => policy::answers_of(results),
        },
        policy::failures_of(results.push(x)) == match x.1 {
            Ok(_) => policy::failures_of(results),
            Err(text) => policy::failures_of(results).push(x.0@ + ": "@ + text@),
        },
{
    assert(results.push(x).drop_last() =~= results);
}

proof fn answers_are_counted<T>(results: Seq<Fetched<T>>, n: int)
    requires
        0 <= n <= results.len(),
    ensures
        policy::answers_of(results.take(n)).len() == answers_before(results, n),
        policy::failures_of(results.take(n)).len() == n - answers_before(results, n),
    decreases n,
{
    if n > 0 {
        answers_are_counted(results, n - 1);
        one_more_result(results, n - 1);
        assert(results.take(n) =~= results.take(n - 1).push(results[n - 1]));
        answers_of_push(results.take(n - 1), results[n - 1]);
    } else {
        reveal(Seq::filter);
        assert(results.take(0) =~= Seq::empty());
    }
}

/// An answer stands at its place among the answers, and a failure at its place
/// among the failures.
proof fn place<T>(results: Seq<Fetched<T>>, i: int, n: int)
    requires
        0 <= i < n <= results.len(),
    ensures
        0 <= answers_before(results, i) <= i,
        match results[i].1 {
            Ok(answer) => answers_before(results, i) < policy::answers_of(results.take(n)).len()
                && policy::answers_of(results.take(n))[answers_before(results, i)] == (
                results[i].0,
                answer,
            ),
            Err(text) => i - answers_before(results, i) < policy::failures_of(
                results.take(n),
            ).len() && policy::failures_of(results.take(n))[i - answers_before(results, i)]
                == results[i].0@ + ": "@ + text@,
        },
    decreases n,
{
    assert(results.take(n) =~= results.take(n - 1).push(results[n - 1]));
    answers_of_push(results.take(n - 1), results[n - 1]);
    one_more_result(results, i);
    if i < n - 1 {
        place(results, i, n - 1);
    } else {
        answers_are_counted(results, i);
    }
}

/// Nothing is dropped, doubled or moved: every answer is collected with its
/// provider, at the place that the answers before it leave it, and every failure
/// likewise.
pub proof fn collecting_keeps_every_result_in_its_place<T>(
    what: Seq<char>,
    results: Seq<Fetched<T>>,
    answers: Vec<Answer<T>>,
    failures: Vec<String>,
    i: int,
)
    requires
        policy::collects(what, results, Ok((answers, failures))),
        0 <= i < results.len(),
    ensures
        answers@.len() + failures@.len() == results.len(),
        answers@.len() == answers_before(results, results.len() as int),
        match results[i].1 {
            Ok(answer) => {
                &&& 0 <= answers_before(results, i) < answers@.len()
                &&& answers@[answers_before(results, i)] == (results[i].0, answer)
            },
            Err(text) => {
                &&& 0 <= i - answers_before(results, i) < failures@.len()
                &&& failures@[i - answers_before(results, i)]@ == results[i].0@ + ": "@ + text@
            },
        },
{
    place(results, i, results.len() as int);
    answers_are_counted(results, results.len() as int);
    assert(results.take(results.len() as int) =~= results);
    assert(failures.deep_view().len() == failures@.len());
    assert(results[i].1 is Err ==> failures.deep_view()[i - answers_before(results, i)]
        == failures@[i - answers_before(results, i)]@);
}

/// Collecting fails exactly when every result is a failure, and the error then
/// carries the question and every failure, in order, each with its provider.
pub proof fn collecting_fails_with_every_failure<T>(
    what: Seq<char>,
    results: Seq<Fetched<T>>,
    e: Error,
)
    requires
        policy::collects(what, results, Err(e)),
    ensures
        forall|i: int| 0 <= i < results.len() ==> (#[trigger] results[i]).1 is Err,
        e@ == (ErrorView::NoProviderAnswered {
            what,
            failures: text::joined(
                Seq::new(
                    results.len(),
                    |i: int| results[i].0@ + ": "@ + results[i].1->Err_0@,
                ),
                "; "@,
            ),
        }),
{
    let n = results.len() as int;
    policy::collect_fails_iff_nobody_answered(what, results, Err(e));
    assert(results.take(n) =~= results);
    answers_are_counted(results, n);
    no_answer_before(results, n);
    let all = Seq::new(results.len(), |i: int| results[i].0@ + ": "@ + results[i].1->Err_0@);
    assert forall|i: int| 0 <= i < n implies policy::failures_of(results)[i] == #[trigger] all[
        i] by {
        no_answer_before(results, i);
        place(results, i, n);
    }
    assert(policy::failures_of(results) =~= all);
}

proof fn no_answer_before<T>(results: Seq<Fetched<T>>, i: int)
    requires
        0 <= i <= results.len(),
        forall|k: int| 0 <= k < results.len() ==> (#[trigger] results[k]).1 is Err,
    ensures
        answers_before(results, i) == 0,
    decreases i,
{
    reveal(Seq::filter);
    if i > 0 {
        no_answer_before(results, i - 1);
        one_more_result(results, i - 1);
    } else {
        assert(results.take(0) =~= Seq::empty());
    }
}

/// Writing the errors out changes nothing else: the same providers, in the same
/// order, with the same answers.
pub proof fn rendering_keeps_every_answer<T, E: core::fmt::Display>(
    results: Seq<(String, Result<Option<T>, E>)>,
    rendered: Seq<Fetched<T>>,
    i: int,
)
    requires
        policy::renders(results, rendered),
        0 <= i < results.len(),
    ensures
        rendered.len() == results.len(),
        rendered[i].0 == results[i].0,
        rendered[i].1 is Ok <==> results[i].1 is Ok,
        results[i].1 is Ok ==> rendered[i].1->Ok_0 == results[i].1->Ok_0,
        answers_before(rendered, i) == answers_before(results, i),
    decreases i,
{
    assert(rendered[i].0 == results[i].0);
    reveal(Seq::filter);
    if i > 0 {
        rendering_keeps_every_answer(results, rendered, i - 1);
        one_more_result(results, i - 1);
        one_more_result(rendered, i - 1);
    } else {
        assert(results.take(0) =~= Seq::empty());
        assert(rendered.take(0) =~= Seq::empty());
    }
}

/// The warning says how many providers there are, and that it takes three.
pub proof fn warning_says_how_many(providers: usize)
    ensures
        text::has_part(
            policy::warning_text(providers),
            text::decimal(providers as nat)
                + " esplora provider(s) configured; the tip outlier filter needs "@
                + text::decimal(3),
        ),
{
    middle_is_a_part(
        "only "@,
        text::decimal(providers as nat),
        " esplora provider(s) configured; the tip outlier filter needs "@,
        text::decimal(3),
        " to out-vote a liar and is a no-op below that"@,
    );
}

proof fn middle_is_a_part(
    start: Seq<char>,
    x: Seq<char>,
    y: Seq<char>,
    z: Seq<char>,
    end: Seq<char>,
)
    ensures
        text::has_part(start + x + y + z + end, x + y + z),
{
    regrouped(start, x, y, z);
    text::part_of_itself(x + y + z);
    text::part_of_longer(start, x + y + z, end, x + y + z);
}

proof fn regrouped(start: Seq<char>, x: Seq<char>, y: Seq<char>, z: Seq<char>)
    ensures
        start + x + y + z == start + (x + y + z),
{
    assert(start + x + y =~= start + (x + y));
    assert(start + (x + y) + z =~= start + (x + y + z));
}

/// A rejection means "we already have it" exactly when it holds, in whatever
/// case, one of these seven wordings.
pub proof fn seven_wordings(msg: Seq<char>)
    ensures
        policy::says_already_known(msg) <==> {
            let m = text::lowered(msg);
            ||| text::has_part(m, "txn-already-in-mempool"@)
            ||| text::has_part(m, "txn-already-known"@)
            ||| text::has_part(m, "transaction already in block chain"@)
            ||| text::has_part(m, "transaction already in mempool"@)
            ||| text::has_part(m, "already in mempool"@)
            ||| text::has_part(m, "already have transaction"@)
            ||| text::has_part(m, "transaction outputs already in utxo set"@)
        },
{
    let m = text::lowered(msg);
    let w = policy::known_wordings();
    if text::has_part(m, "txn-already-in-mempool"@) {
        assert(text::has_part(m, w[0]));
    }
    if text::has_part(m, "txn-already-known"@) {
        assert(text::has_part(m, w[1]));
    }
    if text::has_part(m, "transaction already in block chain"@) {
        assert(text::has_part(m, w[2]));
    }
    if text::has_part(m, "transaction already in mempool"@) {
        assert(text::has_part(m, w[3]));
    }
    if text::has_part(m, "already in mempool"@) {
        assert(text::has_part(m, w[4]));
    }
    if text::has_part(m, "already have transaction"@) {
        assert(text::has_part(m, w[5]));
    }
    if text::has_part(m, "transaction outputs already in utxo set"@) {
        assert(text::has_part(m, w[6]));
    }
}

/// A rejection that does not even mention "already" is never taken for "we
/// already have it"; one that only mentions it is not either, unless it goes on
/// or begins as one of the wordings does.
pub proof fn real_rejections_are_not_swallowed(msg: Seq<char>)
    ensures
        policy::says_already_known(msg) ==> text::has_part(text::lowered(msg), "already"@),
        policy::says_already_known(msg) ==> {
            let m = text::lowered(msg);
            ||| text::has_part(m, "already in "@)
            ||| text::has_part(m, "already have transaction"@)
            ||| text::has_part(m, "txn-already-"@)
        },
        msg.len() < 17 ==> !policy::says_already_known(msg),
{
    let m = text::lowered(msg);
    seven_wordings(msg);
    text::laws::lower_case_moves_capitals_only(msg);
    if text::has_part(m, "txn-already-in-mempool"@) {
        txn_already_in_mempool(m);
    } else if text::has_part(m, "txn-already-known"@) {
        txn_already_known(m);
    } else if text::has_part(m, "transaction already in block chain"@) {
        already_in_block_chain(m);
    } else if text::has_part(m, "transaction already in mempool"@) {
        transaction_already_in_mempool(m);
    } else if text::has_part(m, "already in mempool"@) {
        already_in_mempool(m);
    } else if text::has_part(m, "already have transaction"@) {
        already_have_transaction(m);
    } else if text::has_part(m, "transaction outputs already in utxo set"@) {
        already_in_utxo_set(m);
    }
}

proof fn txn_already_in_mempool(m: Seq<char>)
    requires
        text::has_part(m, "txn-already-in-mempool"@),
    ensures
        text::has_part(m, "already"@),
        text::has_part(m, "txn-already-"@),
        m.len() >= 17,
{
    reveal_strlit("txn-already-in-mempool");
    reveal_strlit("already");
    reveal_strlit("txn-already-");
    part_of_part(m, "txn-already-in-mempool"@, "already"@, 4);
    part_of_part(m, "txn-already-in-mempool"@, "txn-already-"@, 0);
}

proof fn txn_already_known(m: Seq<char>)
    requires
        text::has_part(m, "txn-already-known"@),
    ensures
        text::has_part(m, "already"@),
        text::has_part(m, "txn-already-"@),
        m.len() >= 17,
{
    reveal_strlit("txn-already-known");
    reveal_strlit("already");
    reveal_strlit("txn-already-");
    part_of_part(m, "txn-already-known"@, "already"@, 4);
    part_of_part(m, "txn-already-known"@, "txn-already-"@, 0);
}

proof fn already_in_block_chain(m: Seq<char>)
    requires
        text::has_part(m, "transaction already in block chain"@),
    ensures
        text::has_part(m, "already"@),
        text::has_part(m, "already in "@),
        m.len() >= 17,
{
    reveal_strlit("transaction already in block chain");
    reveal_strlit("already");
    reveal_strlit("already in ");
    part_of_part(m, "transaction already in block chain"@, "already"@, 12);
    part_of_part(m, "transaction already in block chain"@, "already in "@, 12);
}

proof fn transaction_already_in_mempool(m: Seq<char>)
    requires
        text::has_part(m, "transaction already in mempool"@),
    ensures
        text::has_part(m, "already"@),
        text::has_part(m, "already in "@),
        m.len() >= 17,
{
    reveal_strlit("transaction already in mempool");
    reveal_strlit("already");
    reveal_strlit("already in ");
    part_of_part(m, "transaction already in mempool"@, "already"@, 12);
    part_of_part(m, "transaction already in mempool"@, "already in "@, 12);
}

proof fn already_in_mempool(m: Seq<char>)
    requires
        text::has_part(m, "already in mempool"@),
    ensures
        text::has_part(m, "already"@),
        text::has_part(m, "already in "@),
        m.len() >= 17,
{
    reveal_strlit("already in mempool");
    reveal_strlit("already");
    reveal_strlit("already in ");
    part_of_part(m, "already in mempool"@, "already"@, 0);
    part_of_part(m, "already in mempool"@, "already in "@, 0);
}

proof fn already_have_transaction(m: Seq<char>)
    requires
        text::has_part(m, "already have transaction"@),
    ensures
        text::has_part(m, "already"@),
        m.len() >= 17,
{
    reveal_strlit("already have transaction");
    reveal_strlit("already");
    part_of_part(m, "already have transaction"@, "already"@, 0);
}

proof fn already_in_utxo_set(m: Seq<char>)
    requires
        text::has_part(m, "transaction outputs already in utxo set"@),
    ensures
        text::has_part(m, "already"@),
        text::has_part(m, "already in "@),
        m.len() >= 17,
{
    reveal_strlit("transaction outputs already in utxo set");
    reveal_strlit("already");
    reveal_strlit("already in ");
    part_of_part(m, "transaction outputs already in utxo set"@, "already"@, 20);
    part_of_part(m, "transaction outputs already in utxo set"@, "already in "@, 20);
}

proof fn part_of_part(s: Seq<char>, part: Seq<char>, inner: Seq<char>, at: int)
    requires
        text::has_part(s, part),
        0 <= at,
        at + inner.len() <= part.len(),
        part.subrange(at, at + inner.len()) =~= inner,
    ensures
        text::has_part(s, inner),
        s.len() >= part.len(),
{
    let i = choose|i: int| #[trigger] text::stands_at(s, part, i);
    assert(s.subrange(i + at, i + at + inner.len()) =~= part.subrange(at, at + inner.len()));
    assert(text::stands_at(s, inner, i + at));
}

} // verus!
