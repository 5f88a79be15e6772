//! What reading the replies promises, over the replies themselves.

use vstd::prelude::*;

use crate::client::{BroadcastReply, Reply, ReplyView};
use crate::error::{Error, ErrorView};
#[allow(unused_imports)]
use crate::client;
#[allow(unused_imports)]
use crate::policy;
#[allow(unused_imports)]
use crate::text;

verus! {

/// One provider's result for a question.
pub type ResultView<V> = (Seq<char>, Result<Option<V>, ErrorView>);

/// What is said of a reply is said of its status and of its body.
pub proof fn reply_keeps_every_field(reply: Reply)
    ensures
        reply@.status == reply.status,
        match reply.body {
            Ok(t) => reply@.body == Ok::<Seq<char>, Seq<char>>(t@),
            Err(e) => reply@.body == Err::<Seq<char>, Seq<char>>(e@),
        },
        client::exchange(Ok(reply)) == Ok::<ReplyView, Seq<char>>(reply@),
{
}

/// A request that got no reply is nothing but the reason.
pub proof fn no_reply_is_its_reason(e: String)
    ensures
        client::exchange(Err(e)) == Err::<ReplyView, Seq<char>>(e@),
{
}

/// What is said of results is said of every one of them, with its provider.
pub proof fn every_result_is_modelled<T: DeepView>(
    results: Seq<(String, Result<Option<T>, Error>)>,
    i: int,
)
    requires
        0 <= i < results.len(),
    ensures
        client::results_model(results).len() == results.len(),
        client::results_model(results)[i].0 == results[i].0@,
        match results[i].1 {
            Ok(Some(v)) => client::results_model(results)[i].1 == Ok::<Option<T::V>, ErrorView>(
                Some(v.deep_view()),
            ),
            Ok(None) => client::results_model(results)[i].1 == Ok::<Option<T::V>, ErrorView>(None),
            Err(e) => client::results_model(results)[i].1 == Err::<Option<T::V>, ErrorView>(e@),
        },
{
}

/// What is said of replies to a broadcast is said of every one of them, with its
/// provider.
pub proof fn every_reply_is_modelled(replies: Seq<(String, Result<Reply, String>)>, i: int)
    requires
        0 <= i < replies.len(),
    ensures
        client::replies_model(replies).len() == replies.len(),
        client::replies_model(replies)[i].0 == replies[i].0@,
        match replies[i].1 {
            Ok(reply) => client::replies_model(replies)[i].1 == Ok::<ReplyView, Seq<char>>(reply@),
            Err(e) => client::replies_model(replies)[i].1 == Err::<ReplyView, Seq<char>>(e@),
        },
{
}

/// A 404 is an answer, whatever its body; a status from 200 to 299 gives the
/// body, whole; and no other status ever does.
pub proof fn a_404_is_an_answer(reply: ReplyView)
    ensures
        reply.status == 404 ==> client::body_of(Ok(reply)) == Ok::<Option<Seq<char>>, ErrorView>(
            None,
        ),
        200 <= reply.status <= 299 ==> match reply.body {
            Ok(t) => client::body_of(Ok(reply)) == Ok::<Option<Seq<char>>, ErrorView>(Some(t)),
            Err(e) => client::body_of(Ok(reply)) == Err::<Option<Seq<char>>, ErrorView>(
                ErrorView::Http(e),
            ),
        },
        !(200 <= reply.status <= 299) && reply.status != 404 ==> client::body_of(Ok(reply)) is Err
            && client::body_of(Ok(reply))->Err_0 is Http,
{
}

/// No reply is a failure that says why.
pub proof fn no_reply_is_a_failure(e: Seq<char>)
    ensures
        client::body_of(Err(e)) == Err::<Option<Seq<char>>, ErrorView>(ErrorView::Http(e)),
{
}

/// The number that a provider's body writes, if it writes one.
pub open spec fn height_written(x: ResultView<Seq<char>>) -> Option<int> {
    match x.1 {
        Ok(Some(body)) => text::number(text::trimmed(body)),
        _ => None,
    }
}

/// A body that is a number in decimal, with any white space around it, writes
/// that number, and is read as that height; a 404 and a failure write none.
pub proof fn a_decimal_body_is_its_height(
    base: Seq<char>,
    before: Seq<char>,
    n: u64,
    after: Seq<char>,
    e: ErrorView,
)
    requires
        text::laws::blank(before),
        text::laws::blank(after),
    ensures
        height_written((base, Ok(Some(before + text::decimal(n as nat) + after)))) == Some(
            n as int,
        ),
        client::height_of(Ok(Some(before + text::decimal(n as nat) + after))) == Ok::<
            Option<u64>,
            ErrorView,
        >(Some(n)),
        height_written((base, Ok(None))) is None,
        height_written((base, Err(e))) is None,
        client::height_of(Ok(None)) == Ok::<Option<u64>, ErrorView>(None),
        client::height_of(Err(e)) == Err::<Option<u64>, ErrorView>(e),
{
    let s = text::decimal(n as nat);
    text::laws::decimal_has_digits(n as nat);
    text::laws::number_reads_what_decimal_writes(n as nat);
    assert('0' <= s[0] <= '9' && '0' <= s[s.len() - 1] <= '9');
    text::laws::trimming_gives_back_what_was_padded(before, s, after);
}

/// A number that is read is one that a `u64` holds.
proof fn number_fits(s: Seq<char>)
    requires
        text::number(s) is Some,
    ensures
        0 <= text::number(s)->0 <= u64::MAX,
{
    value_is_not_negative(text::without_plus(s));
}

proof fn value_is_not_negative(s: Seq<char>)
    requires
        text::all_digits(s),
    ensures
        text::digits_value(s) >= 0,
    decreases s.len(),
{
    if s.len() > 0 {
        assert('0' <= s[s.len() - 1] <= '9');
        assert forall|i: int| 0 <= i < s.drop_last().len() implies '0' <= #[trigger] s.drop_last()[i]
            <= '9' by {
            assert(s.drop_last()[i] == s[i]);
        }
        value_is_not_negative(s.drop_last());
    }
}

/// The heights that the tip is agreed over.
spec fn heights(m: Seq<ResultView<Seq<char>>>) -> Seq<u64> {
    client::heights_in(client::answers_in(client::heights_model(m)))
}

proof fn heights_of_push(m: Seq<ResultView<Seq<char>>>, x: ResultView<Seq<char>>)
    ensures
        heights(m.push(x)) == match height_written(x) {
            Some(n) => heights(m).push(n as u64),
            None => heights(m),
        },
        height_written(x) is Some ==> 0 <= height_written(x)->0 <= u64::MAX,
{
    let y = (x.0, client::height_of(x.1));
    let before = client::heights_model(m);
    assert(client::heights_model(m.push(x)) =~= before.push(y));
    assert(before.push(y).drop_last() =~= before);
    let a = client::answers_in(before);
    if y.1 is Ok {
        let z = (y.0, y.1->Ok_0);
        assert(client::answers_in(before.push(y)) =~= a.push(z));
        assert(a.push(z).drop_last() =~= a);
    } else {
        assert(client::answers_in(before.push(y)) =~= a);
    }
    if height_written(x) is Some {
        number_fits(text::trimmed(x.1->Ok_0->0));
    }
}

/// The heights that the tip is agreed over are the numbers that the bodies
/// write, all of them, each as often as bodies write it and in their order.
pub proof fn heights_are_the_numbers_written(m: Seq<ResultView<Seq<char>>>)
    ensures
        client::heights_in(client::answers_in(client::heights_model(m))) == m.filter(
            |x: ResultView<Seq<char>>| height_written(x) is Some,
        ).map_values(|x: ResultView<Seq<char>>| height_written(x)->0 as u64),
    decreases m.len(),
{
    let p = |x: ResultView<Seq<char>>| height_written(x) is Some;
    let f = |x: ResultView<Seq<char>>| height_written(x)->0 as u64;
    reveal(Seq::filter);
    if m.len() > 0 {
        let rest = m.drop_last();
        let x = m.last();
        assert(rest.push(x) =~= m);
        heights_are_the_numbers_written(rest);
        heights_of_push(rest, x);
        rest.lemma_filter_push(x, p);
        assert(heights(m) =~= m.filter(p).map_values(f));
    } else {
        assert(heights(m) =~= m.filter(p).map_values(f));
    }
}

/// As many heights have a property as bodies write a number with it.
proof fn heights_by_body(
    m: Seq<ResultView<Seq<char>>>,
    p: spec_fn(u64) -> bool,
    q: spec_fn(ResultView<Seq<char>>) -> bool,
)
    requires
        forall|x: ResultView<Seq<char>>| #[trigger]
            q(x) <==> height_written(x) is Some && p(height_written(x)->0 as u64),
    ensures
        heights(m).filter(p).len() == m.filter(q).len(),
    decreases m.len(),
{
    reveal(Seq::filter);
    if m.len() > 0 {
        let rest = m.drop_last();
        let x = m.last();
        assert(rest.push(x) =~= m);
        heights_by_body(rest, p, q);
        heights_of_push(rest, x);
        rest.lemma_filter_push(x, q);
        if height_written(x) is Some {
            heights(rest).lemma_filter_push(height_written(x)->0 as u64, p);
        }
    } else {
        assert(heights(m) =~= Seq::empty());
    }
}

proof fn all_heights_by_body(m: Seq<ResultView<Seq<char>>>)
    ensures
        heights(m).len() == m.filter(
            |x: ResultView<Seq<char>>| height_written(x) is Some,
        ).len(),
        forall|h: u64| #[trigger]
            heights(m).contains(h) <==> exists|i: int|
                0 <= i < m.len() && height_written(#[trigger] m[i]) == Some(h as int),
    decreases m.len(),
{
    let p = |x: ResultView<Seq<char>>| height_written(x) is Some;
    reveal(Seq::filter);
    if m.len() > 0 {
        let rest = m.drop_last();
        let x = m.last();
        assert(rest.push(x) =~= m);
        all_heights_by_body(rest);
        heights_of_push(rest, x);
        rest.lemma_filter_push(x, p);
        assert forall|h: u64| #[trigger]
            heights(m).contains(h) <==> exists|i: int|
                0 <= i < m.len() && height_written(#[trigger] m[i]) == Some(h as int) by {
            if heights(m).contains(h) {
                let k = choose|k: int| 0 <= k < heights(m).len() && heights(m)[k] == h;
                if k < heights(rest).len() {
                    assert(heights(rest)[k] == h);
                    assert(heights(rest).contains(h));
                    let i = choose|i: int|
                        0 <= i < rest.len() && height_written(#[trigger] rest[i]) == Some(
                            h as int,
                        );
                    assert(m[i] == rest[i]);
                } else {
                    assert(height_written(m[m.len() - 1]) == Some(h as int));
                }
            }
            if exists|i: int|
                0 <= i < m.len() && height_written(#[trigger] m[i]) == Some(h as int) {
                let i = choose|i: int|
                    0 <= i < m.len() && height_written(#[trigger] m[i]) == Some(h as int);
                if i < rest.len() {
                    assert(rest[i] == m[i]);
                    assert(heights(rest).contains(h));
                    let k = choose|k: int| 0 <= k < heights(rest).len() && heights(rest)[k] == h;
                    assert(heights(m)[k] == h);
                } else {
                    assert(heights(m)[heights(rest).len() as int] == h);
                }
            }
        }
    } else {
        assert(heights(m) =~= Seq::empty());
    }
}

/// An honest majority of the providers that give a height out-votes the others:
/// where more than half of the bodies that write a number write one of at most
/// `h`, the tip is at most six blocks above `h`.
pub proof fn honest_bodies_bound_the_tip(m: Seq<ResultView<Seq<char>>>, h: u64, tip: u64)
    requires
        client::tip_verdict(m, Ok(tip)),
        2 * m.filter(
            |x: ResultView<Seq<char>>| height_written(x) is Some && height_written(x)->0 <= h,
        ).len() > m.filter(|x: ResultView<Seq<char>>| height_written(x) is Some).len(),
    ensures
        tip <= h + 6,
{
    let p = |x: u64| x <= h;
    let q = |x: ResultView<Seq<char>>|
        height_written(x) is Some && height_written(x)->0 <= h;
    all_heights_by_body(m);
    assert forall|x: ResultView<Seq<char>>| #[trigger]
        q(x) <==> height_written(x) is Some && p(height_written(x)->0 as u64) by {
        if height_written(x) is Some {
            number_fits(text::trimmed(x.1->Ok_0->0));
        }
    }
    heights_by_body(m, p, q);
    policy::tip::laws::liars_are_outvoted(heights(m), h, tip);
}

/// The tip is a height that some provider gives, by the count over all of them:
/// some body's number `middle` has at most half of the numbers below it and more
/// than half up to it; the tip is at most six blocks above that, and no number
/// that is at most six blocks above it is higher than the tip.
pub proof fn tip_by_counting_bodies(m: Seq<ResultView<Seq<char>>>, tip: u64) -> (middle: u64)
    requires
        client::tip_verdict(m, Ok(tip)),
    ensures
        exists|i: int| 0 <= i < m.len() && height_written(#[trigger] m[i]) == Some(tip as int),
        2 * m.filter(
            |x: ResultView<Seq<char>>| height_written(x) is Some && height_written(x)->0 < middle,
        ).len() <= m.filter(|x: ResultView<Seq<char>>| height_written(x) is Some).len(),
        2 * m.filter(
            |x: ResultView<Seq<char>>|
                height_written(x) is Some && height_written(x)->0 <= middle,
        ).len() > m.filter(|x: ResultView<Seq<char>>| height_written(x) is Some).len(),
        middle <= tip <= middle + 6,
        forall|i: int|
            0 <= i < m.len() && height_written(#[trigger] m[i]) is Some && height_written(m[i])->0
                <= middle + 6 ==> height_written(m[i])->0 <= tip,
{
    let all = heights(m);
    let middle = policy::tip::laws::tip_by_counting(all, tip);
    all_heights_by_body(m);
    let below = |x: u64| x < middle;
    let upto = |x: u64| x <= middle;
    let below_m = |x: ResultView<Seq<char>>|
        height_written(x) is Some && height_written(x)->0 < middle;
    let upto_m = |x: ResultView<Seq<char>>|
        height_written(x) is Some && height_written(x)->0 <= middle;
    assert forall|x: ResultView<Seq<char>>| #[trigger]
        below_m(x) <==> height_written(x) is Some && below(height_written(x)->0 as u64) by {
        if height_written(x) is Some {
            number_fits(text::trimmed(x.1->Ok_0->0));
        }
    }
    assert forall|x: ResultView<Seq<char>>| #[trigger]
        upto_m(x) <==> height_written(x) is Some && upto(height_written(x)->0 as u64) by {
        if height_written(x) is Some {
            number_fits(text::trimmed(x.1->Ok_0->0));
        }
    }
    heights_by_body(m, below, below_m);
    heights_by_body(m, upto, upto_m);
    assert(all.contains(tip));
    assert forall|i: int|
        0 <= i < m.len() && height_written(#[trigger] m[i]) is Some && height_written(m[i])->0
            <= middle + 6 implies height_written(m[i])->0 <= tip by {
        number_fits(text::trimmed(m[i].1->Ok_0->0));
        let n = height_written(m[i])->0 as u64;
        assert(height_written(m[i]) == Some(n as int));
        assert(all.contains(n));
        let k = choose|k: int| 0 <= k < all.len() && all[k] == n;
        assert(all[k] <= middle + 6);
    }
    middle
}

/// There is a tip exactly when some body writes a number. Otherwise the error is
/// that nobody answered the question, and where a provider did answer with a
/// 404, that nobody gave a height.
pub proof fn no_tip_without_a_number(
    m: Seq<ResultView<Seq<char>>>,
    r: Result<u64, ErrorView>,
)
    requires
        client::tip_verdict(m, r),
    ensures
        r is Ok <==> exists|i: int| 0 <= i < m.len() && height_written(#[trigger] m[i]) is Some,
        r is Err ==> r->Err_0 is NoProviderAnswered,
        r is Err ==> r->Err_0->NoProviderAnswered_what == "/blocks/tip/height"@,
        r is Err && (exists|i: int| 0 <= i < m.len() && (#[trigger] m[i]).1 == Ok::<
            Option<Seq<char>>,
            ErrorView,
        >(None)) ==> r->Err_0->NoProviderAnswered_failures
            == "every provider answered without a height"@,
{
    let all = heights(m);
    all_heights_by_body(m);
    if all.len() > 0 {
        assert(all.contains(all[0]));
        let i = choose|i: int|
            0 <= i < m.len() && height_written(#[trigger] m[i]) == Some(all[0] as int);
        assert(height_written(m[i]) is Some);
    }
    if exists|i: int| 0 <= i < m.len() && height_written(#[trigger] m[i]) is Some {
        let i = choose|i: int| 0 <= i < m.len() && height_written(#[trigger] m[i]) is Some;
        number_fits(text::trimmed(m[i].1->Ok_0->0));
        let n = height_written(m[i])->0 as u64;
        assert(height_written(m[i]) == Some(n as int));
        assert(all.contains(n));
    }
    if exists|i: int| 0 <= i < m.len() && (#[trigger] m[i]).1 == Ok::<
        Option<Seq<char>>,
        ErrorView,
    >(None) {
        let i = choose|i: int| 0 <= i < m.len() && (#[trigger] m[i]).1 == Ok::<
            Option<Seq<char>>,
            ErrorView,
        >(None);
        let hm = client::heights_model(m);
        client::unanswered_iff_all_failed(hm);
        assert(hm[i].1 is Ok);
    }
}

/// How many of the first `i` results are answers.
pub open spec fn answers_before<V>(m: Seq<ResultView<V>>, i: int) -> int {
    m.take(i).filter(|x: ResultView<V>| x.1 is Ok).len() as int
}

proof fn one_more_result<V>(m: Seq<ResultView<V>>, i: int)
    requires
        0 <= i < m.len(),
    ensures
        answers_before(m, i + 1) == answers_before(m, i) + if m[i].1 is Ok {
            1int
        } else {
            0
        },
        0 <= answers_before(m, i) <= i,
{
    let p = |x: ResultView<V>| x.1 is Ok;
    assert(m.take(i + 1) =~= m.take(i).push(m[i]));
    m.take(i).lemma_filter_push(m[i], p);
    m.take(i).lemma_filter_len(p);
}

proof fn answers_of_push<V>(m: Seq<ResultView<V>>, x: ResultView<V>)
    ensures
        client::answers_in(m.push(x)) == match x.1 {
            Ok(answer) => client::answers_in(m).push((x.0, answer)),
            Err(_) => client::answers_in(m),
        },
        client::failures_in(m.push(x)) == match x.1 {
            Ok(_) => client::failures_in(m),
            Err(e) => client::failures_in(m).push(x.0 + ": "@ + crate::error::error_text(e)),
        },
{
    assert(m.push(x).drop_last() =~= m);
}

proof fn answers_are_counted<V>(m: Seq<ResultView<V>>, n: int)
    requires
        0 <= n <= m.len(),
    ensures
        client::answers_in(m.take(n)).len() == answers_before(m, n),
        client::failures_in(m.take(n)).len() == n - answers_before(m, n),
    decreases n,
{
    if n > 0 {
        answers_are_counted(m, n - 1);
        one_more_result(m, n - 1);
        assert(m.take(n) =~= m.take(n - 1).push(m[n - 1]));
        answers_of_push(m.take(n - 1), m[n - 1]);
    } else {
        reveal(Seq::filter);
        assert(m.take(0) =~= Seq::empty());
    }
}

proof fn place<V>(m: Seq<ResultView<V>>, i: int, n: int)
    requires
        0 <= i < n <= m.len(),
    ensures
        0 <= answers_before(m, i) <= i,
        match m[i].1 {
            Ok(answer) => answers_before(m, i) < client::answers_in(m.take(n)).len()
                && client::answers_in(m.take(n))[answers_before(m, i)] == (m[i].0, answer),
            Err(e) => i - answers_before(m, i) < client::failures_in(m.take(n)).len()
                && client::failures_in(m.take(n))[i - answers_before(m, i)] == m[i].0 + ": "@
                + crate::error::error_text(e),
        },
    decreases n,
{
    assert(m.take(n) =~= m.take(n - 1).push(m[n - 1]));
    answers_of_push(m.take(n - 1), m[n - 1]);
    one_more_result(m, i);
    if i < n - 1 {
        place(m, i, n - 1);
    } else {
        answers_are_counted(m, i);
    }
}

/// No answer is dropped, doubled or moved: each goes to the rule with its
/// provider, at the place that the answers before it leave it.
pub proof fn every_answer_is_read_in_its_place<V>(m: Seq<ResultView<V>>, i: int)
    requires
        0 <= i < m.len(),
    ensures
        client::answers_in(m).len() == answers_before(m, m.len() as int),
        m[i].1 is Ok ==> 0 <= answers_before(m, i) < client::answers_in(m).len()
            && client::answers_in(m)[answers_before(m, i)] == (m[i].0, m[i].1->Ok_0),
{
    place(m, i, m.len() as int);
    answers_are_counted(m, m.len() as int);
    assert(m.take(m.len() as int) =~= m);
}

/// Every answer that goes to the rule is a provider's.
pub proof fn no_answer_is_made_up<V>(m: Seq<ResultView<V>>, k: int) -> (i: int)
    requires
        0 <= k < client::answers_in(m).len(),
    ensures
        0 <= i < m.len(),
        m[i].1 is Ok,
        client::answers_in(m)[k] == (m[i].0, m[i].1->Ok_0),
    decreases m.len(),
{
    assert(m.len() > 0);
    let rest = m.drop_last();
    if k < client::answers_in(rest).len() {
        let i = no_answer_is_made_up(rest, k);
        assert(rest[i] == m[i]);
        i
    } else {
        m.len() - 1
    }
}

/// A question that nobody answered is an error with the question and every
/// provider's failure, in order.
pub proof fn no_answer_carries_every_failure<V>(what: Seq<char>, m: Seq<ResultView<V>>)
    requires
        forall|i: int| 0 <= i < m.len() ==> (#[trigger] m[i]).1 is Err,
    ensures
        client::answers_in(m).len() == 0,
        client::no_answer(what, m) == (ErrorView::NoProviderAnswered {
            what,
            failures: text::joined(
                Seq::new(
                    m.len(),
                    |i: int| m[i].0 + ": "@ + crate::error::error_text(m[i].1->Err_0),
                ),
                "; "@,
            ),
        }),
{
    let n = m.len() as int;
    client::unanswered_iff_all_failed(m);
    assert(m.take(n) =~= m);
    answers_are_counted(m, n);
    no_answer_before(m, n);
    let all = Seq::new(
        m.len(),
        |i: int| m[i].0 + ": "@ + crate::error::error_text(m[i].1->Err_0),
    );
    assert forall|i: int| 0 <= i < n implies client::failures_in(m)[i] == #[trigger] all[i] by {
        no_answer_before(m, i);
        place(m, i, n);
    }
    assert(client::failures_in(m) =~= all);
}

proof fn no_answer_before<V>(m: Seq<ResultView<V>>, i: int)
    requires
        0 <= i <= m.len(),
        forall|k: int| 0 <= k < m.len() ==> (#[trigger] m[k]).1 is Err,
    ensures
        answers_before(m, i) == 0,
    decreases i,
{
    reveal(Seq::filter);
    if i > 0 {
        no_answer_before(m, i - 1);
        one_more_result(m, i - 1);
    } else {
        assert(m.take(0) =~= Seq::empty());
    }
}

/// A body that is no number is a failure that quotes it and says why.
pub proof fn a_body_that_is_no_number_is_a_failure(t: Seq<char>)
    requires
        text::number(text::trimmed(t)) is None,
    ensures
        client::height_of(Ok(Some(t))) is Err,
        client::height_of(Ok(Some(t)))->Err_0 is Http,
        text::has_part(
            client::height_of(Ok(Some(t)))->Err_0->Http_0,
            text::debug_text(text::trimmed(t)) + ": "@ + text::number_error(text::trimmed(t)),
        ),
{
    let s = text::trimmed(t);
    end_is_a_part("unparseable height "@, text::debug_text(s), ": "@, text::number_error(s));
}

proof fn end_is_a_part(start: Seq<char>, x: Seq<char>, y: Seq<char>, z: Seq<char>)
    ensures
        text::has_part(start + x + y + z, x + y + z),
{
    let none = Seq::<char>::empty();
    regrouped(start, x, y, z);
    text::part_of_itself(x + y + z);
    text::part_of_longer(start, x + y + z, none, x + y + z);
}

proof fn regrouped(start: Seq<char>, x: Seq<char>, y: Seq<char>, z: Seq<char>)
    ensures
        start + x + y + z == start + (x + y + z) + Seq::<char>::empty(),
{
    assert(start + x + y =~= start + (x + y));
    assert(start + (x + y) + z =~= start + (x + y + z));
    assert(start + (x + y + z) + Seq::<char>::empty() =~= start + (x + y + z));
}

/// Where every provider failed, or gave no number, the error about the tip names
/// every one of them.
pub proof fn no_tip_names_every_provider(m: Seq<ResultView<Seq<char>>>, e: ErrorView, i: int)
    requires
        client::tip_verdict(m, Err(e)),
        forall|k: int| 0 <= k < m.len() ==> (#[trigger] m[k]).1 != Ok::<
            Option<Seq<char>>,
            ErrorView,
        >(None),
        0 <= i < m.len(),
    ensures
        text::has_part(crate::error::error_text(e), m[i].0),
{
    let hm = client::heights_model(m);
    no_tip_without_a_number(m, Err(e));
    assert forall|k: int| 0 <= k < hm.len() implies (#[trigger] hm[k]).1 is Err by {
        assert(m[k].1 != Ok::<Option<Seq<char>>, ErrorView>(None));
        assert(height_written(m[k]) is None);
        assert(hm[k] == (m[k].0, client::height_of(m[k].1)));
    }
    no_answer_carries_every_failure("/blocks/tip/height"@, hm);
    client::no_answer_names_every_provider("/blocks/tip/height"@, hm, i);
}

/// Every provider is asked, once and in order: at the path under its own root.
pub proof fn every_provider_is_asked(providers: Seq<Seq<char>>, path: Seq<char>, i: int)
    requires
        0 <= i < providers.len(),
    ensures
        client::asked(providers, path).len() == providers.len(),
        client::asked(providers, path)[i].0 == providers[i],
        client::asked(providers, path)[i].1 == providers[i] + path,
{
}

/// What is left of nothing says nothing: an empty rejection is a rejection.
proof fn silence_is_not_already_known()
    ensures
        !policy::says_already_known(Seq::empty()),
{
    policy::laws::real_rejections_are_not_swallowed(Seq::empty());
}

/// A broadcast succeeds exactly when some provider replies with a status from
/// 200 to 299, or refuses it saying that it already has it.
pub proof fn broadcast_needs_one_acceptance(
    m: Seq<BroadcastReply>,
    r: Result<Seq<char>, ErrorView>,
)
    requires
        client::broadcast_verdict(m, r),
    ensures
        r is Ok <==> exists|k: int|
            0 <= k < m.len() && (#[trigger] m[k]).1 is Ok && (200 <= m[k].1->Ok_0.status <= 299 || (
            m[k].1->Ok_0.body is Ok && policy::says_already_known(
                text::trimmed(m[k].1->Ok_0.body->Ok_0),
            ))),
{
    client::any_acceptance_wins(m, r);
    silence_is_not_already_known();
    if r is Ok {
        let k = choose|k: int| 0 <= k < m.len() && client::accepted(#[trigger] m[k]);
        assert(m[k].1 is Ok);
    }
    if exists|k: int|
        0 <= k < m.len() && (#[trigger] m[k]).1 is Ok && (200 <= m[k].1->Ok_0.status <= 299 || (
        m[k].1->Ok_0.body is Ok && policy::says_already_known(
            text::trimmed(m[k].1->Ok_0.body->Ok_0),
        ))) {
        let k = choose|k: int|
            0 <= k < m.len() && (#[trigger] m[k]).1 is Ok && (200 <= m[k].1->Ok_0.status <= 299 || (
            m[k].1->Ok_0.body is Ok && policy::says_already_known(
                text::trimmed(m[k].1->Ok_0.body->Ok_0),
            )));
        assert(client::accepted(m[k]));
    }
}

/// What is returned is the txid that the first provider to echo one echoed,
/// whole: its body without the white space around it.
pub proof fn the_first_echo_is_returned(
    m: Seq<BroadcastReply>,
    r: Result<Seq<char>, ErrorView>,
    k: int,
    before: Seq<char>,
    txid: Seq<char>,
    after: Seq<char>,
)
    requires
        client::broadcast_verdict(m, r),
        0 <= k < m.len(),
        m[k].1 is Ok,
        200 <= m[k].1->Ok_0.status <= 299,
        m[k].1->Ok_0.body == Ok::<Seq<char>, Seq<char>>(before + txid + after),
        text::laws::blank(before),
        text::laws::blank(after),
        txid.len() > 0,
        !text::is_space(txid.first()),
        !text::is_space(txid.last()),
        forall|j: int|
            0 <= j < k && (#[trigger] m[j]).1 is Ok && 200 <= m[j].1->Ok_0.status <= 299
                && m[j].1->Ok_0.body is Ok ==> text::trimmed(m[j].1->Ok_0.body->Ok_0).len() == 0,
    ensures
        r == Ok::<Seq<char>, ErrorView>(txid),
{
    text::laws::trimming_gives_back_what_was_padded(before, txid, after);
    assert(client::echoed(m[k]) == Some(txid));
    assert forall|j: int| 0 <= j < k implies client::echoed(#[trigger] m[j]) is None by {}
    assert(client::is_first_echo(m, k));
    client::any_acceptance_wins(m, r);
    assert(client::accepted(m[k]));
    client::broadcast_verdict_is_unique(m, r, Ok(txid));
}

/// Where no provider that accepts says anything, what is returned is empty.
pub proof fn no_echo_returns_nothing(m: Seq<BroadcastReply>, txid: Seq<char>)
    requires
        client::broadcast_verdict(m, Ok(txid)),
        forall|j: int|
            0 <= j < m.len() && (#[trigger] m[j]).1 is Ok && 200 <= m[j].1->Ok_0.status <= 299
                && m[j].1->Ok_0.body is Ok ==> text::trimmed(m[j].1->Ok_0.body->Ok_0).len() == 0,
    ensures
        txid.len() == 0,
{
    client::echo_is_never_displaced(m, txid);
}

/// What is returned is empty or what a provider echoed.
pub proof fn no_txid_is_made_up(m: Seq<BroadcastReply>, txid: Seq<char>)
    requires
        client::broadcast_verdict(m, Ok(txid)),
        txid.len() > 0,
    ensures
        exists|k: int|
            0 <= k < m.len() && (#[trigger] m[k]).1 is Ok && 200 <= m[k].1->Ok_0.status <= 299
                && m[k].1->Ok_0.body is Ok && text::trimmed(m[k].1->Ok_0.body->Ok_0) == txid,
{
    client::echo_is_never_displaced(m, txid);
    let k = choose|k: int| 0 <= k < m.len() && client::echoed(#[trigger] m[k]) == Some(txid);
    assert(m[k].1 is Ok);
}

/// A broadcast that nobody accepted is an error with every provider's reason, in
/// order: what it said, without the white space around it, or why it could not
/// be asked.
pub proof fn a_rejection_carries_every_reason(m: Seq<BroadcastReply>, e: ErrorView)
    requires
        client::broadcast_verdict(m, Err(e)),
    ensures
        e == (ErrorView::BroadcastRejected {
            failures: text::joined(
                Seq::new(
                    m.len(),
                    |k: int|
                        m[k].0 + ": "@ + match m[k].1 {
                            Ok(reply) => match reply.body {
                                Ok(t) => text::trimmed(t),
                                Err(_) => Seq::empty(),
                            },
                            Err(why) => why,
                        },
                ),
                "; "@,
            ),
        }),
{
    assert(m.map_values(|x: BroadcastReply| client::refusal(x)) =~= Seq::new(
        m.len(),
        |k: int|
            m[k].0 + ": "@ + match m[k].1 {
                Ok(reply) => match reply.body {
                    Ok(t) => text::trimmed(t),
                    Err(_) => Seq::empty(),
                },
                Err(why) => why,
            },
    ));
}

} // verus!
