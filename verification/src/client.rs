//! The client's side of a question, without the network: which URLs to ask, and
//! what the replies come to.
//!
//! Everything here is reading replies; every decision about answers lives in
//! [`crate::policy`]. A transport performs the requests and hands back what
//! came of them.

use vstd::prelude::*;
use vstd::string::StringExecFns;

use crate::error::{Error, ErrorView};
use crate::policy;
use crate::policy::Spend;
use crate::text::{debug, join, parse_number, trim};
use crate::types::{normalise, route, AddressTx, Answer, Outspend, TxInfo};

pub mod laws;

verus! {

/// What came back of a request that was answered.
#[derive(Debug, PartialEq, Eq)]
pub struct Reply {
    /// The HTTP status code.
    pub status: u16,
    /// The body, or why it could not be read.
    pub body: Result<String, String>,
}

/// A [`Reply`] with its texts as sequences of characters.
pub struct ReplyView {
    pub status: u16,
    pub body: Result<Seq<char>, Seq<char>>,
}

/// A result over text with the texts as sequences of characters.
pub open spec fn text_result(r: Result<String, String>) -> Result<Seq<char>, Seq<char>> {
    match r {
        Ok(t) => Ok(t@),
        Err(e) => Err(e@),
    }
}

impl View for Reply {
    type V = ReplyView;

    open spec fn view(&self) -> ReplyView {
        ReplyView { status: self.status, body: text_result(self.body) }
    }
}

/// What a request came to, with texts as sequences of characters: a reply, or
/// why there is none.
pub open spec fn exchange(r: Result<Reply, String>) -> Result<ReplyView, Seq<char>> {
    match r {
        Ok(reply) => Ok(reply@),
        Err(e) => Err(e@),
    }
}

/// The status codes of success.
pub open spec fn success(status: u16) -> bool {
    200 <= status < 300
}

/// Whether a status code is one of success, and the body worth reading.
pub fn is_success(status: u16) -> (r: bool)
    ensures
        r == success(status),
{
    200 <= status && status < 300
}

/// The status code of "never heard of it".
pub const NOT_FOUND: u16 = 404;

/// How a status code is written: the code and its reason phrase. For a number
/// that is no status code, the text of the error that says so.
pub uninterp spec fn status_line(status: u16) -> Seq<char>;

/// Writes a status code with the `Display` of `reqwest::StatusCode`, made by
/// its `from_u16`; where that refuses the number, with the `Display` of the
/// error.
///
/// The contract names the result, and claims of a code from 100 to 999 that the
/// text begins with the code in decimal and a space. The reason phrase that
/// follows is not said.
#[verifier::external_body]
fn write_status(status: u16) -> (r: String)
    ensures
        r@ == status_line(status),
        100 <= status <= 999 ==> (crate::text::decimal(status as nat) + " "@).is_prefix_of(r@),
{
    match reqwest::StatusCode::from_u16(status) {
        Ok(code) => code.to_string(),
        Err(e) => e.to_string(),
    }
}

/// The body of a GET: none on a 404, which is an answer and not a failure.
pub open spec fn body_of(r: Result<ReplyView, Seq<char>>) -> Result<Option<Seq<char>>, ErrorView> {
    match r {
        Err(e) => Err(ErrorView::Http(e)),
        Ok(reply) => if reply.status == NOT_FOUND {
            Ok(None)
        } else if !success(reply.status) {
            Err(ErrorView::Http("HTTP "@ + status_line(reply.status)))
        } else {
            match reply.body {
                Ok(text) => Ok(Some(text)),
                Err(e) => Err(ErrorView::Http(e)),
            }
        },
    }
}

/// The height that a body writes, with or without white space around it.
pub open spec fn height_of(body: Result<Option<Seq<char>>, ErrorView>) -> Result<
    Option<u64>,
    ErrorView,
> {
    match body {
        Ok(Some(text)) => {
            let t = crate::text::trimmed(text);
            match crate::text::number(t) {
                Some(n) => Ok(Some(n as u64)),
                None => Err(
                    ErrorView::Http(
                        "unparseable height "@ + crate::text::debug_text(t) + ": "@
                            + crate::text::number_error(t),
                    ),
                ),
            }
        },
        Ok(None) => Ok(None),
        Err(e) => Err(e),
    }
}

/// What one provider's result is, with texts as sequences of characters.
pub open spec fn result_model<T: DeepView>(x: (String, Result<Option<T>, Error>)) -> (
    Seq<char>,
    Result<Option<T::V>, ErrorView>,
) {
    (x.0@, crate::error::outcome(x.1))
}

/// The results of all providers, with texts as sequences of characters.
pub open spec fn results_model<T: DeepView>(
    results: Seq<(String, Result<Option<T>, Error>)>,
) -> Seq<(Seq<char>, Result<Option<T::V>, ErrorView>)> {
    results.map_values(|x: (String, Result<Option<T>, Error>)| result_model(x))
}

/// The answers among the results, in order.
pub open spec fn answers_in<V>(m: Seq<(Seq<char>, Result<Option<V>, ErrorView>)>) -> Seq<
    (Seq<char>, Option<V>),
> {
    m.filter_map(
        |x: (Seq<char>, Result<Option<V>, ErrorView>)|
            match x.1 {
                Ok(answer) => Some((x.0, answer)),
                Err(_) => None,
            },
    )
}

/// The failures among the results, in order, each with its provider.
pub open spec fn failures_in<V>(m: Seq<(Seq<char>, Result<Option<V>, ErrorView>)>) -> Seq<
    Seq<char>,
> {
    m.filter_map(
        |x: (Seq<char>, Result<Option<V>, ErrorView>)|
            match x.1 {
                Ok(_) => None,
                Err(e) => Some(x.0 + ": "@ + crate::error::error_text(e)),
            },
    )
}

/// The error of a question that not one provider answered.
pub open spec fn no_answer<V>(
    what: Seq<char>,
    m: Seq<(Seq<char>, Result<Option<V>, ErrorView>)>,
) -> ErrorView {
    ErrorView::NoProviderAnswered {
        what,
        failures: crate::text::joined(failures_in(m), "; "@),
    }
}

/// Rendering the errors keeps answers and failures.
proof fn rendering_keeps<T: DeepView>(
    results: Seq<(String, Result<Option<T>, Error>)>,
    rendered: Seq<policy::Fetched<T>>,
)
    requires
        rendered.len() == results.len(),
        forall|i: int|
            0 <= i < results.len() ==> is_rendering(results[i], #[trigger] rendered[i]),
    ensures
        policy::answers_of(rendered).map_values(|x: Answer<T>| x.deep_view()) == answers_in(
            results_model(results),
        ),
        policy::failures_of(rendered) == failures_in(results_model(results)),
    decreases results.len(),
{
    let view = |x: Answer<T>| x.deep_view();
    let m = results_model(results);
    if results.len() > 0 {
        let n = results.len() - 1;
        rendering_keeps(results.drop_last(), rendered.drop_last());
        assert(m.drop_last() =~= results_model(results.drop_last()));
        assert(m.last() == result_model(results[n]));
        assert(is_rendering(results[n], rendered[n]));
        assert(policy::answers_of(rendered).map_values(view) =~= answers_in(m));
        assert(policy::failures_of(rendered) =~= failures_in(m));
    } else {
        assert(policy::answers_of(rendered).map_values(view) =~= answers_in(m));
        assert(policy::failures_of(rendered) =~= failures_in(m));
    }
}

/// `rendered` is the result with its error as text.
spec fn is_rendering<T>(
    result: (String, Result<Option<T>, Error>),
    rendered: policy::Fetched<T>,
) -> bool {
    &&& rendered.0 == result.0
    &&& match result.1 {
        Ok(answer) => rendered.1 == Ok::<Option<T>, String>(answer),
        Err(e) => rendered.1 matches Err(text) && text@ == crate::error::error_text(e@),
    }
}

/// The answers to the question `path`, or the error that there is none.
fn answers<T: DeepView>(path: &str, results: Vec<(String, Result<Option<T>, Error>)>) -> (r: Result<
    Vec<Answer<T>>,
    Error,
>)
    ensures
        match r {
            Ok(found) => {
                &&& found.deep_view() == answers_in(results_model(results@))
                &&& found.len() > 0
            },
            Err(e) => {
                &&& answers_in(results_model(results@)).len() == 0
                &&& e@ == no_answer(path@, results_model(results@))
            },
        },
{
    let ghost given = results@;
    let mut rendered: Vec<policy::Fetched<T>> = Vec::new();
    for result in it: results
        invariant
            it.seq() == given,
            rendered.len() == it.index(),
            forall|i: int|
                0 <= i < it.index() ==> is_rendering(given[i], #[trigger] rendered@[i]),
    {
        let (base, res) = result;
        match res {
            Ok(answer) => {
                rendered.push((base, Ok(answer)));
            },
            Err(e) => {
                rendered.push((base, Err(e.to_string())));
            },
        }
    }
    let ghost all = rendered@;
    proof {
        rendering_keeps(given, all);
    }
    match policy::collect_rendered(path, rendered) {
        Ok((found, _)) => {
            assert(found.deep_view() =~= policy::answers_of(all).map_values(
                |x: Answer<T>| x.deep_view(),
            ));
            Ok(found)
        },
        Err(e) => {
            proof {
                assert(policy::answers_of(all).map_values(
                    |x: Answer<T>| x.deep_view(),
                ).len() == 0);
            }
            Err(e)
        },
    }
}

/// The providers' results, each height read from its body.
pub open spec fn heights_model(
    m: Seq<(Seq<char>, Result<Option<Seq<char>>, ErrorView>)>,
) -> Seq<(Seq<char>, Result<Option<u64>, ErrorView>)> {
    m.map_values(
        |x: (Seq<char>, Result<Option<Seq<char>>, ErrorView>)| (x.0, height_of(x.1)),
    )
}

/// The heights among the answers, in order.
pub open spec fn heights_in(answers: Seq<(Seq<char>, Option<u64>)>) -> Seq<u64> {
    answers.filter_map(|x: (Seq<char>, Option<u64>)| x.1)
}

/// What the bodies returned for the tip's height come to.
pub open spec fn tip_verdict(
    m: Seq<(Seq<char>, Result<Option<Seq<char>>, ErrorView>)>,
    r: Result<u64, ErrorView>,
) -> bool {
    let heights = heights_in(answers_in(heights_model(m)));
    match r {
        Ok(tip) => heights.len() > 0 && policy::tip::is_agreed_tip(heights, tip),
        Err(e) => heights.len() == 0 && e == if answers_in(heights_model(m)).len() == 0 {
            no_answer("/blocks/tip/height"@, heights_model(m))
        } else {
            ErrorView::NoProviderAnswered {
                what: "/blocks/tip/height"@,
                failures: "every provider answered without a height"@,
            }
        },
    }
}

/// What one provider said to a broadcast.
pub type BroadcastReply = (Seq<char>, Result<ReplyView, Seq<char>>);

/// What a reply to a broadcast says, without the white space around it; nothing
/// where it could not be read.
pub open spec fn said(reply: ReplyView) -> Seq<char> {
    match reply.body {
        Ok(text) => crate::text::trimmed(text),
        Err(_) => Seq::empty(),
    }
}

/// The txid that a provider echoed back on accepting the broadcast.
pub open spec fn echoed(x: BroadcastReply) -> Option<Seq<char>> {
    match x.1 {
        Ok(reply) => if success(reply.status) && said(reply).len() > 0 {
            Some(said(reply))
        } else {
            None
        },
        Err(_) => None,
    }
}

/// The provider accepted the broadcast without echoing a txid: it said nothing,
/// or that it has the transaction already.
pub open spec fn acknowledged(x: BroadcastReply) -> bool {
    x.1 matches Ok(reply) && if success(reply.status) {
        said(reply).len() == 0
    } else {
        policy::says_already_known(said(reply))
    }
}

/// The provider accepted the broadcast.
pub open spec fn accepted(x: BroadcastReply) -> bool {
    echoed(x) is Some || acknowledged(x)
}

/// Why the provider did not accept the broadcast.
pub open spec fn refusal(x: BroadcastReply) -> Seq<char> {
    x.0 + ": "@ + match x.1 {
        Ok(reply) => said(reply),
        Err(e) => e,
    }
}

/// `k` is the first reply that echoes a txid.
pub open spec fn is_first_echo(m: Seq<BroadcastReply>, k: int) -> bool {
    &&& 0 <= k < m.len()
    &&& echoed(m[k]) is Some
    &&& forall|j: int| 0 <= j < k ==> echoed(#[trigger] m[j]) is None
}

/// What the providers' replies to a broadcast come to.
pub open spec fn broadcast_verdict(
    m: Seq<BroadcastReply>,
    r: Result<Seq<char>, ErrorView>,
) -> bool {
    match r {
        Ok(txid) => {
            ||| exists|k: int| #[trigger] is_first_echo(m, k) && echoed(m[k]) == Some(txid)
            ||| {
                &&& forall|k: int| 0 <= k < m.len() ==> echoed(#[trigger] m[k]) is None
                &&& exists|k: int| 0 <= k < m.len() && acknowledged(#[trigger] m[k])
                &&& txid == Seq::<char>::empty()
            }
        },
        Err(e) => {
            &&& forall|k: int| 0 <= k < m.len() ==> !accepted(#[trigger] m[k])
            &&& e == (ErrorView::BroadcastRejected {
                failures: crate::text::joined(m.map_values(|x: BroadcastReply| refusal(x)), "; "@),
            })
        },
    }
}

/// The replies to a broadcast, with texts as sequences of characters.
pub open spec fn replies_model(replies: Seq<(String, Result<Reply, String>)>) -> Seq<
    BroadcastReply,
> {
    replies.map_values(|x: (String, Result<Reply, String>)| (x.0@, exchange(x.1)))
}

/// What is asked of whom: each provider, and the URL of `path` under its root.
pub open spec fn asked(providers: Seq<Seq<char>>, path: Seq<char>) -> Seq<(Seq<char>, Seq<char>)> {
    providers.map_values(|base: Seq<char>| (base, base + path))
}

/// Multi-provider Esplora client: the providers it asks, and how it reads what
/// they reply.
#[derive(Debug, Clone)]
pub struct Chain {
    providers: Vec<String>,
}

impl View for Chain {
    type V = Seq<Seq<char>>;

    closed spec fn view(&self) -> Seq<Seq<char>> {
        self.providers.deep_view()
    }
}

impl Chain {
    /// There is a provider, none is blank, and none stands twice.
    pub open spec fn wf(&self) -> bool {
        &&& self@.len() > 0
        &&& forall|i: int| 0 <= i < self@.len() ==> (#[trigger] self@[i]).len() > 0
        &&& self@.no_duplicates()
    }

    /// `bases` are API roots, e.g. `https://blockstream.info/api`. Trailing
    /// slashes are trimmed and blanks dropped.
    ///
    /// Deliberately does NOT substitute defaults for an empty list. Which
    /// providers to trust is the caller's decision, and silently supplying our
    /// favourites would make a misconfigured deployment look configured.
    pub fn new(bases: Vec<String>) -> (r: Result<Chain, Error>)
        ensures
            match r {
                Ok(chain) => {
                    &&& chain.wf()
                    &&& chain@ == crate::types::roots(bases.deep_view())
                },
                Err(e) => {
                    &&& crate::types::roots(bases.deep_view()).len() == 0
                    &&& e@ == ErrorView::NoProviders
                },
            },
    {
        let ghost given = bases.deep_view();
        let providers = normalise(bases);
        if providers.is_empty() {
            assert(providers.deep_view().len() == 0);
            return Err(Error::NoProviders);
        }
        proof {
            crate::types::roots_are_distinct(given);
        }
        Ok(Chain { providers })
    }

    /// The configured provider roots.
    pub fn providers(&self) -> (r: &[String])
        ensures
            r.deep_view() == self@,
    {
        let r = self.providers.as_slice();
        assert(r.deep_view() =~= self@);
        r
    }

    /// See [`policy::quorum_warning`].
    pub fn quorum_warning(&self) -> (r: Option<String>)
        ensures
            match r {
                Some(warning) => {
                    &&& self@.len() < policy::MIN_PROVIDERS_FOR_MAJORITY
                    &&& warning@ == policy::warning_text(self@.len() as usize)
                },
                None => self@.len() >= policy::MIN_PROVIDERS_FOR_MAJORITY,
            },
    {
        assert(self@.len() == self.providers.len());
        policy::quorum_warning(self.providers.len())
    }

    /// The requests that put a question to EVERY provider: each one's root, and
    /// the URL of `path` under it.
    pub fn requests(&self, path: &str) -> (r: Vec<(String, String)>)
        ensures
            r.deep_view() == asked(self@, path@),
    {
        let mut r: Vec<(String, String)> = Vec::new();
        let mut i: usize = 0;
        while i < self.providers.len()
            invariant
                i <= self.providers.len(),
                r.len() == i,
                forall|j: int|
                    0 <= j < i ==> (#[trigger] r@[j]).0@ == self@[j] && r@[j].1@ == self@[j]
                        + path@,
            decreases self.providers.len() - i,
        {
            let base = &self.providers[i];
            r.push((base.clone(), base.clone().concat(path)));
            i = i + 1;
        }
        assert(r.deep_view() =~= asked(self@, path@));
        r
    }

    /// The body of a GET: `None` on 404, which is an answer and not a failure.
    pub fn text(reply: Result<Reply, String>) -> (r: Result<Option<String>, Error>)
        ensures
            crate::error::outcome(r) == body_of(exchange(reply)),
            match reply {
                Err(e) => r matches Err(why) && why@ == ErrorView::Http(e@),
                Ok(reply) => if reply.status == 404 {
                    r == Ok::<Option<String>, Error>(None)
                } else if 200 <= reply.status <= 299 {
                    match reply.body {
                        Ok(body) => r == Ok::<Option<String>, Error>(Some(body)),
                        Err(e) => r matches Err(why) && why@ == ErrorView::Http(e@),
                    }
                } else {
                    &&& r matches Err(why) && why@ is Http
                    &&& 100 <= reply.status <= 999 ==> ("HTTP "@ + crate::text::decimal(
                        reply.status as nat,
                    ) + " "@).is_prefix_of(r->Err_0@->Http_0)
                },
            },
    {
        match reply {
            Err(e) => Err(Error::Http(e)),
            Ok(reply) => {
                if reply.status == NOT_FOUND {
                    return Ok(None);
                }
                if !is_success(reply.status) {
                    let line = write_status(reply.status);
                    proof {
                        let code = crate::text::decimal(reply.status as nat) + " "@;
                        let whole = "HTTP "@ + line@;
                        let start = "HTTP "@ + crate::text::decimal(reply.status as nat) + " "@;
                        if code.is_prefix_of(line@) {
                            assert(start =~= "HTTP "@ + code);
                            assert(line@.subrange(0, code.len() as int) =~= code);
                            assert(whole.subrange(0, start.len() as int) =~= "HTTP "@
                                + line@.subrange(0, code.len() as int));
                        }
                    }
                    return Err(Error::Http("HTTP ".to_owned().concat(line.as_str())));
                }
                match reply.body {
                    Ok(text) => Ok(Some(text)),
                    Err(e) => Err(Error::Http(e)),
                }
            },
        }
    }

    /// The height that a body writes.
    pub fn height(body: Result<Option<String>, Error>) -> (r: Result<Option<u64>, Error>)
        ensures
            crate::error::outcome(r) == height_of(crate::error::outcome(body)),
    {
        match body {
            Ok(Some(text)) => {
                let t = trim(text.as_str());
                match parse_number(t) {
                    Ok(h) => Ok(Some(h)),
                    Err(e) => Err(
                        Error::Http(
                            "unparseable height ".to_owned().concat(debug(t).as_str()).concat(
                                ": ",
                            ).concat(e.as_str()),
                        ),
                    ),
                }
            },
            Ok(None) => Ok(None),
            Err(e) => Err(e),
        }
    }

    /// The value that a body holds, once decoded: a body that does not decode is
    /// a failure of its provider.
    pub fn decoded<T>(
        path: &str,
        body: Result<Option<Result<T, String>>, Error>,
    ) -> (r: Result<Option<T>, Error>)
        ensures
            match body {
                Ok(Some(Ok(value))) => r == Ok::<Option<T>, Error>(Some(value)),
                Ok(Some(Err(e))) => r matches Err(failure) && failure@ == ErrorView::Http(
                    "decoding "@ + path@ + ": "@ + e@,
                ),
                Ok(None) => r == Ok::<Option<T>, Error>(None),
                Err(e) => r == Err::<Option<T>, Error>(e),
            },
    {
        match body {
            Ok(Some(Ok(value))) => Ok(Some(value)),
            Ok(Some(Err(e))) => Err(
                Error::Http("decoding ".to_owned().concat(path).concat(": ").concat(e.as_str())),
            ),
            Ok(None) => Ok(None),
            Err(e) => Err(e),
        }
    }

    /// Chain tip, from the bodies of every provider, never the first alone,
    /// because a wrong height decides when a timelock has elapsed.
    pub fn tip_height(bodies: Vec<(String, Result<Option<String>, Error>)>) -> (r: Result<
        u64,
        Error,
    >)
        ensures
            tip_verdict(results_model(bodies@), crate::error::outcome(r)),
    {
        let ghost given = bodies@;
        let ghost m = results_model(given);
        let path = route::tip_height();
        let mut results: Vec<(String, Result<Option<u64>, Error>)> = Vec::new();
        for body in it: bodies
            invariant
                it.seq() == given,
                m == results_model(given),
                results.len() == it.index(),
                forall|i: int|
                    0 <= i < it.index() ==> result_model(#[trigger] results@[i]) == (
                        m[i].0,
                        height_of(m[i].1),
                    ),
        {
            let (base, text) = body;
            results.push((base, Chain::height(text)));
        }
        assert(results_model(results@) =~= heights_model(m));
        let found = answers(path, results)?;
        let ghost a = answers_in(heights_model(m));
        let ghost all = found@;
        let mut heights: Vec<u64> = Vec::new();
        assert(a.take(0) =~= Seq::empty());
        for answer in it: found
            invariant
                it.seq() == all,
                a.len() == all.len(),
                forall|i: int| 0 <= i < a.len() ==> (#[trigger] all[i]).deep_view() == a[i],
                heights@ == heights_in(a.take(it.index())),
        {
            let ghost n = it.index();
            proof {
                assert(a.take(n + 1).drop_last() =~= a.take(n));
                assert(a.take(n + 1).last() == a[n]);
                assert(all[n].deep_view() == a[n]);
            }
            let (_, height) = answer;
            if let Some(h) = height {
                heights.push(h);
            }
        }
        assert(a.take(a.len() as int) =~= a);
        match policy::agreed_tip(heights) {
            Some(tip) => Ok(tip),
            None => Err(
                Error::NoProviderAnswered {
                    what: path.to_owned(),
                    failures: "every provider answered without a height".to_owned(),
                },
            ),
        }
    }

    /// `None` if NO provider has heard of the transaction.
    pub fn tx(txid: &str, results: Vec<(String, Result<Option<TxInfo>, Error>)>) -> (r: Result<
        Option<TxInfo>,
        Error,
    >)
        ensures
            ({
                let m = results_model(results@);
                if answers_in(m).len() == 0 {
                    crate::error::outcome(r) == Err::<
                        Option<crate::types::TxInfoView>,
                        ErrorView,
                    >(no_answer("/tx/"@ + txid@, m))
                } else {
                    policy::tx::tx_verdict(txid@, answers_in(m), crate::error::outcome(r))
                }
            }),
            forall|i: int|
                0 <= i < results@.len() && (#[trigger] results@[i]).1 is Ok
                    && results@[i].1->Ok_0 is Some ==> r is Err || r->Ok_0 is Some,
            forall|i: int|
                0 <= i < results@.len() && ((#[trigger] results@[i]).1 matches Ok(Some(info))
                    && info.status.confirmed && info.status.block_height is Some) ==> r is Err || (
                r matches Ok(Some(info)) && info.status.confirmed && info.status.block_height
                    == results@[i].1->Ok_0->0.status.block_height),
    {
        let ghost given = results@;
        let ghost m = results_model(given);
        let path = route::tx(txid);
        let found = answers(path.as_str(), results)?;
        let r = policy::reconcile_tx(txid, found);
        proof {
            let a = answers_in(m);
            let out = crate::error::outcome(r);
            policy::tx::laws::unknown_only_to_everybody(txid@, a, out);
            assert forall|i: int|
                0 <= i < given.len() && (#[trigger] given[i]).1 is Ok
                    && given[i].1->Ok_0 is Some implies r is Err || r->Ok_0 is Some by {
                laws::every_result_is_modelled(given, i);
                laws::every_answer_is_read_in_its_place(m, i);
                assert(a[laws::answers_before(m, i)].1 is Some);
            }
            assert forall|i: int|
                0 <= i < given.len() && ((#[trigger] given[i]).1 matches Ok(Some(info))
                    && info.status.confirmed && info.status.block_height is Some) implies r is Err
                || (r matches Ok(Some(info)) && info.status.confirmed && info.status.block_height
                == given[i].1->Ok_0->0.status.block_height) by {
                laws::every_result_is_modelled(given, i);
                laws::every_answer_is_read_in_its_place(m, i);
                policy::tx::laws::a_known_block_is_returned(
                    txid@,
                    a,
                    out,
                    laws::answers_before(m, i),
                    given[i].1->Ok_0->0.status.block_height->0,
                );
            }
        }
        r
    }

    /// Every transaction paying `address`, reconciled across providers.
    ///
    /// Existence unions and confirmation takes a majority; see
    /// [`policy::reconcile_address_txs`] for why those two differ.
    pub fn address_txs(
        address: &str,
        results: Vec<(String, Result<Option<Vec<AddressTx>>, Error>)>,
    ) -> (r: Result<Vec<AddressTx>, Error>)
        ensures
            ({
                let m = results_model(results@);
                if answers_in(m).len() == 0 {
                    crate::error::outcome(r) == Err::<
                        Seq<crate::types::AddressTxView>,
                        ErrorView,
                    >(no_answer("/address/"@ + address@ + "/txs"@, m))
                } else {
                    policy::address::address_verdict(
                        address@,
                        answers_in(m),
                        crate::error::outcome(r),
                    )
                }
            }),
            forall|i: int, k: int, v: int|
                {
                    &&& 0 <= i < results@.len()
                    &&& results@[i].1 matches Ok(Some(txs))
                    &&& 0 <= k < txs@.len()
                    &&& #[trigger] crate::types::names(
                        results@[i].1->Ok_0->0@[k].vout@,
                        address@,
                        v,
                    )
                } ==> r is Err || exists|j: int|
                    0 <= j < r->Ok_0@.len() && (#[trigger] r->Ok_0@[j]).txid@
                        == results@[i].1->Ok_0->0@[k].txid@,
    {
        let ghost given = results@;
        let ghost m = results_model(given);
        let path = route::address_txs(address);
        let found = answers(path.as_str(), results)?;
        let r = policy::reconcile_address_txs(address, found);
        proof {
            let a = answers_in(m);
            assert forall|i: int, k: int, v: int|
                {
                    &&& 0 <= i < given.len()
                    &&& given[i].1 matches Ok(Some(txs))
                    &&& 0 <= k < txs@.len()
                    &&& #[trigger] crate::types::names(given[i].1->Ok_0->0@[k].vout@, address@, v)
                } && r is Ok implies exists|j: int|
                0 <= j < r->Ok_0@.len() && (#[trigger] r->Ok_0@[j]).txid@
                    == given[i].1->Ok_0->0@[k].txid@ by {
                let tx = given[i].1->Ok_0->0@[k];
                let out = r->Ok_0.deep_view();
                let p = laws::answers_before(m, i);
                laws::every_result_is_modelled(given, i);
                laws::every_answer_is_read_in_its_place(m, i);
                crate::types::laws::address_tx_keeps_every_field(tx);
                crate::types::laws::output_keeps_every_field(tx.vout@[v]);
                assert((a[p].1->0)[k] == tx.deep_view());
                assert((a[p].1->0)[k].vout[v].scriptpubkey_address == Some(address@));
                policy::address::listings::any_output_is_reported(address@, a, out, tx.txid@);
                let j = choose|j: int| 0 <= j < out.len() && (#[trigger] out[j]).txid == tx.txid@;
                assert(r->Ok_0@[j].txid@ == tx.txid@);
            }
        }
        r
    }

    /// Raw transaction hex, or `None` if NO provider has heard of it.
    pub fn tx_hex(txid: &str, bodies: Vec<(String, Result<Option<String>, Error>)>) -> (r: Result<
        Option<String>,
        Error,
    >)
        ensures
            ({
                let m = results_model(bodies@);
                if answers_in(m).len() == 0 {
                    crate::error::outcome(r) == Err::<Option<Seq<char>>, ErrorView>(
                        no_answer("/tx/"@ + txid@ + "/hex"@, m),
                    )
                } else {
                    policy::hex::hex_verdict(txid@, answers_in(m), crate::error::outcome(r))
                }
            }),
            forall|i: int|
                0 <= i < bodies@.len() && ((#[trigger] bodies@[i]).1 matches Ok(Some(_))) ==> r is Err
                    || (r matches Ok(Some(hex)) && hex@ == crate::text::trimmed(
                    bodies@[i].1->Ok_0->0@,
                )),
    {
        let ghost given = bodies@;
        let ghost m = results_model(given);
        let path = route::tx_hex(txid);
        let found = answers(path.as_str(), bodies)?;
        let r = policy::reconcile_hex(txid, found);
        proof {
            let a = answers_in(m);
            let out = crate::error::outcome(r);
            assert forall|i: int|
                0 <= i < given.len() && ((#[trigger] given[i]).1 matches Ok(Some(_))) implies r is Err
                || (r matches Ok(Some(hex)) && hex@ == crate::text::trimmed(
                given[i].1->Ok_0->0@,
            )) by {
                let t = given[i].1->Ok_0->0@;
                let (before, after) = crate::text::laws::every_text_is_padded(t);
                laws::every_result_is_modelled(given, i);
                laws::every_answer_is_read_in_its_place(m, i);
                policy::hex::laws::hex_is_returned_whole(
                    txid@,
                    a,
                    out,
                    laws::answers_before(m, i),
                    before,
                    crate::text::trimmed(t),
                    after,
                );
            }
        }
        r
    }

    /// What spent `txid:vout`, confirmed or in the mempool.
    pub fn outspend(
        txid: &str,
        vout: u32,
        results: Vec<(String, Result<Option<Outspend>, Error>)>,
    ) -> (r: Result<Spend, Error>)
        ensures
            ({
                let m = results_model(results@);
                if answers_in(m).len() == 0 {
                    crate::error::outcome(r) == Err::<policy::outspend::SpendView, ErrorView>(
                        no_answer(
                            "/tx/"@ + txid@ + "/outspend/"@ + crate::text::decimal(vout as nat),
                            m,
                        ),
                    )
                } else {
                    policy::outspend::outspend_verdict(
                        txid@,
                        vout,
                        answers_in(m),
                        crate::error::outcome(r),
                    )
                }
            }),
            forall|i: int|
                0 <= i < results@.len() && ((#[trigger] results@[i]).1 matches Ok(Some(o))
                    && o.spent) ==> r is Err || r->Ok_0.outspend.spent,
            forall|i: int|
                0 <= i < results@.len() && ((#[trigger] results@[i]).1 matches Ok(Some(o)) && o.spent
                    && (o.status matches Some(s) && s.confirmed)) ==> r is Err || (
                r->Ok_0.outspend.status matches Some(s) && s.confirmed),
    {
        let ghost given = results@;
        let ghost m = results_model(given);
        let path = route::outspend(txid, vout);
        let found = answers(path.as_str(), results)?;
        let r = policy::reconcile_outspend(txid, vout, found);
        proof {
            let a = answers_in(m);
            assert forall|i: int|
                0 <= i < given.len() && ((#[trigger] given[i]).1 matches Ok(Some(o))
                    && o.spent) && r is Ok implies r->Ok_0.outspend.spent && ((
            given[i].1->Ok_0->0.status matches Some(s) && s.confirmed) ==> (
            r->Ok_0.outspend.status matches Some(s) && s.confirmed)) by {
                let k = laws::answers_before(m, i);
                let o = given[i].1->Ok_0->0;
                let spend = r->Ok_0.deep_view();
                laws::every_result_is_modelled(given, i);
                laws::every_answer_is_read_in_its_place(m, i);
                crate::types::laws::outspend_keeps_every_field(o);
                assert(a[k].1 == Some(o.deep_view()));
                policy::outspend::laws::a_reported_spend_is_returned(txid@, vout, a, spend);
                if o.status is Some {
                    policy::outspend::laws::the_deepest_status_is_returned(
                        txid@,
                        vout,
                        a,
                        spend,
                        k,
                    );
                }
            }
        }
        r
    }

    /// Confirmations of the transaction that [`Chain::tx`] found: 0 when in the
    /// mempool, `None` when unknown.
    pub fn confirmations(found: Result<Option<TxInfo>, Error>, tip: u64) -> (r: Result<
        Option<u64>,
        Error,
    >)
        requires
            found matches Ok(Some(info)) ==> crate::types::depth(info.deep_view().status, tip)
                <= u64::MAX,
        ensures
            match found {
                Ok(Some(info)) => r matches Ok(Some(n)) && n == crate::types::depth(
                    info.deep_view().status,
                    tip,
                ),
                Ok(None) => r == Ok::<Option<u64>, Error>(None),
                Err(e) => r == Err::<Option<u64>, Error>(e),
            },
            found matches Ok(Some(info)) ==> r->Ok_0->0 == if info.status.confirmed
                && info.status.block_height is Some {
                if tip >= info.status.block_height->0 {
                    tip - info.status.block_height->0 + 1
                } else {
                    1
                }
            } else {
                0
            },
    {
        match found {
            Ok(Some(info)) => Ok(Some(crate::types::confirmations(&info, tip))),
            Ok(None) => Ok(None),
            Err(e) => Err(e),
        }
    }

    /// What EVERY provider's reply to a broadcast comes to.
    ///
    /// One provider silently dropping a transaction must not lose a race, and
    /// "dropped" cannot be told from "accepted" after the fact. Sending twice is
    /// free; sending once and being wrong is not. A rejection meaning "we
    /// already have it" counts as acceptance.
    ///
    /// Returns the txid a provider echoed back. Empty when the only acceptance
    /// was an acknowledgement carrying no id: the transaction is in, and the
    /// caller already knows its txid, having built it.
    pub fn broadcast(replies: Vec<(String, Result<Reply, String>)>) -> (r: Result<String, Error>)
        ensures
            broadcast_verdict(replies_model(replies@), crate::error::outcome(r)),
    {
        let ghost m = replies_model(replies@);
        // An echoed txid and a bare "we already have it" are both acceptance,
        // but only one of them carries an id. Tracked apart so that whichever
        // provider answers first, a real txid is never displaced by the
        // acknowledgement.
        let ghost mut at: int = 0;
        let mut txid: Option<String> = None;
        let mut already_known = false;
        let mut failures: Vec<String> = Vec::new();
        for reply in it: replies
            invariant
                it.seq() == replies@,
                m == replies_model(replies@),
                match txid {
                    Some(id) => at < it.index() && is_first_echo(m, at) && echoed(m[at]) == Some(
                        id@,
                    ),
                    None => forall|k: int|
                        0 <= k < it.index() ==> echoed(#[trigger] m[k]) is None,
                },
                already_known <==> exists|k: int|
                    0 <= k < it.index() && acknowledged(#[trigger] m[k]),
                failures.len() <= it.index(),
                txid is None && !already_known ==> failures.len() == it.index(),
                failures.len() == it.index() ==> forall|k: int|
                    0 <= k < it.index() ==> refusal(m[k]) == (#[trigger] failures@[k])@,
        {
            let ghost n = it.index();
            assert(m[n] == (reply.0@, exchange(reply.1)));
            let (base, res) = reply;
            match res {
                Ok(reply) => {
                    let body = match reply.body {
                        Ok(text) => trim(text.as_str()).to_owned(),
                        Err(_) => String::new(),
                    };
                    assert(body@ == said(m[n].1->Ok_0));
                    if is_success(reply.status) {
                        if body.as_str().is_empty() {
                            already_known = true;
                        } else if txid.is_none() {
                            txid = Some(body);
                            proof {
                                at = n;
                            }
                        }
                    } else if policy::is_already_known(body.as_str()) {
                        already_known = true;
                    } else {
                        failures.push(base.concat(": ").concat(body.as_str()));
                    }
                },
                Err(e) => {
                    failures.push(base.concat(": ").concat(e.as_str()));
                },
            }
        }
        match txid {
            Some(id) => Ok(id),
            None => {
                if already_known {
                    Ok(String::new())
                } else {
                    assert(failures.deep_view() =~= m.map_values(|x: BroadcastReply| refusal(x)));
                    Err(Error::BroadcastRejected { failures: join(&failures, "; ") })
                }
            },
        }
    }
}

/// A question goes unanswered exactly when not one provider answered it: one
/// that did is enough, and a 404 is an answer.
pub proof fn unanswered_iff_all_failed<V>(m: Seq<(Seq<char>, Result<Option<V>, ErrorView>)>)
    ensures
        answers_in(m).len() == 0 <==> forall|i: int|
            0 <= i < m.len() ==> (#[trigger] m[i]).1 is Err,
    decreases m.len(),
{
    if m.len() > 0 {
        let rest = m.drop_last();
        unanswered_iff_all_failed(rest);
        if forall|i: int| 0 <= i < m.len() ==> (#[trigger] m[i]).1 is Err {
            assert forall|i: int| 0 <= i < rest.len() implies (#[trigger] rest[i]).1 is Err by {
                assert(m[i].1 is Err);
            }
            assert(m[m.len() - 1].1 is Err);
        }
        if answers_in(m).len() == 0 {
            assert forall|i: int| 0 <= i < m.len() implies (#[trigger] m[i]).1 is Err by {
                if i < rest.len() {
                    assert(rest[i].1 is Err);
                }
            }
        }
    }
}

/// A question that goes unanswered is an error that names every provider.
pub proof fn no_answer_names_every_provider<V>(
    what: Seq<char>,
    m: Seq<(Seq<char>, Result<Option<V>, ErrorView>)>,
    i: int,
)
    requires
        0 <= i < m.len(),
        m[i].1 is Err,
    ensures
        crate::text::has_part(crate::error::error_text(no_answer(what, m)), m[i].0),
{
    let none = Seq::<char>::empty();
    let base = m[i].0;
    let rest = ": "@ + crate::error::error_text(m[i].1->Err_0);
    let failure = base + ": "@ + crate::error::error_text(m[i].1->Err_0);
    assert(failure =~= base + rest);
    failure_is_listed(m, i);
    let parts = failures_in(m);
    let list = crate::text::joined(parts, "; "@);
    let k = choose|k: int| 0 <= k < parts.len() && parts[k] == failure;
    crate::text::joined_has_each(parts, "; "@, k);
    policy::named_in_list(list, base, rest, failure);
    crate::text::part_of_longer("no esplora provider answered "@ + what + ": "@, list, none, base);
    assert("no esplora provider answered "@ + what + ": "@ + list + none
        =~= crate::error::error_text(no_answer(what, m)));
}

proof fn failure_is_listed<V>(m: Seq<(Seq<char>, Result<Option<V>, ErrorView>)>, i: int)
    requires
        0 <= i < m.len(),
        m[i].1 is Err,
    ensures
        failures_in(m).contains(m[i].0 + ": "@ + crate::error::error_text(m[i].1->Err_0)),
    decreases m.len(),
{
    let rest = failures_in(m.drop_last());
    let all = failures_in(m);
    let item = m[i].0 + ": "@ + crate::error::error_text(m[i].1->Err_0);
    if i < m.len() - 1 {
        failure_is_listed(m.drop_last(), i);
        let k = choose|k: int| 0 <= k < rest.len() && rest[k] == item;
        assert(all[k] == item);
    } else {
        assert(all[rest.len() as int] == item);
    }
}

/// Any acceptance wins: a broadcast succeeds exactly when some provider accepted
/// it, an "already known" among them, whatever the others say and in whatever
/// order.
pub proof fn any_acceptance_wins(m: Seq<BroadcastReply>, r: Result<Seq<char>, ErrorView>)
    requires
        broadcast_verdict(m, r),
    ensures
        r is Ok <==> exists|k: int| 0 <= k < m.len() && accepted(#[trigger] m[k]),
{
    if r is Ok {
        if exists|k: int| #[trigger] is_first_echo(m, k) {
            let k = choose|k: int| #[trigger] is_first_echo(m, k);
            assert(accepted(m[k]));
        } else {
            let k = choose|k: int| 0 <= k < m.len() && acknowledged(#[trigger] m[k]);
            assert(accepted(m[k]));
        }
    }
}

/// A txid that was echoed is never displaced by a bare acknowledgement: what is
/// returned is a txid that a provider echoed wherever one did, and empty
/// otherwise.
pub proof fn echo_is_never_displaced(m: Seq<BroadcastReply>, txid: Seq<char>)
    requires
        broadcast_verdict(m, Ok(txid)),
    ensures
        txid.len() > 0 <==> exists|k: int| 0 <= k < m.len() && echoed(#[trigger] m[k]) is Some,
        txid.len() > 0 ==> exists|k: int|
            0 <= k < m.len() && echoed(#[trigger] m[k]) == Some(txid),
{
    if exists|k: int| #[trigger] is_first_echo(m, k) && echoed(m[k]) == Some(txid) {
        let k = choose|k: int| #[trigger] is_first_echo(m, k) && echoed(m[k]) == Some(txid);
        assert(echoed(m[k]) == Some(txid));
    }
}

/// A broadcast that nobody accepted is an error that names every provider.
pub proof fn rejection_names_every_provider(m: Seq<BroadcastReply>, e: ErrorView, k: int)
    requires
        broadcast_verdict(m, Err(e)),
        0 <= k < m.len(),
    ensures
        crate::text::has_part(crate::error::error_text(e), m[k].0),
{
    let none = Seq::<char>::empty();
    let parts = m.map_values(|x: BroadcastReply| refusal(x));
    let list = crate::text::joined(parts, "; "@);
    let rest = ": "@ + match m[k].1 {
        Ok(reply) => said(reply),
        Err(e) => e,
    };
    assert(parts[k] =~= m[k].0 + rest);
    crate::text::joined_has_each(parts, "; "@, k);
    policy::named_in_list(list, m[k].0, rest, parts[k]);
    crate::text::part_of_longer("no provider accepted the broadcast: "@, list, none, m[k].0);
    assert("no provider accepted the broadcast: "@ + list + none =~= crate::error::error_text(e));
}

/// The replies determine the verdict.
pub proof fn broadcast_verdict_is_unique(
    m: Seq<BroadcastReply>,
    r: Result<Seq<char>, ErrorView>,
    q: Result<Seq<char>, ErrorView>,
)
    requires
        broadcast_verdict(m, r),
        broadcast_verdict(m, q),
    ensures
        r == q,
{
    any_acceptance_wins(m, r);
    any_acceptance_wins(m, q);
    if r is Ok {
        let s = r->Ok_0;
        let t = q->Ok_0;
        echo_is_never_displaced(m, s);
        echo_is_never_displaced(m, t);
        if s.len() > 0 {
            let k = choose|k: int| #[trigger] is_first_echo(m, k) && echoed(m[k]) == Some(s);
            let l = choose|l: int| #[trigger] is_first_echo(m, l) && echoed(m[l]) == Some(t);
            if k < l {
                assert(echoed(m[k]) is None);
            } else if l < k {
                assert(echoed(m[l]) is None);
            }
        } else {
            assert(s =~= t);
        }
    }
}

} // verus!
