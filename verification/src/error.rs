//! Typed errors, so a caller can tell "the chain says no" from "we could not
//! ask" from "the providers contradict each other": three situations that call
//! for three different responses.

use vstd::prelude::*;
use vstd::string::StringExecFns;

use crate::text::{debug, decimal_text};

pub mod laws;

verus! {

/// Why a question got no verdict.
#[derive(Debug, Clone, PartialEq, Eq)]
pub enum Error {
    /// Not one provider answered. Distinct from a 404, which is an answer.
    NoProviderAnswered { what: String, failures: String },
    /// Two providers report the same transaction confirmed at different
    /// heights. One is lying or on a fork; there is no safe way to pick.
    ///
    /// Both heights are known: an answer that claims confirmation without
    /// naming a block says nothing to contradict, and never raises this.
    HeightDisagreement { txid: String, a: String, a_height: u64, b: String, b_height: u64 },
    /// Two providers disagree about what a transaction paid an address.
    ///
    /// A transaction's outputs are fixed by its txid, so this is not lag and
    /// not a fork: one of them is wrong about money. Anything downstream that
    /// treats the amount as settled must not proceed on either answer.
    ValueDisagreement {
        txid: String,
        address: String,
        a: String,
        a_value: u64,
        b: String,
        b_value: u64,
    },
    /// Two providers returned different bytes for the same txid. A
    /// transaction's serialization is determined by its hash, so both cannot be
    /// right.
    BytesDisagreement { txid: String, a: String, b: String },
    /// Two providers name different spenders for one outpoint.
    SpenderDisagreement {
        outpoint: String,
        a: String,
        a_txid: Option<String>,
        b: String,
        b_txid: Option<String>,
    },
    /// Every provider answered, and none of them knows about it.
    NotFound { what: String },
    /// No provider accepted a broadcast.
    BroadcastRejected { failures: String },
    /// No providers were configured, or all of them were blank.
    NoProviders,
    /// Transport or decoding failure.
    Http(String),
}

/// An [`Error`] with its texts as sequences of characters.
pub enum ErrorView {
    NoProviderAnswered { what: Seq<char>, failures: Seq<char> },
    HeightDisagreement {
        txid: Seq<char>,
        a: Seq<char>,
        a_height: u64,
        b: Seq<char>,
        b_height: u64,
    },
    ValueDisagreement {
        txid: Seq<char>,
        address: Seq<char>,
        a: Seq<char>,
        a_value: u64,
        b: Seq<char>,
        b_value: u64,
    },
    BytesDisagreement { txid: Seq<char>, a: Seq<char>, b: Seq<char> },
    SpenderDisagreement {
        outpoint: Seq<char>,
        a: Seq<char>,
        a_txid: Option<Seq<char>>,
        b: Seq<char>,
        b_txid: Option<Seq<char>>,
    },
    NotFound { what: Seq<char> },
    BroadcastRejected { failures: Seq<char> },
    NoProviders,
    Http(Seq<char>),
}

impl View for Error {
    type V = ErrorView;

    open spec fn view(&self) -> ErrorView {
        match *self {
            Error::NoProviderAnswered { what, failures } => ErrorView::NoProviderAnswered {
                what: what@,
                failures: failures@,
            },
            Error::HeightDisagreement { txid, a, a_height, b, b_height } =>
                ErrorView::HeightDisagreement {
                    txid: txid@,
                    a: a@,
                    a_height,
                    b: b@,
                    b_height,
                },
            Error::ValueDisagreement { txid, address, a, a_value, b, b_value } =>
                ErrorView::ValueDisagreement {
                    txid: txid@,
                    address: address@,
                    a: a@,
                    a_value,
                    b: b@,
                    b_value,
                },
            Error::BytesDisagreement { txid, a, b } => ErrorView::BytesDisagreement {
                txid: txid@,
                a: a@,
                b: b@,
            },
            Error::SpenderDisagreement { outpoint, a, a_txid, b, b_txid } =>
                ErrorView::SpenderDisagreement {
                    outpoint: outpoint@,
                    a: a@,
                    a_txid: a_txid.deep_view(),
                    b: b@,
                    b_txid: b_txid.deep_view(),
                },
            Error::NotFound { what } => ErrorView::NotFound { what: what@ },
            Error::BroadcastRejected { failures } => ErrorView::BroadcastRejected {
                failures: failures@,
            },
            Error::NoProviders => ErrorView::NoProviders,
            Error::Http(message) => ErrorView::Http(message@),
        }
    }
}

impl DeepView for Error {
    type V = ErrorView;

    open spec fn deep_view(&self) -> ErrorView {
        self@
    }
}

/// A result with its texts as sequences of characters.
pub open spec fn outcome<T: DeepView>(r: Result<T, Error>) -> Result<T::V, ErrorView> {
    match r {
        Ok(v) => Ok(v.deep_view()),
        Err(e) => Err(e@),
    }
}

/// How an error names a spender: `None`, or the quoted txid in `Some(..)`.
pub open spec fn spender_text(txid: Option<Seq<char>>) -> Seq<char> {
    match txid {
        None => "None"@,
        Some(t) => "Some("@ + crate::text::debug_text(t) + ")"@,
    }
}

/// The message of an error.
pub open spec fn error_text(e: ErrorView) -> Seq<char> {
    match e {
        ErrorView::NoProviderAnswered { what, failures } => "no esplora provider answered "@ + what
            + ": "@ + failures,
        ErrorView::HeightDisagreement { txid, a, a_height, b, b_height } =>
            "providers disagree on where "@ + txid + " is: "@ + a + " says block "@
                + crate::text::decimal(a_height as nat) + ", "@ + b + " says block "@
                + crate::text::decimal(b_height as nat),
        ErrorView::ValueDisagreement { txid, address, a, a_value, b, b_value } =>
            "providers disagree on what "@ + txid + " paid "@ + address + ": "@ + a + " says "@
                + crate::text::decimal(a_value as nat) + " sat, "@ + b + " says "@
                + crate::text::decimal(b_value as nat) + " sat"@,
        ErrorView::BytesDisagreement { txid, a, b } => "providers disagree on the bytes of "@ + txid
            + ": "@ + a + " and "@ + b + " returned different hex"@,
        ErrorView::SpenderDisagreement { outpoint, a, a_txid, b, b_txid } =>
            "providers disagree on what spent "@ + outpoint + ": "@ + a + " says "@ + spender_text(
                a_txid,
            ) + ", "@ + b + " says "@ + spender_text(b_txid),
        ErrorView::NotFound { what } => what + " not found"@,
        ErrorView::BroadcastRejected { failures } => "no provider accepted the broadcast: "@
            + failures,
        ErrorView::NoProviders => "no esplora providers configured"@,
        ErrorView::Http(message) => message,
    }
}

fn spender(txid: &Option<String>) -> (r: String)
    ensures
        r@ == spender_text(txid.deep_view()),
{
    match txid {
        None => "None".to_owned(),
        Some(t) => "Some(".to_owned().concat(debug(t.as_str()).as_str()).concat(")"),
    }
}

impl Error {
    /// The error's message.
    pub fn to_string(&self) -> (r: String)
        ensures
            r@ == error_text(self@),
    {
        match self {
            Error::NoProviderAnswered { what, failures } => {
                "no esplora provider answered ".to_owned().concat(what.as_str()).concat(
                    ": ",
                ).concat(failures.as_str())
            },
            Error::HeightDisagreement { txid, a, a_height, b, b_height } => {
                "providers disagree on where ".to_owned().concat(txid.as_str()).concat(
                    " is: ",
                ).concat(a.as_str()).concat(" says block ").concat(
                    decimal_text(*a_height).as_str(),
                ).concat(", ").concat(b.as_str()).concat(" says block ").concat(
                    decimal_text(*b_height).as_str(),
                )
            },
            Error::ValueDisagreement { txid, address, a, a_value, b, b_value } => {
                "providers disagree on what ".to_owned().concat(txid.as_str()).concat(
                    " paid ",
                ).concat(address.as_str()).concat(": ").concat(a.as_str()).concat(
                    " says ",
                ).concat(decimal_text(*a_value).as_str()).concat(" sat, ").concat(
                    b.as_str(),
                ).concat(" says ").concat(decimal_text(*b_value).as_str()).concat(" sat")
            },
            Error::BytesDisagreement { txid, a, b } => {
                "providers disagree on the bytes of ".to_owned().concat(txid.as_str()).concat(
                    ": ",
                ).concat(a.as_str()).concat(" and ").concat(b.as_str()).concat(
                    " returned different hex",
                )
            },
            Error::SpenderDisagreement { outpoint, a, a_txid, b, b_txid } => {
                "providers disagree on what spent ".to_owned().concat(outpoint.as_str()).concat(
                    ": ",
                ).concat(a.as_str()).concat(" says ").concat(spender(a_txid).as_str()).concat(
                    ", ",
                ).concat(b.as_str()).concat(" says ").concat(spender(b_txid).as_str())
            },
            Error::NotFound { what } => what.clone().concat(" not found"),
            Error::BroadcastRejected { failures } => {
                "no provider accepted the broadcast: ".to_owned().concat(failures.as_str())
            },
            Error::NoProviders => "no esplora providers configured".to_owned(),
            Error::Http(message) => message.clone(),
        }
    }
}

} // verus!
