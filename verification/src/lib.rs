//! Read Bitcoin chain state from several Esplora providers without trusting any
//! one of them.
//!
//! Public Esplora providers are interchangeable and individually unreliable.
//! Asking one and believing it is fine until the day it lags, forks, or lies,
//! and the cost is asymmetric: an extra HTTP request costs nothing, while a
//! wrong tip height or a hidden spend can cost a user their money.
//!
//! This crate is the reconciliation, not the fetching. **It performs no I/O**:
//! you hand it the answers, it hands you a verdict.
//!
//! # The rules
//!
//! Each is a pure function in [`policy`], with a contract that says what its
//! verdict is for every list of answers:
//!
//! | Question | Rule |
//! |---|---|
//! | tip height | drop outliers above the median, take the **max** of the rest |
//! | `/tx/:txid` | most advanced answer wins; **different confirmed heights is fatal** |
//! | `/tx/:txid/hex` | one having it beats another's 404; **different bytes is fatal** |
//! | outspend | **spent beats unspent**; different spenders is fatal |
//! | address | existence is a union, confirmation a majority; different values is fatal |
//! | broadcast | fan out to all; any acceptance wins; "already known" counts |
//!
//! [`client`] reads the replies of a transport and puts the questions to the
//! rules.
//!
//! # What it does not do
//!
//! It cannot make two providers into three. Below
//! [`policy::MIN_PROVIDERS_FOR_MAJORITY`] the outlier filter is a **no-op** (with
//! two providers the median is the higher of the two), so a single provider
//! reporting a wrong tip decides when a timelock has elapsed. Call
//! [`policy::quorum_warning`] at startup and say so out loud; the remaining
//! protection at two is agreement, not majority.

use vstd::prelude::*;

pub mod client;
pub mod error;
pub mod policy;
pub mod text;
pub mod types;

pub use client::Chain;
pub use error::Error;
pub use types::{
    confirmations, normalise, route, AddressTx, Answer, Outspend, TxInfo, TxStatus, Vout,
};

verus! {

} // verus!
