//! The routes this crate reads, as paths to append to a provider's API root.

use vstd::prelude::*;
use vstd::string::StringExecFns;

use crate::text::decimal_text;

verus! {

/// The height of the chain's tip.
pub fn tip_height() -> (r: &'static str)
    ensures
        r@ == "/blocks/tip/height"@,
{
    "/blocks/tip/height"
}

/// A transaction.
pub fn tx(txid: &str) -> (r: String)
    ensures
        r@ == "/tx/"@ + txid@,
{
    "/tx/".to_owned().concat(txid)
}

/// A transaction's serialization, in hex.
pub fn tx_hex(txid: &str) -> (r: String)
    ensures
        r@ == "/tx/"@ + txid@ + "/hex"@,
{
    "/tx/".to_owned().concat(txid).concat("/hex")
}

/// What spent an output.
pub fn outspend(txid: &str, vout: u32) -> (r: String)
    ensures
        r@ == "/tx/"@ + txid@ + "/outspend/"@ + crate::text::decimal(vout as nat),
{
    "/tx/".to_owned().concat(txid).concat("/outspend/").concat(decimal_text(vout as u64).as_str())
}

/// Where a transaction is sent to be broadcast.
pub fn broadcast() -> (r: &'static str)
    ensures
        r@ == "/tx"@,
{
    "/tx"
}

/// The transactions that touch an address.
pub fn address_txs(address: &str) -> (r: String)
    ensures
        r@ == "/address/"@ + address@ + "/txs"@,
{
    "/address/".to_owned().concat(address).concat("/txs")
}

} // verus!
