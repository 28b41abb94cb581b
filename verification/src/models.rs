//! Core data types: ledger entries, challenges, and the payloads of the
//! two external services (game results and funding events).
//!
//! Timestamps are carried as plain unix seconds (UTC); the unverified
//! shell converts between these and its own date-time values at the
//! boundary.

use vstd::prelude::*;

verus! {

/// One immutable line in the append-only ledger log.
///
/// `state` is `"OPEN"` while a funding deposit is pending and
/// `"SETTLED"` once the money movement is final.  `amount` is in the
/// smallest currency unit and signed.
pub struct Transaction {
    pub transaction_id: i32,
    pub username: String,
    pub ttype: String,
    pub detail: String,
    pub amount: i64,
    pub state: String,
    pub preimage: Option<String>,
    pub payment_addr: Option<String>,
    pub payment_request: Option<String>,
    pub payment_hash: Option<String>,
    pub lichess_challenge_id: Option<String>,
    pub created_on: Option<i64>,
}

/// A proposed or active wager between `username` (the creator) and
/// `opp_username`, bound to an external match once accepted.
pub struct Challenge {
    pub id: i32,
    pub username: String,
    pub time_limit: Option<i32>,
    pub opponent_time_limit: Option<i32>,
    pub increment: Option<i32>,
    pub color: Option<String>,
    pub sats: Option<i64>,
    pub opp_username: String,
    pub status: Option<String>,
    pub lichess_challenge_id: Option<String>,
    pub created_on: Option<i64>,
    pub expire_after: Option<i32>,
}

/// One record of the funding push stream: a wrapper holding the invoice.
pub struct InvoiceResult {
    pub result: Invoice,
}

/// An invoice as the funding network reports it on the push stream.
/// Only `state == "SETTLED"` records are actionable; `amt_paid_sat` is
/// the authoritative paid amount, as a decimal string.
pub struct Invoice {
    pub memo: String,
    pub value: String,
    pub settled: bool,
    pub creation_date: String,
    pub settle_date: String,
    pub payment_request: String,
    pub payment_addr: String,
    pub expiry: String,
    pub amt_paid_sat: String,
    pub state: String,
}

/// The game service's description of one exported match.
/// `status` is `"created"` or `"started"` while the match runs; any
/// other value means it has concluded, with `winner` naming the winning
/// side (`"white"` or `"black"`) or absent for a draw.
pub struct LichessExportGameResponse {
    pub id: String,
    pub rated: bool,
    pub variant: String,
    pub speed: String,
    pub perf: String,
    pub status: String,
    pub winner: Option<String>,
}

/// The funding network's answer to a direct invoice lookup, used by the
/// polling fallback path.
pub struct LookupInvoiceResponse {
    pub memo: String,
    pub value: String,
    pub settled: bool,
    pub creation_date: String,
    pub settle_date: String,
    pub payment_request: String,
    pub expiry: String,
    pub amt_paid_sat: String,
    pub state: String,
}

/// The default for string fields that an external payload may omit.
pub fn default_string() -> (r: String)
    ensures
        r@ == Seq::<char>::empty(),
{
    String::new()
}

/// The default for integer fields that an external payload may omit.
pub fn default_i32() -> (r: i32)
    ensures
        r == 0i32,
{
    0
}

} // verus!
