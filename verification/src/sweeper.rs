//! The expiry sweeper's decision: a challenge still waiting for
//! acceptance past the timeout is refunded and expired.
//!
//! The settlement itself is the expiry settlement of the ledger; this
//! module only decides eligibility from the challenge's creation time
//! and the current time, both as unix seconds.

use vstd::prelude::*;

verus! {

/// How long a challenge may wait for acceptance before it expires.
pub const ACCEPT_TIMEOUT_SECS: i64 = 1800;

/// Whether a waiting challenge has outlived the acceptance timeout.
pub fn challenge_is_expired(created_on: i64, now: i64) -> (r: bool)
    ensures
        r == (now as int - created_on as int > ACCEPT_TIMEOUT_SECS as int),
{
    let diff: i128 = now as i128 - created_on as i128;
    diff > ACCEPT_TIMEOUT_SECS as i128
}

} // verus!
