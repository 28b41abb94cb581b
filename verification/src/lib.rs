//! Settlement and reconciliation engine for peer-to-peer chess wagers.
//!
//! Two players escrow a stake on a custodial ledger; an external game
//! service records the match result.  This library holds the verified
//! core: the wager state machine, the fee and payout arithmetic, the
//! ledger update protocol that applies each funding event and each game
//! outcome exactly once, and the framing of the funding event stream.
//! All network and database plumbing lives outside the library and
//! hands it plain values.

pub mod fees;
pub mod framing;
pub mod funding;
pub mod ledger;
pub mod models;
pub mod resolver;
pub mod settlement;
pub mod status;
pub mod sweeper;
pub mod text;
