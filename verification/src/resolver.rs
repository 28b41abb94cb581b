//! Outcome resolution: classifying the game service's answer for an
//! accepted challenge and deciding what the poll cycle does next.
//!
//! The service answers not-found while it does not know the match yet;
//! a persisted counter of consecutive not-found polls forces a draw
//! once it reaches its threshold, so a match whose result can never be
//! confirmed still settles.  A found match is either still running or
//! concluded, with the winning side named or absent for a draw.

use vstd::prelude::*;

verus! {

use crate::models::{Challenge, LichessExportGameResponse};
use crate::text::{opt_str_view, str_eq};

/// What one export response says about the match.
#[derive(Clone, Copy, PartialEq, Eq, Structural, Debug)]
pub enum GameVerdict {
    InProgress,
    WonByWhite,
    WonByBlack,
    Draw,
}

/// Classification of an export response: a match still `created` or
/// `started` is in progress; a concluded one is decided by the declared
/// winning side, absent for a draw.
pub open spec fn spec_classify(status: Seq<char>, winner: Option<Seq<char>>) -> GameVerdict {
    if status == "created"@ || status == "started"@ {
        GameVerdict::InProgress
    } else if winner == Some("white"@) {
        GameVerdict::WonByWhite
    } else if winner == Some("black"@) {
        GameVerdict::WonByBlack
    } else {
        GameVerdict::Draw
    }
}

/// Classifies the game service's answer for one challenge.
pub fn classify_game(resp: &LichessExportGameResponse) -> (r: GameVerdict)
    ensures
        r == spec_classify(resp.status@, opt_str_view(resp.winner)),
{
    if str_eq(resp.status.as_str(), "created") || str_eq(resp.status.as_str(), "started") {
        GameVerdict::InProgress
    } else {
        match &resp.winner {
            Some(w) => {
                if str_eq(w.as_str(), "white") {
                    GameVerdict::WonByWhite
                } else if str_eq(w.as_str(), "black") {
                    GameVerdict::WonByBlack
                } else {
                    GameVerdict::Draw
                }
            },
            None => GameVerdict::Draw,
        }
    }
}

/// The creator wins exactly when the declared winning side is the side
/// the creator played.
pub open spec fn spec_creator_won(color: Seq<char>, winner: Seq<char>) -> bool {
    ||| (winner == "black"@ && color == "black"@)
    ||| (winner == "white"@ && color == "white"@)
}

/// Resolves the declared winning side against the creator's color to
/// the account that gets paid: the creator when the sides agree, the
/// opponent otherwise.
pub fn get_winner_username(challenge: &Challenge, winner: &str) -> (r: String)
    requires
        challenge.color is Some,
    ensures
        r@ == if spec_creator_won(challenge.color.unwrap()@, winner@) {
            challenge.username@
        } else {
            challenge.opp_username@
        },
{
    let color = challenge.color.as_ref().unwrap();
    let creator_won_black = str_eq(winner, "black") && str_eq(color.as_str(), "black");
    let creator_won_white = str_eq(winner, "white") && str_eq(color.as_str(), "white");
    if creator_won_black || creator_won_white {
        challenge.username.clone()
    } else {
        challenge.opp_username.clone()
    }
}

/// How many consecutive not-found polls force a draw.
pub const NOT_FOUND_POLL_LIMIT: u32 = 30;

/// What the resolver does with a challenge after a not-found answer.
#[derive(Clone, Copy, PartialEq, Eq, Structural, Debug)]
pub enum PollDecision {
    /// The threshold is reached: settle as a forced draw now.
    ForceDraw,
    /// Keep waiting; persist the new count of consecutive not-found
    /// polls.
    KeepCounting(u32),
}

/// Advances the persisted not-found counter after one more not-found
/// poll: force a draw once the streak reaches the limit, otherwise
/// record the longer streak.  The counter is reset by the caller when
/// a poll finds the match.
pub fn record_not_found(count: u32) -> (r: PollDecision)
    requires
        count < u32::MAX,
    ensures
        count + 1 >= NOT_FOUND_POLL_LIMIT ==> r == PollDecision::ForceDraw,
        count + 1 < NOT_FOUND_POLL_LIMIT ==> r == PollDecision::KeepCounting((count + 1) as u32),
{
    let next = count + 1;
    if next >= NOT_FOUND_POLL_LIMIT {
        PollDecision::ForceDraw
    } else {
        PollDecision::KeepCounting(next)
    }
}

/// How long the poll loop sleeps after a cycle: longer when a
/// successful cycle found nothing to do, the short interval otherwise.
pub fn next_sleep_seconds(check_succeeded: bool, num_checked: usize) -> (r: u64)
    ensures
        r == if check_succeeded && num_checked == 0 {
            120u64
        } else {
            60u64
        },
{
    if check_succeeded && num_checked == 0 {
        120
    } else {
        60
    }
}

} // verus!
