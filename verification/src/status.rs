//! The wager state machine.
//!
//! A challenge starts waiting for acceptance, becomes accepted when the
//! opponent joins and the external match is created, and ends either
//! completed (a result, a draw, or a forced draw after repeated
//! not-found polls) or expired (never accepted in time).  Completed and
//! expired are terminal: no transition leaves them.  The status is
//! stored on the challenge as a string; this module fixes the four
//! spellings and the allowed transitions.

use vstd::prelude::*;

verus! {

use crate::models::Challenge;
use crate::text::str_eq;

/// The lifecycle states of a challenge.
#[derive(Clone, Copy, PartialEq, Eq, Structural, Debug)]
pub enum ChallengeStatus {
    WaitingForAcceptance,
    Accepted,
    Completed,
    Expired,
}

/// The stored spelling of each status.
pub open spec fn status_view(s: ChallengeStatus) -> Seq<char> {
    match s {
        ChallengeStatus::WaitingForAcceptance => "WAITING FOR ACCEPTANCE"@,
        ChallengeStatus::Accepted => "ACCEPTED"@,
        ChallengeStatus::Completed => "COMPLETED"@,
        ChallengeStatus::Expired => "EXPIRED"@,
    }
}

/// A status is terminal when no transition may leave it.
pub open spec fn is_terminal(s: ChallengeStatus) -> bool {
    s == ChallengeStatus::Completed || s == ChallengeStatus::Expired
}

/// The transitions the state machine allows: acceptance, expiry of an
/// unaccepted challenge, and completion of an accepted one (by result,
/// draw, or forced draw alike).
pub open spec fn status_step_allowed(from: ChallengeStatus, to: ChallengeStatus) -> bool {
    ||| (from == ChallengeStatus::WaitingForAcceptance && to == ChallengeStatus::Accepted)
    ||| (from == ChallengeStatus::WaitingForAcceptance && to == ChallengeStatus::Expired)
    ||| (from == ChallengeStatus::Accepted && to == ChallengeStatus::Completed)
}

/// A challenge never transitions out of a terminal status: no allowed
/// step starts at completed or expired.
pub proof fn lemma_terminal_status_is_final(from: ChallengeStatus, to: ChallengeStatus)
    ensures
        is_terminal(from) ==> !status_step_allowed(from, to),
{
}

/// The four stored spellings are pairwise distinct.
proof fn lemma_status_views_distinct()
    ensures
        forall|a: ChallengeStatus, b: ChallengeStatus|
            a != b ==> status_view(a) != status_view(b),
{
    reveal_strlit("WAITING FOR ACCEPTANCE");
    reveal_strlit("ACCEPTED");
    reveal_strlit("COMPLETED");
    reveal_strlit("EXPIRED");
    assert forall|a: ChallengeStatus, b: ChallengeStatus| a != b implies status_view(a)
        != status_view(b) by {
        assert(status_view(ChallengeStatus::WaitingForAcceptance).len() == 22);
        assert(status_view(ChallengeStatus::Accepted).len() == 8);
        assert(status_view(ChallengeStatus::Completed).len() == 9);
        assert(status_view(ChallengeStatus::Expired).len() == 7);
        assert(status_view(ChallengeStatus::Accepted)[0] == 'A');
        assert(status_view(ChallengeStatus::Completed)[0] == 'C');
        assert(status_view(ChallengeStatus::Expired)[0] == 'E');
    }
}

/// Reads a stored status string back as a state, or nothing when the
/// string is none of the four spellings.
pub fn parse_status(s: &str) -> (r: Option<ChallengeStatus>)
    ensures
        match r {
            Some(st) => s@ == status_view(st),
            None => forall|st: ChallengeStatus| s@ != status_view(st),
        },
{
    if str_eq(s, "WAITING FOR ACCEPTANCE") {
        Some(ChallengeStatus::WaitingForAcceptance)
    } else if str_eq(s, "ACCEPTED") {
        Some(ChallengeStatus::Accepted)
    } else if str_eq(s, "COMPLETED") {
        Some(ChallengeStatus::Completed)
    } else if str_eq(s, "EXPIRED") {
        Some(ChallengeStatus::Expired)
    } else {
        proof {
            lemma_status_views_distinct();
        }
        None
    }
}

/// Renders a state in its stored spelling.
pub fn status_string(s: ChallengeStatus) -> (r: String)
    ensures
        r@ == status_view(s),
{
    match s {
        ChallengeStatus::WaitingForAcceptance => "WAITING FOR ACCEPTANCE".to_owned(),
        ChallengeStatus::Accepted => "ACCEPTED".to_owned(),
        ChallengeStatus::Completed => "COMPLETED".to_owned(),
        ChallengeStatus::Expired => "EXPIRED".to_owned(),
    }
}

/// Everything but the status agrees between two challenges.
pub open spec fn challenge_same_but_status(a: Challenge, b: Challenge) -> bool {
    &&& a.id == b.id
    &&& a.username == b.username
    &&& a.time_limit == b.time_limit
    &&& a.opponent_time_limit == b.opponent_time_limit
    &&& a.increment == b.increment
    &&& a.color == b.color
    &&& a.sats == b.sats
    &&& a.opp_username == b.opp_username
    &&& a.lichess_challenge_id == b.lichess_challenge_id
    &&& a.created_on == b.created_on
    &&& a.expire_after == b.expire_after
}

/// Marks an accepted challenge completed.  This is only called inside
/// the atomic unit that also writes the settlement's ledger entries.
pub fn mark_challenge_completed(challenge: &mut Challenge)
    requires
        old(challenge).status is Some,
        old(challenge).status.unwrap()@ == status_view(ChallengeStatus::Accepted),
    ensures
        final(challenge).status is Some,
        final(challenge).status.unwrap()@ == status_view(ChallengeStatus::Completed),
        challenge_same_but_status(*old(challenge), *final(challenge)),
        status_step_allowed(ChallengeStatus::Accepted, ChallengeStatus::Completed),
{
    challenge.status = Some(status_string(ChallengeStatus::Completed));
}

/// Marks a never-accepted challenge expired.  This is only called
/// inside the atomic unit that also writes the refund's ledger entries.
pub fn mark_challenge_expired(challenge: &mut Challenge)
    requires
        old(challenge).status is Some,
        old(challenge).status.unwrap()@ == status_view(ChallengeStatus::WaitingForAcceptance),
    ensures
        final(challenge).status is Some,
        final(challenge).status.unwrap()@ == status_view(ChallengeStatus::Expired),
        challenge_same_but_status(*old(challenge), *final(challenge)),
        status_step_allowed(
            ChallengeStatus::WaitingForAcceptance,
            ChallengeStatus::Expired,
        ),
{
    challenge.status = Some(status_string(ChallengeStatus::Expired));
}

} // verus!
