use lightningchess::ledger::{Ledger, LedgerError};
use lightningchess::models::Challenge;
use lightningchess::resolver::{record_not_found, PollDecision, NOT_FOUND_POLL_LIMIT};
use lightningchess::settlement::{settle_decisive, settle_draw, settle_expired, settle_forced_draw};
use lightningchess::sweeper::challenge_is_expired;

fn accepted_challenge(stake: i64, color: &str) -> Challenge {
    Challenge {
        id: 7,
        username: "user1".to_string(),
        time_limit: Some(300),
        opponent_time_limit: Some(300),
        increment: Some(0),
        color: Some(color.to_string()),
        sats: Some(stake),
        opp_username: "user2".to_string(),
        status: Some("ACCEPTED".to_string()),
        lichess_challenge_id: Some("abcd1234".to_string()),
        created_on: Some(1_700_000_000),
        expire_after: Some(1800),
    }
}

#[test]
fn decisive_win_for_creator_as_white() {
    // stake 150: fee 3 per person, total fee 6, winner payout 294
    let mut ledger = Ledger::new();
    let mut challenge = accepted_challenge(150, "white");

    let r = settle_decisive(&mut ledger, &mut challenge, "house", "white");
    assert!(r.is_ok());

    assert_eq!(ledger.balance_of("house"), 6);
    assert_eq!(ledger.balance_of("user1"), 294);
    assert_eq!(ledger.balance_of("user2"), 0);
    assert_eq!(challenge.status.as_deref(), Some("COMPLETED"));

    // conservation: fee plus payout is the whole pot
    assert_eq!(
        ledger.balance_of("house") + ledger.balance_of("user1"),
        2 * 150
    );

    // the two ledger entries of the settlement
    assert_eq!(ledger.entries.len(), 2);
    assert_eq!(ledger.entries[0].username, "house");
    assert_eq!(ledger.entries[0].ttype, "fee");
    assert_eq!(ledger.entries[0].amount, 6);
    assert_eq!(ledger.entries[0].state, "SETTLED");
    assert_eq!(ledger.entries[1].username, "user1");
    assert_eq!(ledger.entries[1].ttype, "winnings");
    assert_eq!(ledger.entries[1].amount, 294);
    assert_eq!(ledger.entries[1].state, "SETTLED");
}

#[test]
fn decisive_win_for_opponent() {
    let mut ledger = Ledger::new();
    let mut challenge = accepted_challenge(150, "white");

    let r = settle_decisive(&mut ledger, &mut challenge, "house", "black");
    assert!(r.is_ok());

    assert_eq!(ledger.balance_of("house"), 6);
    assert_eq!(ledger.balance_of("user1"), 0);
    assert_eq!(ledger.balance_of("user2"), 294);
    assert_eq!(challenge.status.as_deref(), Some("COMPLETED"));
}

#[test]
fn draw_refunds_stake_minus_fee() {
    // stake 150, draw: each party receives 147, house receives 6
    let mut ledger = Ledger::new();
    let mut challenge = accepted_challenge(150, "white");

    let r = settle_draw(&mut ledger, &mut challenge, "house");
    assert!(r.is_ok());

    assert_eq!(ledger.balance_of("house"), 6);
    assert_eq!(ledger.balance_of("user1"), 147);
    assert_eq!(ledger.balance_of("user2"), 147);
    assert_eq!(challenge.status.as_deref(), Some("COMPLETED"));

    assert_eq!(ledger.entries.len(), 3);
    assert_eq!(ledger.entries[1].ttype, "draw");
    assert_eq!(ledger.entries[2].ttype, "draw");
}

#[test]
fn match_never_found_forces_full_refund() {
    // 30 consecutive not-found polls force a draw with no fee
    let mut streak: u32 = 0;
    let mut decision = record_not_found(streak);
    let mut polls: u32 = 1;
    while let PollDecision::KeepCounting(next) = decision {
        streak = next;
        decision = record_not_found(streak);
        polls += 1;
    }
    assert_eq!(decision, PollDecision::ForceDraw);
    assert_eq!(polls, NOT_FOUND_POLL_LIMIT);

    let mut ledger = Ledger::new();
    let mut challenge = accepted_challenge(150, "white");
    let r = settle_forced_draw(&mut ledger, &mut challenge);
    assert!(r.is_ok());

    assert_eq!(ledger.balance_of("user1"), 150);
    assert_eq!(ledger.balance_of("user2"), 150);
    assert_eq!(ledger.balance_of("house"), 0);
    assert_eq!(challenge.status.as_deref(), Some("COMPLETED"));
    assert_eq!(ledger.entries.len(), 2);
    assert_eq!(ledger.entries[0].ttype, "expired");
    assert_eq!(ledger.entries[1].ttype, "expired");
}

#[test]
fn unaccepted_challenge_expires_with_creator_refund() {
    let created_on: i64 = 1_700_000_000;
    assert!(!challenge_is_expired(created_on, created_on + 1800));
    assert!(challenge_is_expired(created_on, created_on + 1801));

    let mut ledger = Ledger::new();
    let mut challenge = accepted_challenge(150, "white");
    challenge.status = Some("WAITING FOR ACCEPTANCE".to_string());
    challenge.lichess_challenge_id = None;

    let r = settle_expired(&mut ledger, &mut challenge);
    assert!(r.is_ok());

    assert_eq!(ledger.balance_of("user1"), 150);
    assert_eq!(ledger.balance_of("user2"), 0);
    assert_eq!(challenge.status.as_deref(), Some("EXPIRED"));
    assert_eq!(ledger.entries.len(), 1);
    assert_eq!(ledger.entries[0].ttype, "expired");
    assert_eq!(ledger.entries[0].lichess_challenge_id.as_deref(), Some("none. expired"));
}

#[test]
fn settlement_aborts_whole_unit_when_balance_cannot_fit() {
    let mut ledger = Ledger::new();
    // the winner's balance is already at the maximum
    assert!(ledger.add_to_balance("user1", i64::MAX));

    let mut challenge = accepted_challenge(150, "white");
    let r = settle_decisive(&mut ledger, &mut challenge, "house", "white");
    assert_eq!(r, Err(LedgerError::BalanceOutOfRange));

    // nothing moved: no entry, no balance change, no transition
    assert_eq!(ledger.entries.len(), 0);
    assert_eq!(ledger.balance_of("user1"), i64::MAX);
    assert_eq!(ledger.balance_of("house"), 0);
    assert_eq!(challenge.status.as_deref(), Some("ACCEPTED"));
}

#[test]
fn add_to_balance_reports_overflow() {
    let mut ledger = Ledger::new();
    assert!(ledger.add_to_balance("user1", i64::MAX));
    assert!(!ledger.add_to_balance("user1", 1));
    assert_eq!(ledger.balance_of("user1"), i64::MAX);
    assert!(ledger.add_to_balance("user1", -1));
    assert_eq!(ledger.balance_of("user1"), i64::MAX - 1);
}

#[test]
fn completed_challenge_stays_completed() {
    // a settled challenge is terminal: settling again is rejected by
    // the state machine's precondition, which the caller checks
    let mut ledger = Ledger::new();
    let mut challenge = accepted_challenge(150, "white");
    settle_decisive(&mut ledger, &mut challenge, "house", "white").unwrap();
    assert_eq!(challenge.status.as_deref(), Some("COMPLETED"));

    // the resolver only settles challenges read back in ACCEPTED
    // status, so a completed challenge is never settled twice
    let status = challenge.status.as_deref().unwrap();
    assert_ne!(status, "ACCEPTED");
    assert_ne!(status, "WAITING FOR ACCEPTANCE");
}
