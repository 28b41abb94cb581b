use lightningchess::models::{default_i32, default_string, LichessExportGameResponse};
use lightningchess::resolver::{classify_game, next_sleep_seconds, record_not_found, GameVerdict, PollDecision};
use lightningchess::status::{parse_status, status_string, ChallengeStatus};

fn export_response(status: &str, winner: Option<&str>) -> LichessExportGameResponse {
    LichessExportGameResponse {
        id: "abcd1234".to_string(),
        rated: false,
        variant: "standard".to_string(),
        speed: "blitz".to_string(),
        perf: "blitz".to_string(),
        status: status.to_string(),
        winner: winner.map(|w| w.to_string()),
    }
}

#[test]
fn classification_of_export_responses() {
    assert_eq!(classify_game(&export_response("created", None)), GameVerdict::InProgress);
    assert_eq!(classify_game(&export_response("started", None)), GameVerdict::InProgress);
    assert_eq!(
        classify_game(&export_response("mate", Some("white"))),
        GameVerdict::WonByWhite
    );
    assert_eq!(
        classify_game(&export_response("resign", Some("black"))),
        GameVerdict::WonByBlack
    );
    assert_eq!(classify_game(&export_response("stalemate", None)), GameVerdict::Draw);
    assert_eq!(classify_game(&export_response("draw", Some(""))), GameVerdict::Draw);
}

#[test]
fn status_spellings_round_trip() {
    for st in [
        ChallengeStatus::WaitingForAcceptance,
        ChallengeStatus::Accepted,
        ChallengeStatus::Completed,
        ChallengeStatus::Expired,
    ] {
        let spelled = status_string(st);
        assert_eq!(parse_status(spelled.as_str()), Some(st));
    }
    assert_eq!(status_string(ChallengeStatus::WaitingForAcceptance), "WAITING FOR ACCEPTANCE");
    assert_eq!(status_string(ChallengeStatus::Accepted), "ACCEPTED");
    assert_eq!(status_string(ChallengeStatus::Completed), "COMPLETED");
    assert_eq!(status_string(ChallengeStatus::Expired), "EXPIRED");
    assert_eq!(parse_status("accepted"), None);
    assert_eq!(parse_status(""), None);
}

#[test]
fn not_found_counter_reaches_threshold() {
    assert_eq!(record_not_found(0), PollDecision::KeepCounting(1));
    assert_eq!(record_not_found(28), PollDecision::KeepCounting(29));
    assert_eq!(record_not_found(29), PollDecision::ForceDraw);
    assert_eq!(record_not_found(100), PollDecision::ForceDraw);
}

#[test]
fn sleep_intervals_follow_the_cycle_outcome() {
    assert_eq!(next_sleep_seconds(true, 3), 60);
    assert_eq!(next_sleep_seconds(true, 0), 120);
    assert_eq!(next_sleep_seconds(false, 0), 60);
    assert_eq!(next_sleep_seconds(false, 5), 60);
}

#[test]
fn payload_field_defaults() {
    assert_eq!(default_string(), "");
    assert_eq!(default_i32(), 0);
}
