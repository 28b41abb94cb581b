use lightningchess::fees::calculate_fee_per_person;
use lightningchess::models::Challenge;
use lightningchess::resolver::get_winner_username;

fn get_challenge() -> Challenge {
    Challenge {
        id: 1,
        username: "user1".to_string(),
        time_limit: None,
        opponent_time_limit: None,
        increment: None,
        color: Some("white".to_string()),
        sats: Some(100),
        opp_username: "user2".to_string(),
        status: None,
        lichess_challenge_id: None,
        created_on: None,
        expire_after: None,
    }
}

#[test]
fn check_lichess_games_winner_creator_as_white() {
    let challenge = get_challenge();

    // creator won as white
    assert_eq!(get_winner_username(&challenge, "white"), "user1");
    // creator lost as white
    assert_eq!(get_winner_username(&challenge, "black"), "user2");
}

#[test]
fn check_lichess_games_winner_creator_as_black() {
    let mut challenge = get_challenge();
    challenge.color = Some("black".to_string());

    // creator lost as black
    assert_eq!(get_winner_username(&challenge, "white"), "user2");
    // creator won as black
    assert_eq!(get_winner_username(&challenge, "black"), "user1");
}

#[test]
fn check_lichess_games_calculate_fee_per_person_test() {
    let mut challenge = get_challenge();
    assert_eq!(calculate_fee_per_person(&challenge), 2);
    challenge.sats = Some(101);
    assert_eq!(calculate_fee_per_person(&challenge), 2);
    challenge.sats = Some(110);
    assert_eq!(calculate_fee_per_person(&challenge), 2);
    challenge.sats = Some(149);
    assert_eq!(calculate_fee_per_person(&challenge), 2);
    challenge.sats = Some(150);
    assert_eq!(calculate_fee_per_person(&challenge), 3);
    challenge.sats = Some(199);
    assert_eq!(calculate_fee_per_person(&challenge), 3);
    challenge.sats = Some(200);
    assert_eq!(calculate_fee_per_person(&challenge), 4);
}

#[test]
fn db_checks_winner_creator_as_white() {
    let challenge = get_challenge();

    // creator won as white
    assert_eq!(get_winner_username(&challenge, "white"), "user1");
    // creator lost as white
    assert_eq!(get_winner_username(&challenge, "black"), "user2");
}

#[test]
fn db_checks_winner_creator_as_black() {
    let mut challenge = get_challenge();
    challenge.color = Some("black".to_string());

    // creator lost as black
    assert_eq!(get_winner_username(&challenge, "white"), "user2");
    // creator won as black
    assert_eq!(get_winner_username(&challenge, "black"), "user1");
}

#[test]
fn db_checks_calculate_fee_per_person_test() {
    let mut challenge = get_challenge();
    assert_eq!(calculate_fee_per_person(&challenge), 2);
    challenge.sats = Some(101);
    assert_eq!(calculate_fee_per_person(&challenge), 2);
    challenge.sats = Some(110);
    assert_eq!(calculate_fee_per_person(&challenge), 2);
    challenge.sats = Some(149);
    assert_eq!(calculate_fee_per_person(&challenge), 2);
    challenge.sats = Some(150);
    assert_eq!(calculate_fee_per_person(&challenge), 3);
    challenge.sats = Some(199);
    assert_eq!(calculate_fee_per_person(&challenge), 3);
    challenge.sats = Some(200);
    assert_eq!(calculate_fee_per_person(&challenge), 4);
}
