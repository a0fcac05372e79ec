// Tests for the stored data types and their rules.

use creator_event_manager::address::Address;
use creator_event_manager::storage_types::{
    Event, EventMetadata, Match, MatchResult, Prediction, Winner, MAX_TEAM_NAME_LEN,
    MAX_TITLE_LEN,
};

fn addr(n: u128) -> Address {
    Address::new(0, 0, n)
}

// ---------------------------------------------------------------------------
// MatchResult
// ---------------------------------------------------------------------------

#[test]
fn test_match_result_encoding() {
    assert_eq!(MatchResult::TeamA.to_u32(), 0);
    assert_eq!(MatchResult::TeamB.to_u32(), 1);
    assert_eq!(MatchResult::Draw.to_u32(), 2);

    assert_eq!(MatchResult::from_u32(0), Some(MatchResult::TeamA));
    assert_eq!(MatchResult::from_u32(1), Some(MatchResult::TeamB));
    assert_eq!(MatchResult::from_u32(2), Some(MatchResult::Draw));
    assert_eq!(MatchResult::from_u32(3), None);
    assert_eq!(MatchResult::from_u32(999), None);
}

#[test]
fn test_match_result_from_scores() {
    assert_eq!(MatchResult::from_scores(3, 1), MatchResult::TeamA);
    assert_eq!(MatchResult::from_scores(0, 2), MatchResult::TeamB);
    assert_eq!(MatchResult::from_scores(2, 2), MatchResult::Draw);
    let p = Prediction::with_scores(addr(1), 1, 1, 0, 4, 10);
    assert_eq!(p.predicted_winner, 1);
    assert_eq!((p.predicted_home_score, p.predicted_away_score), (0, 4));
    assert!(p.is_correct.is_none() && p.points_earned.is_none());
}

#[test]
fn test_match_result_u8_round_trip() {
    for r in [MatchResult::TeamA, MatchResult::TeamB, MatchResult::Draw] {
        assert_eq!(MatchResult::from_u8(r.to_u8()), Some(r));
    }
    assert_eq!(MatchResult::from_u8(3), None);
    assert_eq!(MatchResult::from_u8(255), None);
    // A u32 above u8::MAX whose low byte is a valid code still decodes to None.
    assert_eq!(MatchResult::from_u32(256), None);
    assert_eq!(MatchResult::from_u32(257), None);
}

// ---------------------------------------------------------------------------
// Event helpers
// ---------------------------------------------------------------------------

fn make_event(event_id: u64) -> Event {
    Event::new(
        event_id,
        addr(7),
        String::from("Test Event"),
        String::from("A test prediction event"),
        1_000_000i128,
        1_640_995_200u64,
        String::from("ABCD1234"),
        100u32,
    )
}

// ---------------------------------------------------------------------------
// Event tests
// ---------------------------------------------------------------------------

#[test]
fn test_event_creation() {
    let creator = addr(11);
    let title = String::from("My Event");
    let description = String::from("Description");
    let invite_code = String::from("CODE1234");

    let event = Event::new(
        1,
        creator,
        title.clone(),
        description.clone(),
        500_000i128,
        1_640_995_200u64,
        invite_code.clone(),
        50u32,
    );

    assert_eq!(event.event_id, 1);
    assert_eq!(event.creator, creator);
    assert_eq!(event.title, title);
    assert_eq!(event.description, description);
    assert_eq!(event.creation_fee_paid, 500_000);
    assert_eq!(event.created_at, 1_640_995_200);
    assert!(event.is_active);
    assert!(!event.is_cancelled);
    assert_eq!(event.invite_code, invite_code);
    assert_eq!(event.max_participants, 50);
    assert_eq!(event.participant_count, 0);
    assert_eq!(event.match_count, 0);
}

#[test]
fn test_event_validate() {
    assert!(make_event(1).validate().is_ok());
}

#[test]
fn test_event_validate_errors() {
    let mut e = make_event(1);
    e.title = String::new();
    assert_eq!(e.validate(), Err("Title cannot be empty"));

    let mut e = make_event(1);
    e.title = "t".repeat(MAX_TITLE_LEN as usize);
    assert!(e.validate().is_ok());
    e.title = "t".repeat(MAX_TITLE_LEN as usize + 1);
    assert_eq!(e.validate(), Err("Title exceeds maximum length"));

    let mut e = make_event(1);
    e.description = "d".repeat(1001);
    assert_eq!(e.validate(), Err("Description exceeds maximum length"));

    // Lengths count bytes: 100 two-byte characters are 200 bytes.
    let mut e = make_event(1);
    e.title = "é".repeat(100);
    assert!(e.validate().is_ok());
    e.title = "é".repeat(101);
    assert!(e.validate().is_err());
}

#[test]
fn test_event_participant_management() {
    let mut event = make_event(1);

    assert_eq!(event.participant_count, 0);
    assert!(event.can_accept_participants());

    assert!(event.add_participant().is_ok());
    assert_eq!(event.participant_count, 1);
    assert!(event.add_participant().is_ok());
    assert_eq!(event.participant_count, 2);

    event.deactivate();
    assert!(!event.is_active);
    assert!(!event.can_accept_participants());
    assert!(event.add_participant().is_err());
}

#[test]
fn test_event_cancel() {
    let mut event = make_event(1);

    event.cancel();
    assert!(!event.is_active);
    assert!(event.is_cancelled);
    assert!(!event.can_accept_participants());
    assert!(event.add_participant().is_err());
}

#[test]
fn test_event_add_participant_error_messages() {
    let mut event = make_event(1);
    event.cancel();
    assert_eq!(event.add_participant(), Err("Event is cancelled"));
    assert_eq!(event.participant_count, 0);

    let mut event = make_event(1);
    event.deactivate();
    assert_eq!(event.add_participant(), Err("Event is not active"));

    let mut event = make_event(1);
    event.max_participants = 1;
    assert_eq!(event.add_participant(), Ok(()));
    assert_eq!(event.add_participant(), Err("Event has reached maximum participants"));
    assert_eq!(event.participant_count, 1);
}

#[test]
fn test_event_max_participants() {
    let mut event = Event::new(
        1,
        addr(3),
        String::from("Capped"),
        String::from("2 spots"),
        0i128,
        0u64,
        String::from("CAPCODE1"),
        2u32,
    );

    assert!(event.add_participant().is_ok());
    assert!(event.add_participant().is_ok());
    assert!(event.add_participant().is_err()); // full
}

#[test]
fn test_event_unlimited_participants() {
    let mut event = Event::new(
        1,
        addr(4),
        String::from("Open"),
        String::from("No cap"),
        0i128,
        0u64,
        String::from("OPENCODE"),
        0u32, // 0 = unlimited
    );

    for _ in 0..10 {
        assert!(event.add_participant().is_ok());
    }
    assert_eq!(event.participant_count, 10);
}

#[test]
fn test_event_add_match() {
    let mut event = make_event(1);
    assert_eq!(event.match_count, 0);
    event.add_match();
    event.add_match();
    assert_eq!(event.match_count, 2);
}

#[test]
fn test_event_age_calculation() {
    let event = make_event(1); // created_at = 1_640_995_200

    assert_eq!(event.get_age_seconds(1_640_995_200 + 3600), 3600);
    assert_eq!(event.get_age_seconds(1_640_995_200 - 1000), 0); // saturating_sub
}

// ---------------------------------------------------------------------------
// Match helpers
// ---------------------------------------------------------------------------

fn make_match(match_id: u64, event_id: u64, match_time: u64) -> Match {
    Match::new(
        match_id,
        event_id,
        String::from("Team Alpha"),
        String::from("Team Beta"),
        match_time,
    )
}

// ---------------------------------------------------------------------------
// Match tests
// ---------------------------------------------------------------------------

#[test]
fn test_match_creation() {
    let m = make_match(1, 100, 1_640_995_200);

    assert_eq!(m.match_id, 1);
    assert_eq!(m.event_id, 100);
    assert_eq!(m.match_time, 1_640_995_200);
    assert!(!m.result_submitted);
    assert!(m.winning_team.is_none());
    assert!(m.submitted_by.is_none());
    assert!(m.submitted_at.is_none());
}

#[test]
fn test_match_result_submission() {
    let oracle = addr(99);
    let match_time = 1_640_995_200u64;
    let result_time = match_time + 7200;

    let mut m = make_match(1, 100, match_time);

    assert!(m.submit_result(MatchResult::TeamA, oracle, result_time).is_ok());

    assert!(m.result_submitted);
    // winning_team is stored as Option<u32>
    assert_eq!(m.winning_team, Some(0u32));
    assert_eq!(m.submitted_by, Some(oracle));
    assert_eq!(m.submitted_at, Some(result_time));
    assert_eq!(m.get_winner(), Some(MatchResult::TeamA));
    assert!(m.is_completed());

    // Cannot submit twice
    assert!(m.submit_result(MatchResult::TeamB, oracle, result_time + 100).is_err());
}

#[test]
fn test_match_result_submission_is_recorded_and_stays_valid() {
    let mut m = make_match(1, 100, 5_000);
    assert!(m.validate().is_ok());
    assert_eq!(m.get_winner(), None);
    assert_eq!(m.submit_result(MatchResult::Draw, addr(5), 6_000), Ok(()));
    assert_eq!(m.get_winner(), Some(MatchResult::Draw));
    assert!(m.validate().is_ok());
    assert_eq!(
        m.submit_result(MatchResult::TeamA, addr(5), 7_000),
        Err("Result already submitted for this match")
    );
    assert_eq!(m.winning_team, Some(2u32));
    assert_eq!(m.submitted_at, Some(6_000));
    assert_eq!(m.time_since_result(6_500), 500);
    assert_eq!(m.time_since_result(5_500), 0);
}

#[test]
fn test_match_timing() {
    let match_time = 1_640_995_200u64;
    let m = make_match(1, 100, match_time);

    let before = match_time - 3600;
    assert!(!m.has_started(before));
    assert!(!m.is_ready_for_result(before));
    assert_eq!(m.time_until_start(before), 3600);
    assert_eq!(m.time_since_result(before), 0);

    let after = match_time + 1800;
    assert!(m.has_started(after));
    assert!(m.is_ready_for_result(after));
    assert_eq!(m.time_until_start(after), 0);
    assert_eq!(m.time_since_result(after), 0);
}

#[test]
fn test_match_predictions_allowed() {
    let match_time = 1_640_995_200u64;
    let m = make_match(1, 100, match_time);

    assert!(m.allows_predictions(match_time - 7200, 30)); // 2 h before, 30-min cutoff → ok
    assert!(!m.allows_predictions(match_time - 900, 30)); // 15 min before → blocked
    assert!(!m.allows_predictions(match_time + 1, 30)); // after start → blocked
}

#[test]
fn test_match_predictions_cutoff_edges() {
    let m = make_match(1, 100, 10_000);
    // The cutoff itself is already closed; one second before it is open.
    assert!(!m.allows_predictions(10_000 - 1800, 30));
    assert!(m.allows_predictions(10_000 - 1801, 30));
    // A cutoff longer than the time to the match closes everything.
    let early = make_match(2, 100, 60);
    assert!(!early.allows_predictions(0, 5));
    // A submitted result closes predictions.
    let mut done = make_match(3, 100, 10_000);
    done.submit_result(MatchResult::TeamA, addr(1), 20).unwrap();
    assert!(!done.allows_predictions(0, 0));
}

#[test]
fn test_match_validation_valid() {
    assert!(make_match(1, 100, 1_640_995_200).validate().is_ok());
}

#[test]
fn test_match_validation_empty_team_a() {
    let m = Match::new(1, 100, String::from(""), String::from("Beta"), 0);
    assert!(m.validate().is_err());
}

#[test]
fn test_match_validation_empty_team_b() {
    let m = Match::new(1, 100, String::from("Alpha"), String::from(""), 0);
    assert!(m.validate().is_err());
}

#[test]
fn test_match_validation_same_teams() {
    let name = String::from("Same");
    let m = Match::new(1, 100, name.clone(), name, 0);
    assert!(m.validate().is_err());
}

#[test]
fn test_match_validation_inconsistent_result() {
    // result_submitted = true but winning_team = None
    let mut m = make_match(1, 100, 0);
    m.result_submitted = true;
    assert!(m.validate().is_err());

    // winning_team set but result_submitted = false
    let mut m2 = make_match(1, 100, 0);
    m2.winning_team = Some(0u32);
    assert!(m2.validate().is_err());
}

#[test]
fn test_match_validation_messages() {
    let long = "x".repeat(MAX_TEAM_NAME_LEN as usize + 1);
    let m = Match::new(1, 1, long.clone(), String::from("B"), 0);
    assert_eq!(m.validate(), Err("Team A name exceeds maximum length"));
    let m = Match::new(1, 1, String::from("A"), long, 0);
    assert_eq!(m.validate(), Err("Team B name exceeds maximum length"));

    let mut m = make_match(1, 1, 0);
    m.result_submitted = true;
    m.winning_team = Some(1);
    assert_eq!(m.validate(), Err("Result submitted but submitted_by is None"));
    m.submitted_by = Some(addr(2));
    assert_eq!(m.validate(), Err("Result submitted but submitted_at is None"));
    m.submitted_at = Some(10);
    assert!(m.validate().is_ok());
    m.winning_team = Some(3);
    assert_eq!(
        m.validate(),
        Err("winning_team value must be 0 (TeamA), 1 (TeamB), or 2 (Draw)")
    );

    let mut m = make_match(1, 1, 0);
    m.submitted_at = Some(10);
    assert_eq!(m.validate(), Err("submitted_at set but result_submitted is false"));
}

// ---------------------------------------------------------------------------
// Prediction tests
// ---------------------------------------------------------------------------

#[test]
fn test_prediction_creation_and_validation() {
    let predictor = addr(21);

    let pred = Prediction::new(predictor, 1, 1, 0u32, 1_640_995_200);
    assert_eq!(pred.predictor, predictor);
    assert_eq!(pred.predicted_winner, 0u32);
    assert!(pred.is_correct.is_none());
    assert!(pred.validate().is_ok());

    // Invalid outcome value
    let bad = Prediction::new(predictor, 1, 1, 3u32, 1_640_995_200);
    assert!(bad.validate().is_err());
}

#[test]
fn test_prediction_grading() {
    let predictor = addr(22);

    // Predicted TeamA (0), actual TeamA → correct
    let mut pred = Prediction::new(predictor, 1, 1, 0u32, 1_640_995_200);
    pred.grade(&MatchResult::TeamA);
    assert_eq!(pred.is_correct, Some(true));
    assert!(pred.is_winner());

    // Predicted TeamB (1), actual TeamA → wrong
    let mut pred2 = Prediction::new(predictor, 1, 1, 1u32, 1_640_995_200);
    pred2.grade(&MatchResult::TeamA);
    assert_eq!(pred2.is_correct, Some(false));
    assert!(!pred2.is_winner());
}

// ---------------------------------------------------------------------------
// Winner tests
// ---------------------------------------------------------------------------

#[test]
fn test_winner_creation() {
    let user = addr(23);

    let winner = Winner::new(user, 42, 5, 1_640_995_200);
    assert_eq!(winner.user, user);
    assert_eq!(winner.event_id, 42);
    assert_eq!(winner.total_correct_predictions, 5);
    assert_eq!(winner.verified_at, 1_640_995_200);
}

// ---------------------------------------------------------------------------
// EventMetadata tests
// ---------------------------------------------------------------------------

#[test]
fn test_event_metadata_phases() {
    let base = 1_640_995_200u64;

    let metadata = EventMetadata::new(
        String::from("Sports"),
        String::from("football,nfl"),
        10,
        1000,
        base + 86_400,  // end_time   +24 h
        base + 172_800, // resolution +48 h
        false,
        100,
    );

    // 12 h in — prediction phase
    assert!(metadata.is_prediction_phase(base + 43_200));
    assert!(!metadata.is_resolution_phase(base + 43_200));
    assert!(!metadata.should_auto_resolve(base + 43_200));

    // 36 h in — resolution phase
    assert!(!metadata.is_prediction_phase(base + 129_600));
    assert!(metadata.is_resolution_phase(base + 129_600));
    assert!(!metadata.should_auto_resolve(base + 129_600));

    // 72 h in — auto-resolve
    assert!(!metadata.is_prediction_phase(base + 259_200));
    assert!(!metadata.is_resolution_phase(base + 259_200));
    assert!(metadata.should_auto_resolve(base + 259_200));
}

#[test]
fn test_address_order() {
    let account = Address::new(0, 5, 5);
    let contract = Address::new(1, 0, 0);
    assert!(account.precedes(&contract));
    assert!(!contract.precedes(&account));
    assert!(Address::new(0, 1, 9).precedes(&Address::new(0, 2, 0)));
    assert!(Address::new(0, 2, 0).precedes(&Address::new(0, 2, 1)));
    assert!(!account.precedes(&account));
}
