//! Tests for the weighted standings with deterministic tie-breakers, and for
//! the points leaderboard.
//!
//! The lifecycle tests build the stored records an event accumulates (event,
//! matches, graded predictions) and run the standings computation on them
//! after every result, as the contract does.

use creator_event_manager::address::Address;
use creator_event_manager::leaderboard::{
    get_event_leaderboard, get_event_standings, get_participant_score, recompute_standings,
    LeaderboardError, ParticipantPredictions, Standings,
};
use creator_event_manager::scoring::MatchPredictions;
use creator_event_manager::storage_types::{
    weighted_contribution, Event, LeaderboardEntry, Match, MatchResult, ParticipantScore,
    Prediction, StandingEntry, EARLY_PREDICTION_BONUS_BPS, EARLY_PREDICTION_LEAD_SECONDS,
    POINTS_CORRECT_RESULT, POINTS_EXACT_SCORE, UNDERDOG_BONUS_BPS, WEIGHT_BASE_BPS,
};

// ===========================================================================
// Unit tests: weighting function
// ===========================================================================

const MATCH_TIME: u64 = 100_000;

#[test]
fn test_weighting_late_consensus_is_base_only() {
    // Placed 100 s before the match, with the crowd: base weight only.
    let (base, timing, underdog) = weighted_contribution(4, MATCH_TIME - 100, MATCH_TIME, false);
    assert_eq!(base, 4 * WEIGHT_BASE_BPS);
    assert_eq!(timing, 0);
    assert_eq!(underdog, 0);
}

#[test]
fn test_weighting_early_prediction_earns_timing_bonus() {
    // Placed exactly at the early-lead threshold: bonus applies (inclusive).
    let (base, timing, underdog) = weighted_contribution(
        4,
        MATCH_TIME - EARLY_PREDICTION_LEAD_SECONDS,
        MATCH_TIME,
        false,
    );
    assert_eq!(base, 4 * WEIGHT_BASE_BPS);
    assert_eq!(timing, 4 * EARLY_PREDICTION_BONUS_BPS);
    assert_eq!(underdog, 0);

    // One second inside the threshold: no bonus.
    let (_, timing_late, _) = weighted_contribution(
        4,
        MATCH_TIME - EARLY_PREDICTION_LEAD_SECONDS + 1,
        MATCH_TIME,
        false,
    );
    assert_eq!(timing_late, 0);
}

#[test]
fn test_weighting_minority_pick_earns_underdog_bonus() {
    let (base, timing, underdog) = weighted_contribution(1, MATCH_TIME - 100, MATCH_TIME, true);
    assert_eq!(base, WEIGHT_BASE_BPS);
    assert_eq!(timing, 0);
    assert_eq!(underdog, UNDERDOG_BONUS_BPS);
}

#[test]
fn test_weighting_zero_points_contributes_nothing() {
    // A wrong prediction earns nothing even if early and against the crowd.
    let contribution = weighted_contribution(0, 0, MATCH_TIME, true);
    assert_eq!(contribution, (0, 0, 0));
}

#[test]
fn test_weighting_early_underdog_strictly_beats_late_consensus() {
    let (b1, t1, u1) = weighted_contribution(4, 0, MATCH_TIME, true);
    let (b2, t2, u2) = weighted_contribution(4, MATCH_TIME - 1, MATCH_TIME, false);
    assert!(b1 + t1 + u1 > b2 + t2 + u2);
    // Each bonus alone is also strictly higher than the plain contribution.
    let (b3, t3, u3) = weighted_contribution(4, 0, MATCH_TIME, false);
    let (b4, t4, u4) = weighted_contribution(4, MATCH_TIME - 1, MATCH_TIME, true);
    assert!(b3 + t3 + u3 > b2 + t2 + u2);
    assert!(b4 + t4 + u4 > b2 + t2 + u2);
}

#[test]
fn test_weighting_exact_values() {
    assert_eq!(weighted_contribution(4, 0, MATCH_TIME, true), (40_000, 10_000, 20_000));
    assert_eq!(weighted_contribution(1, 0, MATCH_TIME, false), (10_000, 2_500, 0));
    // A prediction placed after the match start is never early.
    assert_eq!(weighted_contribution(1, MATCH_TIME + 5_000, MATCH_TIME, false), (10_000, 0, 0));
    // The largest points value stays in range.
    assert_eq!(
        weighted_contribution(u32::MAX, 0, MATCH_TIME, true),
        (
            u32::MAX as u64 * 10_000,
            u32::MAX as u64 * 2_500,
            u32::MAX as u64 * 5_000
        )
    );
}

// ===========================================================================
// Unit tests: StandingEntry tie-break chain
// ===========================================================================

fn addr(n: u128) -> Address {
    Address::new(0, 0, n)
}

fn entry(user: &Address, weighted: u64, correct: u32, achieved_at: u64) -> StandingEntry {
    StandingEntry {
        user: *user,
        event_id: 1,
        weighted_score: weighted,
        correct_count: correct,
        achieved_at,
        rank: 0,
    }
}

#[test]
fn test_tiebreak_weighted_score_is_primary() {
    let a = addr(1);
    let b = addr(2);
    // Lower correct count and later achievement, but higher weighted score wins.
    let high = entry(&a, 20_000, 1, 500);
    let low = entry(&b, 15_000, 3, 100);
    assert!(high.outranks(&low));
    assert!(!low.outranks(&high));
}

#[test]
fn test_tiebreak_correct_count_on_equal_weighted_score() {
    let a = addr(1);
    let b = addr(2);
    let more_correct = entry(&a, 20_000, 2, 500);
    let fewer_correct = entry(&b, 20_000, 1, 100);
    assert!(more_correct.outranks(&fewer_correct));
    assert!(!fewer_correct.outranks(&more_correct));
}

#[test]
fn test_tiebreak_earlier_achievement_on_equal_score_and_count() {
    let a = addr(1);
    let b = addr(2);
    let earlier = entry(&a, 20_000, 2, 100);
    let later = entry(&b, 20_000, 2, 500);
    assert!(earlier.outranks(&later));
    assert!(!later.outranks(&earlier));
}

#[test]
fn test_tiebreak_address_is_final() {
    let a = Address::new(1, 0xdead, 3);
    let b = Address::new(0, 0xbeef, 9);
    let (smaller, larger) = if a.precedes(&b) { (a, b) } else { (b, a) };
    let s = entry(&smaller, 20_000, 2, 100);
    let l = entry(&larger, 20_000, 2, 100);
    assert!(s.outranks(&l));
    assert!(!l.outranks(&s));
    // A row never outranks itself.
    assert!(!s.outranks(&s));
}

// ===========================================================================
// Lifecycle model
// ===========================================================================

const EVENT_ID: u64 = 1;

struct Lifecycle {
    event: Option<Event>,
    participants: Vec<Address>,
    matches: Vec<MatchPredictions>,
    /// Predicted (home, away) score of every prediction, per match.
    picks: Vec<Vec<(u32, u32)>>,
    snapshot: Vec<StandingEntry>,
    scores: Vec<ParticipantScore>,
}

fn outcome(home: u32, away: u32) -> u32 {
    if home > away {
        0
    } else if away > home {
        1
    } else {
        2
    }
}

impl Lifecycle {
    fn new(match_times: &[u64]) -> Lifecycle {
        let event = Event::new(
            EVENT_ID,
            addr(1_000),
            String::from("Weighted Standings Event"),
            String::from("Event lifecycle test"),
            0,
            0,
            String::from("INVITE01"),
            100,
        );
        let mut matches = Vec::new();
        let mut picks = Vec::new();
        for (i, t) in match_times.iter().enumerate() {
            matches.push(MatchPredictions {
                info: Match::new(
                    i as u64,
                    EVENT_ID,
                    format!("Team A{}", i),
                    format!("Team B{}", i),
                    *t,
                ),
                predictions: Vec::new(),
            });
            picks.push(Vec::new());
        }
        Lifecycle {
            event: Some(event),
            participants: Vec::new(),
            matches,
            picks,
            snapshot: Vec::new(),
            scores: Vec::new(),
        }
    }

    fn join(&mut self, user: Address) {
        self.event.as_mut().unwrap().add_participant().unwrap();
        self.participants.push(user);
    }

    fn predict(&mut self, user: Address, m: usize, home: u32, away: u32, now: u64) {
        let p = Prediction::with_scores(user, EVENT_ID, m as u64, home, away, now);
        assert_eq!(p.predicted_winner, outcome(home, away));
        self.matches[m].predictions.push(p);
        self.picks[m].push((home, away));
    }

    /// Records the result, grades the match's predictions (exact score:
    /// result + exact points; right outcome: result points; else 0) and
    /// recomputes the standings.
    fn resolve(&mut self, m: usize, home: u32, away: u32, now: u64) {
        let result = MatchResult::from_u32(outcome(home, away)).unwrap();
        self.matches[m].info.submit_result(result, addr(9_999), now).unwrap();
        for (p, (h, a)) in self.matches[m].predictions.iter_mut().zip(self.picks[m].iter()) {
            p.grade(&result);
            let points = if *h == home && *a == away {
                POINTS_CORRECT_RESULT + POINTS_EXACT_SCORE
            } else if p.is_winner() {
                POINTS_CORRECT_RESULT
            } else {
                0
            };
            p.points_earned = Some(points);
        }
        self.recompute();
    }

    fn recompute(&mut self) {
        let Standings { entries, scores } =
            recompute_standings(&self.event, EVENT_ID, &self.participants, &self.matches)
                .unwrap();
        self.snapshot = entries;
        self.scores = scores;
    }

    fn standings(&self) -> Vec<StandingEntry> {
        get_event_standings(&self.event, self.snapshot.clone()).unwrap()
    }

    fn score(&self, user: &Address) -> ParticipantScore {
        let stored = self.scores.iter().find(|s| s.user == *user).copied();
        get_participant_score(&self.event, EVENT_ID, *user, stored).unwrap()
    }
}

// ===========================================================================
// Lifecycle tests
// ===========================================================================

/// Two users with identical correct counts and identical points: the one who
/// predicted early (≥ 1 h lead) gets a strictly higher weighted score and
/// rank 1, and the transparency view exposes the component breakdown.
#[test]
fn test_early_prediction_outranks_late_with_equal_correct_counts() {
    let t0 = 0u64;
    let mut ev = Lifecycle::new(&[t0 + 7_200]);

    let early_user = addr(10);
    let late_user = addr(11);

    // Early user predicts immediately: 7 200 s lead ≥ 3 600 s threshold.
    ev.join(early_user);
    ev.predict(early_user, 0, 1, 0, t0);

    // Late user predicts 1 200 s before the match: below the threshold.
    ev.join(late_user);
    ev.predict(late_user, 0, 1, 0, t0 + 6_000);

    // Resolve: 1-0, both predictions exact (4 points each), both consensus.
    ev.resolve(0, 1, 0, t0 + 7_300);

    let standings = ev.standings();
    assert_eq!(standings.len(), 2);

    let first = standings[0];
    let second = standings[1];
    assert_eq!(first.user, early_user);
    assert_eq!(first.rank, 1);
    assert_eq!(second.user, late_user);
    assert_eq!(second.rank, 2);

    // Equal correct counts — ordering is purely the weighted score.
    assert_eq!(first.correct_count, 1);
    assert_eq!(second.correct_count, 1);
    assert_eq!(first.weighted_score, 4 * (WEIGHT_BASE_BPS + EARLY_PREDICTION_BONUS_BPS));
    assert_eq!(second.weighted_score, 4 * WEIGHT_BASE_BPS);
    assert!(first.weighted_score > second.weighted_score);

    // Transparency view: components add up to the weighted score.
    let early_score = ev.score(&early_user);
    assert_eq!(early_score.base_component, 4 * WEIGHT_BASE_BPS);
    assert_eq!(early_score.timing_component, 4 * EARLY_PREDICTION_BONUS_BPS);
    assert_eq!(early_score.underdog_component, 0);
    assert_eq!(
        early_score.weighted_score,
        early_score.base_component + early_score.timing_component + early_score.underdog_component
    );
    assert_eq!(early_score.correct_count, 1);
    assert_eq!(early_score.achieved_at, t0 + 7_300);

    let late_score = ev.score(&late_user);
    assert_eq!(late_score.timing_component, 0);
    assert_eq!(late_score.weighted_score, late_score.base_component);
}

/// An against-the-crowd correct pick is worth strictly more than a consensus
/// correct pick with the same raw points.
#[test]
fn test_against_crowd_pick_outranks_consensus_pick() {
    let t0 = 0u64;
    // Two matches, both < 1 h out so no timing bonus muddies the comparison.
    let mut ev = Lifecycle::new(&[t0 + 1_800, t0 + 1_900]);

    let underdog = addr(20);
    let consensus = addr(21);
    let crowd = addr(22);
    for user in [underdog, consensus, crowd] {
        ev.join(user);
    }

    // Match 1: underdog picks TeamB (1 of 3), the others pick TeamA.
    ev.predict(underdog, 0, 0, 1, t0);
    ev.predict(consensus, 0, 1, 0, t0);
    ev.predict(crowd, 0, 1, 0, t0);

    // Match 2: consensus & crowd pick TeamA (2 of 3), underdog picks TeamB.
    ev.predict(underdog, 1, 0, 1, t0);
    ev.predict(consensus, 1, 1, 0, t0);
    ev.predict(crowd, 1, 2, 0, t0);

    // Match 1 finishes 0-1: only the underdog is right (exact, 4 pts, minority).
    ev.resolve(0, 0, 1, t0 + 2_000);
    // Match 2 finishes 1-0: consensus is exact (4 pts) with the majority.
    ev.resolve(1, 1, 0, t0 + 2_000);

    let standings = ev.standings();
    assert_eq!(standings.len(), 3);

    let first = standings[0];
    let second = standings[1];
    let third = standings[2];

    // Same points (4) and same correct count (1) — the minority pick wins.
    assert_eq!(first.user, underdog);
    assert_eq!(first.weighted_score, 4 * (WEIGHT_BASE_BPS + UNDERDOG_BONUS_BPS));
    assert_eq!(first.correct_count, 1);

    assert_eq!(second.user, consensus);
    assert_eq!(second.weighted_score, 4 * WEIGHT_BASE_BPS);
    assert_eq!(second.correct_count, 1);
    assert!(first.weighted_score > second.weighted_score);

    // Crowd got match 2's result right (1 pt) but not the exact score.
    assert_eq!(third.user, crowd);
    assert_eq!(third.weighted_score, WEIGHT_BASE_BPS);

    // Component breakdown for the underdog.
    let score = ev.score(&underdog);
    assert_eq!(score.base_component, 4 * WEIGHT_BASE_BPS);
    assert_eq!(score.timing_component, 0);
    assert_eq!(score.underdog_component, 4 * UNDERDOG_BONUS_BPS);
}

/// Equal weighted scores and correct counts: the participant who reached the
/// score first (earlier result submission) ranks higher.
#[test]
fn test_tiebreak_earlier_achievement_in_lifecycle() {
    let t0 = 0u64;
    // Two matches with identical start times (identical timing weights).
    let mut ev = Lifecycle::new(&[t0 + 1_800, t0 + 1_800]);

    let user1 = addr(30);
    let user2 = addr(31);
    ev.join(user1);
    ev.join(user2);

    // user1 is exact on match 1 and wrong on match 2; user2 is the mirror
    // image. Each match has one predictor per outcome (1 of 2 picks the
    // winner → 2·1 == 2, not a minority), so weighted scores are equal.
    ev.predict(user1, 0, 1, 0, t0);
    ev.predict(user1, 1, 0, 1, t0);
    ev.predict(user2, 0, 0, 1, t0);
    ev.predict(user2, 1, 1, 0, t0);

    // Match 1 resolves first (user1 scores), match 2 resolves later (user2).
    ev.resolve(0, 1, 0, t0 + 2_000);
    ev.resolve(1, 1, 0, t0 + 2_500);

    let standings = ev.standings();
    assert_eq!(standings.len(), 2);

    let first = standings[0];
    let second = standings[1];
    assert_eq!(first.weighted_score, second.weighted_score);
    assert_eq!(first.correct_count, second.correct_count);
    assert_eq!(first.user, user1);
    assert_eq!(first.achieved_at, t0 + 2_000);
    assert_eq!(second.user, user2);
    assert_eq!(second.achieved_at, t0 + 2_500);
}

/// Fully identical participants fall back to the address tie-breaker, and the
/// outcome does not depend on join/prediction insertion order.
#[test]
fn test_tiebreak_address_in_lifecycle() {
    let t0 = 0u64;
    let mut ev = Lifecycle::new(&[t0 + 1_800]);

    let a = Address::new(1, 7, 7);
    let b = Address::new(0, 9, 9);
    let (smaller, larger) = if a.precedes(&b) { (a, b) } else { (b, a) };

    // Larger address joins and predicts FIRST — insertion order must not matter.
    ev.join(larger);
    ev.join(smaller);
    ev.predict(larger, 0, 1, 0, t0);
    ev.predict(smaller, 0, 1, 0, t0);

    ev.resolve(0, 1, 0, t0 + 2_000);

    let standings = ev.standings();
    assert_eq!(standings.len(), 2);
    assert_eq!(standings[0].user, smaller);
    assert_eq!(standings[0].rank, 1);
    assert_eq!(standings[1].user, larger);
    assert_eq!(standings[1].rank, 2);

    // Listing the participants the other way round gives the same snapshot.
    let reversed: Vec<Address> = ev.participants.iter().rev().copied().collect();
    let again = recompute_standings(&ev.event, EVENT_ID, &reversed, &ev.matches).unwrap();
    assert_eq!(again.entries, standings);
}

/// Full event lifecycle: standings update after each result, participants who
/// never score still appear, and the snapshot is identical across repeated
/// reads and across recomputation (idempotence).
#[test]
fn test_lifecycle_standings_idempotent_through_finalize() {
    let t0 = 0u64;
    let mut ev = Lifecycle::new(&[t0 + 7_200, t0 + 7_500]);

    let user1 = addr(40);
    let user2 = addr(41);
    let idle = addr(42); // joins but never predicts

    // No results submitted yet → no standings snapshot.
    assert_eq!(ev.standings().len(), 0);

    ev.join(user1);
    ev.join(user2);
    ev.join(idle);

    // user1 predicts both matches early; user2 predicts match 2 late.
    ev.predict(user1, 0, 2, 0, t0);
    ev.predict(user1, 1, 1, 1, t0);
    ev.predict(user2, 1, 1, 1, t0 + 6_500);

    // Resolve match 1 (2-0): user1 exact.
    ev.resolve(0, 2, 0, t0 + 7_300);

    let interim = ev.standings();
    assert_eq!(interim.len(), 3);
    assert_eq!(interim[0].user, user1);
    assert_eq!(interim[0].correct_count, 1);

    // Resolve match 2 (1-1): both user1 and user2 exact (draw is consensus —
    // both graded predictors picked it).
    ev.resolve(1, 1, 1, t0 + 7_600);

    let after_results = ev.standings();
    assert_eq!(after_results.len(), 3);
    let top = after_results[0];
    assert_eq!(top.user, user1);
    assert_eq!(top.rank, 1);
    assert_eq!(top.correct_count, 2);
    // user1: match 1 early exact 4×1.25, match 2 early exact 4×1.25.
    assert_eq!(top.weighted_score, 2 * 4 * (WEIGHT_BASE_BPS + EARLY_PREDICTION_BONUS_BPS));
    // user2: match 2 late exact, base only.
    assert_eq!(after_results[1].user, user2);
    assert_eq!(after_results[1].weighted_score, 4 * WEIGHT_BASE_BPS);
    // Idle participant still appears, with a zero score and last rank.
    assert_eq!(after_results[2].user, idle);
    assert_eq!(after_results[2].weighted_score, 0);
    assert_eq!(after_results[2].rank, 3);

    // Repeated reads return the identical snapshot.
    assert_eq!(ev.standings(), after_results);

    // Finalize (recomputes standings again) — snapshot must be unchanged.
    ev.recompute();
    let after_finalize = ev.standings();
    assert_eq!(after_finalize, after_results);

    // Component invariant holds for every participant.
    for user in [user1, user2, idle] {
        let score = ev.score(&user);
        assert_eq!(
            score.weighted_score,
            score.base_component + score.timing_component + score.underdog_component
        );
    }
}

/// The transparency read returns a zeroed score for unknown users.
#[test]
fn test_participant_score_defaults_and_event_guard() {
    let ev = Lifecycle::new(&[1_800]);

    let stranger = addr(77);
    let score = ev.score(&stranger);
    assert_eq!(score.weighted_score, 0);
    assert_eq!(score.correct_count, 0);
    assert_eq!(score.achieved_at, 0);
    assert_eq!(score.user, stranger);
    assert_eq!(score.event_id, EVENT_ID);
}

/// Reads for an unknown event are refused with `EventNotFound`.
#[test]
fn test_get_event_standings_unknown_event_panics() {
    assert_eq!(
        get_event_standings(&None, Vec::new()),
        Err(LeaderboardError::EventNotFound)
    );
    assert_eq!(
        get_participant_score(&None, 9_999, addr(1), None),
        Err(LeaderboardError::EventNotFound)
    );
    assert!(matches!(
        recompute_standings(&None, 9_999, &vec![addr(1)], &Vec::new()),
        Err(LeaderboardError::EventNotFound)
    ));
}

// ===========================================================================
// Further standings tests
// ===========================================================================

#[test]
fn test_standings_skip_unresolved_and_unknown_predictors() {
    let mut ev = Lifecycle::new(&[1_800, 1_900]);
    let user = addr(50);
    ev.join(user);
    let outsider = addr(51); // predicts without having joined
    ev.predict(user, 0, 1, 0, 0);
    ev.predict(outsider, 0, 1, 0, 0);
    ev.predict(user, 1, 1, 0, 0);
    ev.resolve(0, 1, 0, 2_000);
    // Match 2 is unresolved: it adds nothing yet.
    let s = ev.standings();
    assert_eq!(s.len(), 1);
    assert_eq!(s[0].user, user);
    assert_eq!(s[0].weighted_score, 4 * WEIGHT_BASE_BPS);
    assert_eq!(s[0].correct_count, 1);
    assert!(ev.scores.iter().all(|sc| sc.user != outsider));
}

#[test]
fn test_standings_overflow_is_reported() {
    let mut ev = Lifecycle::new(&[10, 20]);
    let user = addr(60);
    ev.join(user);
    ev.predict(user, 0, 1, 0, 0);
    ev.predict(user, 1, 1, 0, 0);
    let result = MatchResult::TeamA;
    for m in 0..2 {
        ev.matches[m].info.submit_result(result, addr(1), 30).unwrap();
        ev.matches[m].predictions[0].points_earned = Some(u32::MAX);
    }
    // Each match adds u32::MAX × 1.0 (not early, not minority): the sum still fits.
    let ok = recompute_standings(&ev.event, EVENT_ID, &ev.participants, &ev.matches).unwrap();
    assert_eq!(ok.scores[0].weighted_score, 2 * u32::MAX as u64 * WEIGHT_BASE_BPS);
    // Many such matches overflow the weighted score.
    let mut many = Vec::new();
    for _ in 0..500_000 {
        many.push(MatchPredictions {
            info: ev.matches[0].info.clone(),
            predictions: ev.matches[0].predictions.clone(),
        });
    }
    assert!(matches!(
        recompute_standings(&ev.event, EVENT_ID, &ev.participants, &many),
        Err(LeaderboardError::Overflow)
    ));
    assert_eq!(LeaderboardError::Overflow.code(), 2);
    assert_eq!(LeaderboardError::EventNotFound.code(), 1);
}

#[test]
fn test_standings_duplicate_participant_gets_same_score() {
    let mut ev = Lifecycle::new(&[1_800]);
    let user = addr(70);
    ev.participants.push(user);
    ev.participants.push(user);
    ev.predict(user, 0, 1, 0, 0);
    ev.resolve(0, 1, 0, 2_000);
    assert_eq!(ev.scores.len(), 2);
    assert_eq!(ev.scores[0], ev.scores[1]);
    assert_eq!(ev.scores[0].weighted_score, 4 * WEIGHT_BASE_BPS);
}

// ===========================================================================
// Points leaderboard
// ===========================================================================

fn graded(user: Address, points: Option<u32>, correct: Option<bool>, at: u64) -> Option<Prediction> {
    let mut p = Prediction::new(user, EVENT_ID, 0, 0, at);
    p.points_earned = points;
    p.is_correct = correct;
    Some(p)
}

fn event() -> Option<Event> {
    Some(Event::new(
        EVENT_ID,
        addr(1),
        String::from("E"),
        String::from("D"),
        0,
        0,
        String::from("CODE0001"),
        0,
    ))
}

#[test]
fn test_leaderboard_ranking_rules() {
    let a = addr(1);
    let b = addr(2);
    let c = addr(3);
    let d = addr(4);
    let participants = vec![
        // 5 points, 1 exact, last at 300
        ParticipantPredictions {
            user: a,
            predictions: vec![
                graded(a, Some(4), Some(true), 100),
                graded(a, Some(1), Some(true), 300),
                None,
            ],
        },
        // 5 points, 1 exact, last at 200 → beats a
        ParticipantPredictions {
            user: b,
            predictions: vec![graded(b, Some(4), Some(true), 200), graded(b, Some(1), Some(true), 50)],
        },
        // 6 points → first
        ParticipantPredictions {
            user: c,
            predictions: vec![graded(c, Some(6), Some(true), 900)],
        },
        // 0 points, ungraded prediction
        ParticipantPredictions { user: d, predictions: vec![graded(d, None, None, 10)] },
    ];
    let board = get_event_leaderboard(&event(), EVENT_ID, &participants).unwrap();
    let users: Vec<Address> = board.iter().map(|e| e.user).collect();
    assert_eq!(users, vec![c, b, a, d]);
    let ranks: Vec<u32> = board.iter().map(|e| e.rank).collect();
    assert_eq!(ranks, vec![1, 2, 3, 4]);
    assert_eq!(
        board[2],
        LeaderboardEntry {
            user: a,
            event_id: EVENT_ID,
            total_points: 5,
            correct_results: 2,
            exact_scores: 1,
            matches_played: 3,
            last_prediction_time: 300,
            rank: 3,
        }
    );
    assert_eq!(board[3].total_points, 0);
    assert_eq!(board[3].matches_played, 1);
    assert_eq!(board[3].last_prediction_time, 10);
}

#[test]
fn test_leaderboard_exact_and_address_tiebreaks() {
    let a = addr(5);
    let b = addr(6);
    // Same total (4): b has an exact score, a has four 1-point results.
    let participants = vec![
        ParticipantPredictions {
            user: a,
            predictions: vec![
                graded(a, Some(1), Some(true), 1),
                graded(a, Some(1), Some(true), 1),
                graded(a, Some(1), Some(true), 1),
                graded(a, Some(1), Some(true), 1),
            ],
        },
        ParticipantPredictions { user: b, predictions: vec![graded(b, Some(4), Some(true), 9)] },
    ];
    let board = get_event_leaderboard(&event(), EVENT_ID, &participants).unwrap();
    assert_eq!(board[0].user, b);
    assert_eq!(board[0].exact_scores, 1);
    assert_eq!(board[1].correct_results, 4);

    // Entirely equal rows: the smaller address first, whatever the input order.
    let x = Address::new(0, 1, 0);
    let y = Address::new(0, 0, 5);
    let rows = |first: Address, second: Address| {
        vec![
            ParticipantPredictions { user: first, predictions: vec![] },
            ParticipantPredictions { user: second, predictions: vec![] },
        ]
    };
    let one = get_event_leaderboard(&event(), EVENT_ID, &rows(x, y)).unwrap();
    let two = get_event_leaderboard(&event(), EVENT_ID, &rows(y, x)).unwrap();
    assert_eq!(one, two);
    assert_eq!(one[0].user, y);
}

#[test]
fn test_leaderboard_equal_rows_come_in_reverse_input_order() {
    // One address listed twice with different statistics but the same sort
    // key: the later listing ranks first.
    let a = addr(9);
    let participants = vec![
        ParticipantPredictions { user: a, predictions: vec![graded(a, Some(1), Some(true), 5)] },
        ParticipantPredictions {
            user: a,
            predictions: vec![graded(a, Some(1), Some(false), 5), None],
        },
    ];
    let board = get_event_leaderboard(&event(), EVENT_ID, &participants).unwrap();
    assert_eq!(board[0].matches_played, 2);
    assert_eq!(board[0].correct_results, 0);
    assert_eq!(board[1].matches_played, 1);
    assert_eq!(board[1].correct_results, 1);
    // Reading again gives the same leaderboard.
    assert_eq!(get_event_leaderboard(&event(), EVENT_ID, &participants).unwrap(), board);
}

#[test]
fn test_underdog_count_uses_predicted_score_lines() {
    // Predictions of 2-1 and 1-0 both pick TeamA; 0-0 picks a draw.
    let mut ev = Lifecycle::new(&[1_800]);
    let (u1, u2, u3) = (addr(81), addr(82), addr(83));
    for u in [u1, u2, u3] {
        ev.join(u);
    }
    ev.predict(u1, 0, 2, 1, 0);
    ev.predict(u2, 0, 1, 0, 0);
    ev.predict(u3, 0, 0, 0, 0);
    ev.resolve(0, 0, 0, 2_000);
    // The draw had 1 of 3 picks: u3 is exact and a minority pick.
    let s = ev.standings();
    assert_eq!(s[0].user, u3);
    assert_eq!(s[0].weighted_score, 4 * (WEIGHT_BASE_BPS + UNDERDOG_BONUS_BPS));
    assert_eq!(s[1].weighted_score, 0);
}

#[test]
fn test_leaderboard_errors_and_empty() {
    assert_eq!(
        get_event_leaderboard(&None, EVENT_ID, &Vec::new()),
        Err(LeaderboardError::EventNotFound)
    );
    assert_eq!(get_event_leaderboard(&event(), EVENT_ID, &Vec::new()), Ok(Vec::new()));
    let a = addr(8);
    let big = vec![ParticipantPredictions {
        user: a,
        predictions: vec![graded(a, Some(u32::MAX), None, 0), graded(a, Some(1), None, 0)],
    }];
    assert_eq!(
        get_event_leaderboard(&event(), EVENT_ID, &big),
        Err(LeaderboardError::Overflow)
    );
}
