//! Ranked event leaderboard and weighted standings.
//!
//! The leaderboard ranks participants by total points with deterministic
//! tie-breaking; it is live, so unresolved matches simply contribute 0 points.
//! The weighted standings rebuild every participant's score from the graded
//! predictions of the event's resolved matches and rank them.
//!
//! The functions here take the stored records they read as arguments (the
//! event if it exists, its participants, matches and predictions) and return
//! what is to be shown or stored.

use vstd::prelude::*;

use crate::address::{address_lt, lemma_address_order, Address};
use crate::participant_index::{
    build_participant_index, first_not_before, index_covers, is_participant_index,
};
use crate::ranking::{
    is_leaderboard_ranking, is_standings_ranking, lemma_leaderboard_ranking_unique,
    lemma_leaderboard_ranking_unique_up_to_order, lemma_map_multiset,
    lemma_standings_ranking_unique, lemma_standings_ranking_unique_up_to_order,
    leaderboard_unranked, rank_leaderboard_rows, rank_standing_rows,
};
use crate::scoring::{
    empty_tally, is_minority_pick, lemma_picks_bounded, lemma_tally_matches_prefix,
    lemma_tally_predictions_prefix, picks_for, score_holds, score_of, standing_row_of,
    standing_rows, tally_le, tally_match, tally_matches, tally_overflows, tally_predictions,
    MatchPredictions,
};
use crate::storage_types::{
    weighted_contribution, Event, LeaderboardEntry, Match, MatchResult, ParticipantScore, Prediction, StandingEntry,
    POINTS_CORRECT_RESULT, POINTS_EXACT_SCORE,
};

verus! {

// ---------------------------------------------------------------------------
// Error type
// ---------------------------------------------------------------------------

/// Errors of the leaderboard and standings computations.
#[derive(Clone, Copy, Debug, PartialEq, Eq, Structural)]
pub enum LeaderboardError {
    /// No event found for the given event_id.
    EventNotFound,
    /// Arithmetic overflow during calculation.
    Overflow,
}

impl LeaderboardError {
    /// The numeric error code of this error (1 = EventNotFound, 2 = Overflow).
    pub fn code(&self) -> (r: u32)
        ensures
            r == (match self {
                LeaderboardError::EventNotFound => 1u32,
                LeaderboardError::Overflow => 2u32,
            }),
    {
        match self {
            LeaderboardError::EventNotFound => 1,
            LeaderboardError::Overflow => 2,
        }
    }
}

// ---------------------------------------------------------------------------
// Leaderboard statistics
// ---------------------------------------------------------------------------

/// A participant together with the predictions listed for them in the event;
/// an entry is `None` where the listed prediction could not be loaded.
pub struct ParticipantPredictions {
    pub user: Address,
    pub predictions: Vec<Option<Prediction>>,
}

/// Points a graded prediction earned (0 while ungraded).
pub open spec fn earned_points(p: Prediction) -> int {
    match p.points_earned {
        Some(x) => x as int,
        None => 0,
    }
}

/// Points of an exact-score prediction.
pub open spec fn exact_score_points() -> int {
    POINTS_CORRECT_RESULT + POINTS_EXACT_SCORE
}

/// Sum of the points earned by the loaded predictions.
pub open spec fn total_points_of(preds: Seq<Option<Prediction>>) -> int
    decreases preds.len(),
{
    if preds.len() == 0 {
        0
    } else {
        total_points_of(preds.drop_last()) + match preds.last() {
            Some(p) => earned_points(p),
            None => 0,
        }
    }
}

/// Number of loaded predictions graded correct.
pub open spec fn correct_results_of(preds: Seq<Option<Prediction>>) -> int
    decreases preds.len(),
{
    if preds.len() == 0 {
        0
    } else {
        correct_results_of(preds.drop_last()) + match preds.last() {
            Some(p) => if p.is_correct == Some(true) {
                1int
            } else {
                0int
            },
            None => 0,
        }
    }
}

/// Number of loaded predictions that earned the exact-score points.
pub open spec fn exact_scores_of(preds: Seq<Option<Prediction>>) -> int
    decreases preds.len(),
{
    if preds.len() == 0 {
        0
    } else {
        exact_scores_of(preds.drop_last()) + match preds.last() {
            Some(p) => if p.points_earned == Some(exact_score_points() as u32) {
                1int
            } else {
                0int
            },
            None => 0,
        }
    }
}

/// Latest submission time among the loaded predictions (0 if none).
pub open spec fn last_prediction_time_of(preds: Seq<Option<Prediction>>) -> int
    decreases preds.len(),
{
    if preds.len() == 0 {
        0
    } else {
        let before = last_prediction_time_of(preds.drop_last());
        match preds.last() {
            Some(p) => if p.predicted_at > before {
                p.predicted_at as int
            } else {
                before
            },
            None => before,
        }
    }
}

/// The unranked leaderboard row of a participant.
pub open spec fn leaderboard_row(event_id: u64, user: Address, preds: Seq<Option<Prediction>>) -> LeaderboardEntry {
    LeaderboardEntry {
        user,
        event_id,
        total_points: total_points_of(preds) as u32,
        correct_results: correct_results_of(preds) as u32,
        exact_scores: exact_scores_of(preds) as u32,
        matches_played: preds.len() as u32,
        last_prediction_time: last_prediction_time_of(preds) as u64,
        rank: 0,
    }
}

/// The unranked leaderboard rows of all participants, in participant order.
pub open spec fn leaderboard_rows(event_id: u64, participants: Seq<ParticipantPredictions>) -> Seq<
    LeaderboardEntry,
> {
    participants.map_values(
        |pp: ParticipantPredictions| leaderboard_row(event_id, pp.user, pp.predictions@),
    )
}

/// A participant's points total does not fit the leaderboard's counter.
pub open spec fn points_overflow(pp: ParticipantPredictions) -> bool {
    total_points_of(pp.predictions@) > u32::MAX
}

proof fn lemma_leaderboard_stats_bounds(preds: Seq<Option<Prediction>>, k: int)
    requires
        0 <= k <= preds.len(),
    ensures
        0 <= total_points_of(preds.take(k)) <= total_points_of(preds),
        0 <= correct_results_of(preds) <= preds.len(),
        0 <= exact_scores_of(preds) <= preds.len(),
        0 <= last_prediction_time_of(preds) <= u64::MAX,
    decreases preds.len(),
{
    if preds.len() > 0 {
        if k == preds.len() {
            assert(preds.take(k) =~= preds);
            lemma_leaderboard_stats_bounds(preds.drop_last(), k - 1);
        } else {
            assert(preds.drop_last().take(k) =~= preds.take(k));
            lemma_leaderboard_stats_bounds(preds.drop_last(), k);
        }
    } else {
        assert(preds.take(k) =~= preds);
    }
}

/// Computes the unranked leaderboard row of one participant.
fn participant_row(event_id: u64, pp: &ParticipantPredictions) -> (r: Result<
    LeaderboardEntry,
    LeaderboardError,
>)
    requires
        pp.predictions.len() <= u32::MAX,
    ensures
        r is Err <==> points_overflow(*pp),
        r is Err ==> r == Err::<LeaderboardEntry, LeaderboardError>(LeaderboardError::Overflow),
        r matches Ok(e) ==> e == leaderboard_row(event_id, pp.user, pp.predictions@),
{
    let preds = &pp.predictions;
    let n = preds.len();
    let mut total_points: u32 = 0;
    let mut correct_results: u32 = 0;
    let mut exact_scores: u32 = 0;
    let mut last_prediction_time: u64 = 0;
    let mut k: usize = 0;
    while k < n
        invariant
            preds@ == pp.predictions@,
            n == preds.len(),
            n <= u32::MAX,
            k <= n,
            total_points == total_points_of(preds@.take(k as int)),
            correct_results == correct_results_of(preds@.take(k as int)),
            exact_scores == exact_scores_of(preds@.take(k as int)),
            last_prediction_time == last_prediction_time_of(preds@.take(k as int)),
            correct_results <= k,
            exact_scores <= k,
        decreases n - k,
    {
        let ghost prefix = preds@.take(k as int);
        assert(preds@.take(k + 1).drop_last() =~= prefix);
        if let Some(prediction) = preds[k] {
            // Add earned points (None counts as 0)
            if let Some(points) = prediction.points_earned {
                match total_points.checked_add(points) {
                    Some(t) => {
                        total_points = t;
                    },
                    None => {
                        proof {
                            assert(preds@.take(k + 1).last() == preds@[k as int]);
                            assert(total_points_of(preds@.take(k + 1)) == total_points + points);
                            lemma_leaderboard_stats_bounds(preds@, k + 1);
                        }
                        return Err(LeaderboardError::Overflow);
                    },
                }
            }
            // Count correct results
            if prediction.is_correct == Some(true) {
                correct_results = correct_results + 1;
            }
            // Count exact scores (correct result plus exact score points)
            if prediction.points_earned == Some(POINTS_CORRECT_RESULT + POINTS_EXACT_SCORE) {
                exact_scores = exact_scores + 1;
            }
            // Track latest prediction time
            if prediction.predicted_at > last_prediction_time {
                last_prediction_time = prediction.predicted_at;
            }
        }
        k = k + 1;
    }
    assert(preds@.take(n as int) =~= preds@);
    Ok(
        LeaderboardEntry::new(
            pp.user,
            event_id,
            total_points,
            correct_results,
            exact_scores,
            n as u32,
            last_prediction_time,
        ),
    )
}

/// Retrieve a ranked leaderboard for an event, sorted by total points.
///
/// For each participant the row sums `points_earned` over their loaded
/// predictions (`total_points`), counts predictions graded correct
/// (`correct_results`) and those that earned the exact-score points
/// (`exact_scores`), counts all listed predictions (`matches_played`) and
/// takes the latest `predicted_at` (`last_prediction_time`).
///
/// # Ranking Rules (all in order):
/// 1. **Higher total_points** — primary sort key (descending).
/// 2. **Higher exact_scores** — tiebreaker (descending).
/// 3. **Earlier last_prediction_time** — tiebreaker (ascending).
/// 4. **Address comparison** — final deterministic tiebreaker.
///
/// Ranks 1..N are assigned in sorted order; no participants give an empty
/// leaderboard.
///
/// # Errors
/// * [`LeaderboardError::EventNotFound`] — the event does not exist.
/// * [`LeaderboardError::Overflow`] — a participant's points total overflows.
pub fn get_event_leaderboard(
    stored_event: &Option<Event>,
    event_id: u64,
    participants: &Vec<ParticipantPredictions>,
) -> (r: Result<Vec<LeaderboardEntry>, LeaderboardError>)
    requires
        participants.len() <= u32::MAX,
        forall|i: int| 0 <= i < participants.len() ==> (#[trigger] participants[i]).predictions.len() <= u32::MAX,
    ensures
        stored_event is None ==> r == Err::<Vec<LeaderboardEntry>, LeaderboardError>(
            LeaderboardError::EventNotFound,
        ),
        stored_event is Some ==> (r is Err <==> exists|i: int|
            0 <= i < participants.len() && points_overflow(#[trigger] participants[i])),
        stored_event is Some && r is Err ==> r == Err::<Vec<LeaderboardEntry>, LeaderboardError>(
            LeaderboardError::Overflow,
        ),
        r matches Ok(v) ==> v.len() == participants.len() && is_leaderboard_ranking(
            v@,
            leaderboard_rows(event_id, participants@),
        ),
{
    // 1. Verify event exists
    if stored_event.is_none() {
        return Err(LeaderboardError::EventNotFound);
    }
    // 2./3. Build one entry per participant
    let n = participants.len();
    let mut entries: Vec<LeaderboardEntry> = Vec::new();
    let mut i: usize = 0;
    while i < n
        invariant
            stored_event is Some,
            n == participants.len(),
            n <= u32::MAX,
            forall|j: int| 0 <= j < n ==> (#[trigger] participants[j]).predictions.len() <= u32::MAX,
            i <= n,
            entries.len() == i,
            forall|j: int| 0 <= j < i ==> !points_overflow(#[trigger] participants[j]),
            forall|j: int|
                0 <= j < i ==> #[trigger] entries[j] == leaderboard_row(
                    event_id,
                    participants[j].user,
                    participants[j].predictions@,
                ),
        decreases n - i,
    {
        match participant_row(event_id, &participants[i]) {
            Ok(entry) => entries.push(entry),
            Err(e) => {
                return Err(e);
            },
        }
        i = i + 1;
    }
    assert(entries@ =~= leaderboard_rows(event_id, participants@));
    // 4./5. Sort and assign ranks
    let ranked = rank_leaderboard_rows(entries);
    Ok(ranked)
}

// ---------------------------------------------------------------------------
// Weighted standings
// ---------------------------------------------------------------------------

/// `user`'s totals over `prev` followed by the first `upto` predictions of
/// the resolved match `m`.
pub open spec fn running_tally(
    user: Address,
    prev: Seq<MatchPredictions>,
    m: Match,
    minority: bool,
    preds: Seq<Prediction>,
    upto: int,
) -> crate::scoring::Tally {
    tally_predictions(tally_matches(user, prev), user, m, minority, preds.take(upto))
}

/// Counts one match into the running scores of the participants.
///
/// `prev` are the matches counted so far; on success every score holds the
/// participant's totals over `prev` followed by `mp`.
fn count_match(
    event_id: u64,
    participants: &Vec<Address>,
    index: &Vec<(Address, usize)>,
    mp: &MatchPredictions,
    scores: &mut Vec<ParticipantScore>,
    Ghost(prev): Ghost<Seq<MatchPredictions>>,
) -> (r: Result<(), LeaderboardError>)
    requires
        old(scores).len() == participants.len(),
        is_participant_index(index@, participants@),
        forall|j: int|
            0 <= j < participants.len() ==> score_holds(
                #[trigger] old(scores)[j],
                participants[j],
                event_id,
                tally_matches(participants[j], prev),
            ),
    ensures
        final(scores).len() == participants.len(),
        r is Ok ==> forall|j: int|
            0 <= j < participants.len() ==> score_holds(
                #[trigger] final(scores)[j],
                participants[j],
                event_id,
                tally_match(tally_matches(participants[j], prev), participants[j], *mp),
            ),
        r is Err ==> r == Err::<(), LeaderboardError>(LeaderboardError::Overflow) && exists|j: int|
            0 <= j < participants.len() && tally_overflows(
                tally_match(
                    tally_matches(#[trigger] participants[j], prev),
                    participants[j],
                    *mp,
                ),
            ),
{
    let m = &mp.info;
    if !m.result_submitted {
        return Ok(());
    }
    let (winning_team, submitted_at) = match (m.winning_team, m.submitted_at) {
        (Some(w), Some(t)) => (w, t),
        _ => {
            return Ok(());
        },
    };
    // Tally picks per outcome so the underdog check needs no second pass.
    let preds = &mp.predictions;
    let np = preds.len();
    let mut picks_team_a: usize = 0;
    let mut picks_team_b: usize = 0;
    let mut picks_draw: usize = 0;
    let mut k: usize = 0;
    while k < np
        invariant
            preds@ == mp.predictions@,
            np == preds.len(),
            k <= np,
            picks_team_a == picks_for(preds@.take(k as int), 0),
            picks_team_b == picks_for(preds@.take(k as int), 1),
            picks_draw == picks_for(preds@.take(k as int), 2),
            picks_team_a <= k,
            picks_team_b <= k,
            picks_draw <= k,
        decreases np - k,
    {
        assert(preds@.take(k + 1).drop_last() =~= preds@.take(k as int));
        let outcome = MatchResult::from_scores(
            preds[k].predicted_home_score,
            preds[k].predicted_away_score,
        ).to_u8();
        if outcome == 0 {
            picks_team_a = picks_team_a + 1;
        } else if outcome == 1 {
            picks_team_b = picks_team_b + 1;
        } else if outcome == 2 {
            picks_draw = picks_draw + 1;
        }
        k = k + 1;
    }
    assert(preds@.take(np as int) =~= preds@);
    let winner_picks: usize = if winning_team == 0 {
        picks_team_a
    } else if winning_team == 1 {
        picks_team_b
    } else if winning_team == 2 {
        picks_draw
    } else {
        0
    };
    proof {
        lemma_picks_bounded(preds@, winning_team);
    }
    // Against-the-crowd: strictly fewer than half of the match's predictors
    // chose the winning outcome.
    let minority_pick = winner_picks < np - winner_picks;
    assert(minority_pick == is_minority_pick(*m, preds@));
    let n = participants.len();
    let mut pj: usize = 0;
    while pj < np
        invariant
            preds@ == mp.predictions@,
            *m == mp.info,
            m.match_time == mp.info.match_time,
            mp.info.submitted_at == Some(submitted_at),
            mp.info.result_submitted,
            mp.info.winning_team is Some,
            np == preds.len(),
            n == participants.len(),
            scores.len() == n,
            pj <= np,
            minority_pick == is_minority_pick(mp.info, mp.predictions@),
            is_participant_index(index@, participants@),
            forall|j: int|
                0 <= j < n ==> score_holds(
                    #[trigger] scores[j],
                    participants[j],
                    event_id,
                    running_tally(participants[j], prev, mp.info, minority_pick, preds@, pj as int),
                ),
        decreases np - pj,
    {
        assert(preds@.take(pj + 1).drop_last() =~= preds@.take(pj as int));
        assert(preds@.take(pj + 1).last() == preds@[pj as int]);
        let prediction = preds[pj];
        let points: u32 = match prediction.points_earned {
            Some(x) => x,
            None => 0,
        };
        if points != 0 {
            let (base, timing, underdog) = weighted_contribution(
                points,
                prediction.predicted_at,
                m.match_time,
                minority_pick,
            );
            // The participants with the predictor's address form one run of
            // the address index, found by binary search.
            let key = prediction.predictor;
            let lo = first_not_before(index, &key);
            let mut k: usize = lo;
            while k < n && index[k].0 == key
                invariant
                    preds@ == mp.predictions@,
                    mp.info.submitted_at == Some(submitted_at),
                    mp.info.result_submitted,
                    mp.info.winning_team is Some,
                    minority_pick == is_minority_pick(mp.info, mp.predictions@),
                    np == preds.len(),
                    n == participants.len(),
                    scores.len() == n,
                    is_participant_index(index@, participants@),
                    pj < np,
                    lo <= k <= n,
                    prediction == preds@[pj as int],
                    key == prediction.predictor,
                    preds@.take(pj + 1).drop_last() == preds@.take(pj as int),
                    preds@.take(pj + 1).last() == preds@[pj as int],
                    points == crate::scoring::points_of(prediction),
                    points > 0,
                    base == crate::storage_types::base_weight(points),
                    timing == crate::storage_types::timing_weight(
                        points,
                        prediction.predicted_at,
                        mp.info.match_time,
                    ),
                    underdog == crate::storage_types::underdog_weight(points, minority_pick),
                    forall|q: int| 0 <= q < lo ==> address_lt((#[trigger] index[q]).0, key),
                    forall|q: int| lo <= q < n ==> !address_lt((#[trigger] index[q]).0, key),
                    forall|q: int| lo <= q < k ==> (#[trigger] index[q]).0 == key,
                    forall|q: int|
                        lo <= q < k ==> score_holds(
                            scores[(#[trigger] index[q]).1 as int],
                            participants[index[q].1 as int],
                            event_id,
                            running_tally(
                                participants[index[q].1 as int],
                                prev,
                                mp.info,
                                minority_pick,
                                preds@,
                                pj + 1,
                            ),
                        ),
                    forall|j: int|
                        0 <= j < n && (forall|q: int| lo <= q < k ==> (#[trigger] index[q]).1 != j)
                            ==> score_holds(
                            #[trigger] scores[j],
                            participants[j],
                            event_id,
                            running_tally(participants[j], prev, mp.info, minority_pick, preds@, pj as int),
                        ),
                decreases n - k,
            {
                let i = index[k].1;
                let ghost user = participants[i as int];
                let ghost before = running_tally(user, prev, mp.info, minority_pick, preds@, pj as int);
                let ghost after = running_tally(user, prev, mp.info, minority_pick, preds@, pj + 1);
                proof {
                    assert forall|q: int| lo <= q < k implies (#[trigger] index[q]).1 != i by {
                        assert(index[q].1 != index[k as int].1);
                    }
                    lemma_tally_predictions_prefix(
                        tally_matches(user, prev),
                        user,
                        mp.info,
                        minority_pick,
                        preds@,
                        pj + 1,
                    );
                    assert(tally_le(after, tally_match(tally_matches(user, prev), user, *mp)));
                    assert(after == crate::scoring::credit(
                        before,
                        user,
                        prediction,
                        mp.info.match_time,
                        submitted_at,
                        minority_pick,
                    ));
                }
                let mut score = scores[i];
                let new_base = score.base_component.checked_add(base);
                let new_timing = score.timing_component.checked_add(timing);
                let new_underdog = score.underdog_component.checked_add(underdog);
                let new_weighted = score.weighted_score.checked_add(base + timing + underdog);
                let new_correct = score.correct_count.checked_add(1);
                match (new_base, new_timing, new_underdog, new_weighted, new_correct) {
                    (Some(b), Some(t), Some(u), Some(w), Some(c)) => {
                        score.base_component = b;
                        score.timing_component = t;
                        score.underdog_component = u;
                        score.weighted_score = w;
                        score.correct_count = c;
                    },
                    _ => {
                        proof {
                            assert(tally_overflows(after));
                            assert(tally_overflows(
                                tally_match(
                                    tally_matches(participants[i as int], prev),
                                    participants[i as int],
                                    *mp,
                                ),
                            ));
                        }
                        return Err(LeaderboardError::Overflow);
                    },
                }
                if submitted_at > score.achieved_at {
                    score.achieved_at = submitted_at;
                }
                scores.set(i, score);
                k = k + 1;
            }
            proof {
                assert forall|j: int| 0 <= j < n implies #[trigger] score_holds(
                    scores[j],
                    participants[j],
                    event_id,
                    running_tally(participants[j], prev, mp.info, minority_pick, preds@, pj + 1),
                ) by {
                    let u = participants[j];
                    if exists|q: int| lo <= q < k && (#[trigger] index[q]).1 == j {
                        let q = choose|q: int| lo <= q < k && (#[trigger] index[q]).1 == j;
                        assert(index[q].1 == j);
                    } else {
                        if u == key {
                            assert(index_covers(index@, j));
                            let q0 = choose|q: int| 0 <= q < index.len() && (#[trigger] index[q]).1 == j;
                            assert(index[q0].0 == key);
                            lemma_address_order(key, key, key);
                            if q0 >= k && q0 > k {
                                assert(!address_lt(index[q0].0, index[k as int].0));
                                lemma_address_order(index[k as int].0, key, key);
                            }
                        }
                        assert(running_tally(u, prev, mp.info, minority_pick, preds@, pj + 1)
                            == running_tally(u, prev, mp.info, minority_pick, preds@, pj as int));
                    }
                }
            }
        } else {
            proof {
                assert forall|j: int| 0 <= j < n implies #[trigger] score_holds(
                    scores[j],
                    participants[j],
                    event_id,
                    running_tally(participants[j], prev, mp.info, minority_pick, preds@, pj + 1),
                ) by {
                    assert(running_tally(participants[j], prev, mp.info, minority_pick, preds@, pj + 1)
                        == running_tally(participants[j], prev, mp.info, minority_pick, preds@, pj as int));
                }
            }
        }
        pj = pj + 1;
    }
    assert(preds@.take(np as int) =~= preds@);
    Ok(())
}

/// Rebuilds every participant's [`ParticipantScore`] from scratch out of the
/// graded predictions of the resolved matches, in participant order.
///
/// Each scoring prediction adds `weighted_contribution(points, predicted_at,
/// match_time, minority)` to the components, one to the correct count, and
/// moves `achieved_at` up to the match's result submission time. A match
/// counts once its result is submitted with a winner and a time; a
/// prediction counts for a listed participant that placed it and earned
/// points.
///
/// # Errors
/// * [`LeaderboardError::Overflow`] — a weighted score or correct count
///   overflows.
pub fn compute_participant_scores(
    event_id: u64,
    participants: &Vec<Address>,
    matches: &Vec<MatchPredictions>,
) -> (r: Result<Vec<ParticipantScore>, LeaderboardError>)
    ensures
        r is Err <==> exists|i: int|
            0 <= i < participants.len() && tally_overflows(
                tally_matches(#[trigger] participants[i], matches@),
            ),
        r is Err ==> r == Err::<Vec<ParticipantScore>, LeaderboardError>(
            LeaderboardError::Overflow,
        ),
        r matches Ok(s) ==> s@ == participants@.map_values(
            |a: Address| score_of(event_id, a, matches@),
        ),
        r matches Ok(s) ==> forall|k: int| 0 <= k < s.len() ==> (#[trigger] s[k]).components_add_up(),
{
    let n = participants.len();
    // Start every participant from zero — full rebuild, never incremental.
    let mut scores: Vec<ParticipantScore> = Vec::new();
    let mut i: usize = 0;
    while i < n
        invariant
            n == participants.len(),
            i <= n,
            scores.len() == i,
            forall|j: int|
                0 <= j < i ==> score_holds(
                    #[trigger] scores[j],
                    participants[j],
                    event_id,
                    empty_tally(),
                ),
        decreases n - i,
    {
        scores.push(ParticipantScore::zero(participants[i], event_id));
        i = i + 1;
    }
    let index = build_participant_index(participants);
    let nm = matches.len();
    let mut mi: usize = 0;
    assert(matches@.take(0) =~= Seq::<MatchPredictions>::empty());
    while mi < nm
        invariant
            n == participants.len(),
            nm == matches.len(),
            mi <= nm,
            scores.len() == n,
            is_participant_index(index@, participants@),
            forall|j: int|
                0 <= j < n ==> score_holds(
                    #[trigger] scores[j],
                    participants[j],
                    event_id,
                    tally_matches(participants[j], matches@.take(mi as int)),
                ),
        decreases nm - mi,
    {
        let ghost prev = matches@.take(mi as int);
        assert(matches@.take(mi + 1).drop_last() =~= prev);
        assert(matches@.take(mi + 1).last() == matches@[mi as int]);
        match count_match(event_id, participants, &index, &matches[mi], &mut scores, Ghost(prev)) {
            Ok(()) => {},
            Err(e) => {
                proof {
                    let j = choose|j: int|
                        0 <= j < n && tally_overflows(
                            tally_match(
                                tally_matches(#[trigger] participants[j], prev),
                                participants[j],
                                matches@[mi as int],
                            ),
                        );
                    lemma_tally_matches_prefix(participants[j], matches@, mi + 1);
                    assert(tally_overflows(tally_matches(participants[j], matches@)));
                }
                return Err(e);
            },
        }
        mi = mi + 1;
    }
    assert(matches@.take(nm as int) =~= matches@);
    proof {
        assert forall|j: int| 0 <= j < n implies #[trigger] scores@[j] == score_of(
            event_id,
            participants[j],
            matches@,
        ) && !tally_overflows(tally_matches(participants[j], matches@)) by {
            lemma_tally_matches_prefix(participants[j], matches@, 0);
        }
        assert(scores@ =~= participants@.map_values(|a: Address| score_of(event_id, a, matches@)));
        assert forall|j: int| 0 <= j < n implies !tally_overflows(
            tally_matches(#[trigger] participants[j], matches@),
        ) by {
            assert(scores@[j] == score_of(event_id, participants[j], matches@));
        }
        assert forall|k: int| 0 <= k < n implies (#[trigger] scores@[k]).components_add_up() by {
            assert(score_holds(scores@[k], participants[k], event_id, tally_matches(participants[k], matches@)));
        }
    }
    Ok(scores)
}

/// Ranks the standings rows of `scores` (weighted score ↓ → correct count ↓ →
/// achieved_at ↑ → address ↑) and numbers them 1..N.
pub fn standings_from_scores(scores: &Vec<ParticipantScore>) -> (r: Vec<StandingEntry>)
    requires
        scores.len() <= u32::MAX,
    ensures
        r.len() == scores.len(),
        is_standings_ranking(r@, scores@.map_values(|s: ParticipantScore| standing_row_of(s))),
{
    let n = scores.len();
    let mut rows: Vec<StandingEntry> = Vec::new();
    let mut i: usize = 0;
    while i < n
        invariant
            n == scores.len(),
            i <= n,
            rows.len() == i,
            forall|j: int| 0 <= j < i ==> #[trigger] rows[j] == standing_row_of(scores[j]),
        decreases n - i,
    {
        let score = scores[i];
        rows.push(
            StandingEntry {
                user: score.user,
                event_id: score.event_id,
                weighted_score: score.weighted_score,
                correct_count: score.correct_count,
                achieved_at: score.achieved_at,
                rank: 0,
            },
        );
        i = i + 1;
    }
    assert(rows@ =~= scores@.map_values(|s: ParticipantScore| standing_row_of(s)));
    rank_standing_rows(rows)
}

/// Scores and ranked rows produced by one standings rebuild: `scores` holds
/// every participant's score in participant order (to be stored per
/// participant), `entries` the ranked standings snapshot.
pub struct Standings {
    pub entries: Vec<StandingEntry>,
    pub scores: Vec<ParticipantScore>,
}

/// Recompute the weighted standings for an event.
///
/// Rebuilds every participant's [`ParticipantScore`] from scratch out of the
/// event's graded predictions (see [`compute_participant_scores`]), then
/// sorts and ranks the [`StandingEntry`] rows. The result depends only on
/// the stored data, and not on the order participants are listed in, so
/// recomputing yields identical standings — the operation is idempotent.
///
/// # Weighting
/// Each correct prediction contributes
/// `points_earned × (base + early bonus + underdog bonus)` weighted units:
/// * **Early**: placed ≥ `EARLY_PREDICTION_LEAD_SECONDS` before match start.
/// * **Underdog**: strictly fewer than half of the match's predictors picked
///   the winning outcome.
///
/// # Tie-break ordering (see [`StandingEntry::outranks`])
/// weighted score ↓ → correct count ↓ → achieved_at ↑ → address ↑
///
/// # Bounded iteration
/// One pass over the event's matches and, for each resolved match, one pass
/// over its predictions, each scoring prediction finding its predictor by
/// binary search in an address index of the participants; plus insertion
/// sorts over the participants. Total work is O(P² + M·K·log P) for P
/// participants, M matches and K predictions per match.
///
/// # Errors
/// * [`LeaderboardError::EventNotFound`] — the event does not exist.
/// * [`LeaderboardError::Overflow`] — a weighted score or correct count
///   overflows.
pub fn recompute_standings(
    stored_event: &Option<Event>,
    event_id: u64,
    participants: &Vec<Address>,
    matches: &Vec<MatchPredictions>,
) -> (r: Result<Standings, LeaderboardError>)
    requires
        participants.len() <= u32::MAX,
    ensures
        stored_event is None ==> r is Err && r->Err_0 == LeaderboardError::EventNotFound,
        stored_event is Some ==> (r is Err <==> exists|i: int|
            0 <= i < participants.len() && tally_overflows(
                tally_matches(#[trigger] participants[i], matches@),
            )),
        stored_event is Some && r is Err ==> r->Err_0 == LeaderboardError::Overflow,
        r matches Ok(st) ==> {
            &&& st.scores@ == participants@.map_values(
                |a: Address| score_of(event_id, a, matches@),
            )
            &&& forall|k: int| 0 <= k < st.scores.len() ==> (#[trigger] st.scores[k]).components_add_up()
            &&& st.entries.len() == participants.len()
            &&& is_standings_ranking(st.entries@, standing_rows(event_id, participants@, matches@))
        },
{
    if stored_event.is_none() {
        return Err(LeaderboardError::EventNotFound);
    }
    let scores = match compute_participant_scores(event_id, participants, matches) {
        Ok(s) => s,
        Err(e) => {
            return Err(e);
        },
    };
    let entries = standings_from_scores(&scores);
    assert(scores@.map_values(|s: ParticipantScore| standing_row_of(s)) =~= standing_rows(
        event_id,
        participants@,
        matches@,
    ));
    Ok(Standings { entries, scores })
}

/// Return the stored weighted standings snapshot for an event.
///
/// `stored` is the snapshot persisted by the most recent
/// [`recompute_standings`] run (empty when no match result has been
/// submitted yet).
///
/// # Errors
/// * [`LeaderboardError::EventNotFound`] — the event does not exist.
pub fn get_event_standings(stored_event: &Option<Event>, stored: Vec<StandingEntry>) -> (r: Result<
    Vec<StandingEntry>,
    LeaderboardError,
>)
    ensures
        stored_event is None ==> r is Err && r->Err_0 == LeaderboardError::EventNotFound,
        stored_event is Some ==> r is Ok && r->Ok_0@ == stored@,
{
    if stored_event.is_none() {
        return Err(LeaderboardError::EventNotFound);
    }
    Ok(stored)
}

/// Return a participant's weighted score components for an event.
///
/// Exposes the full breakdown (base, timing bonus, underdog bonus, correct
/// count, achievement timestamp); `stored` is the participant's stored score,
/// if any. A participant who has not been scored yet gets a zeroed score.
///
/// # Errors
/// * [`LeaderboardError::EventNotFound`] — the event does not exist.
pub fn get_participant_score(
    stored_event: &Option<Event>,
    event_id: u64,
    user: Address,
    stored: Option<ParticipantScore>,
) -> (r: Result<ParticipantScore, LeaderboardError>)
    ensures
        stored_event is None ==> r == Err::<ParticipantScore, LeaderboardError>(
            LeaderboardError::EventNotFound,
        ),
        stored_event is Some ==> r == Ok::<ParticipantScore, LeaderboardError>(
            match stored {
                Some(s) => s,
                None => ParticipantScore::zero_for(user, event_id),
            },
        ),
        stored_event is Some && (stored matches Some(s) ==> s.components_add_up())
            ==> r->Ok_0.components_add_up(),
{
    if stored_event.is_none() {
        return Err(LeaderboardError::EventNotFound);
    }
    match stored {
        Some(s) => Ok(s),
        None => Ok(ParticipantScore::zero(user, event_id)),
    }
}

// ---------------------------------------------------------------------------
// Laws
// ---------------------------------------------------------------------------

/// The standings do not depend on the order in which participants joined:
/// two rankings computed for the same participants listed in any two orders
/// (same matches, same event) are identical.
pub proof fn lemma_standings_independent_of_participant_order(
    event_id: u64,
    participants_x: Seq<Address>,
    participants_y: Seq<Address>,
    matches: Seq<MatchPredictions>,
    x: Seq<StandingEntry>,
    y: Seq<StandingEntry>,
)
    requires
        participants_x.to_multiset() == participants_y.to_multiset(),
        is_standings_ranking(x, standing_rows(event_id, participants_x, matches)),
        is_standings_ranking(y, standing_rows(event_id, participants_y, matches)),
    ensures
        x == y,
{
    let f = |a: Address| standing_row_of(score_of(event_id, a, matches));
    lemma_map_multiset(participants_x, participants_y, f);
    lemma_standings_ranking_unique_up_to_order(
        x,
        y,
        standing_rows(event_id, participants_x, matches),
        standing_rows(event_id, participants_y, matches),
        event_id,
    );
}

/// The leaderboard does not depend on the order in which participants are
/// listed: for the same participants (each address with one list of
/// predictions) listed in any two orders, the ranked leaderboards are
/// identical.
pub proof fn lemma_leaderboard_independent_of_participant_order(
    event_id: u64,
    participants_x: Seq<ParticipantPredictions>,
    participants_y: Seq<ParticipantPredictions>,
    x: Seq<LeaderboardEntry>,
    y: Seq<LeaderboardEntry>,
)
    requires
        participants_x.to_multiset() == participants_y.to_multiset(),
        forall|i: int, j: int|
            0 <= i < participants_x.len() && 0 <= j < participants_x.len() && (#[trigger] participants_x[i]).user
                == (#[trigger] participants_x[j]).user ==> participants_x[i].predictions@
                == participants_x[j].predictions@,
        is_leaderboard_ranking(x, leaderboard_rows(event_id, participants_x)),
        is_leaderboard_ranking(y, leaderboard_rows(event_id, participants_y)),
    ensures
        x == y,
{
    let f = |pp: ParticipantPredictions| leaderboard_row(event_id, pp.user, pp.predictions@);
    lemma_map_multiset(participants_x, participants_y, f);
    let rows = leaderboard_rows(event_id, participants_x);
    assert forall|i: int, j: int|
        0 <= i < rows.len() && 0 <= j < rows.len() && (#[trigger] rows[i]).user == (
        #[trigger] rows[j]).user implies leaderboard_unranked(rows[i]) == leaderboard_unranked(
        rows[j],
    ) by {
        assert(participants_x[i].user == rows[i].user);
        assert(participants_x[j].user == rows[j].user);
    }
    lemma_leaderboard_ranking_unique_up_to_order(
        x,
        y,
        rows,
        leaderboard_rows(event_id, participants_y),
        event_id,
    );
}

/// Reading the leaderboard is repeatable: two leaderboards computed from the
/// same participants and predictions are identical.
pub proof fn lemma_leaderboard_repeatable(
    event_id: u64,
    participants: Seq<ParticipantPredictions>,
    x: Seq<LeaderboardEntry>,
    y: Seq<LeaderboardEntry>,
)
    requires
        is_leaderboard_ranking(x, leaderboard_rows(event_id, participants)),
        is_leaderboard_ranking(y, leaderboard_rows(event_id, participants)),
    ensures
        x == y,
{
    lemma_leaderboard_ranking_unique(x, y, leaderboard_rows(event_id, participants));
}

/// Recomputing the standings is idempotent: two rankings computed from the
/// same participants and matches are identical.
pub proof fn lemma_standings_recompute_idempotent(
    event_id: u64,
    participants: Seq<Address>,
    matches: Seq<MatchPredictions>,
    x: Seq<StandingEntry>,
    y: Seq<StandingEntry>,
)
    requires
        is_standings_ranking(x, standing_rows(event_id, participants, matches)),
        is_standings_ranking(y, standing_rows(event_id, participants, matches)),
    ensures
        x == y,
{
    lemma_standings_ranking_unique(x, y, standing_rows(event_id, participants, matches));
}

/// The leaderboard is live: a prediction that is not graded yet adds a
/// matches-played count but no points and no exact score.
pub proof fn lemma_ungraded_prediction_adds_no_points(preds: Seq<Option<Prediction>>, p: Prediction)
    requires
        p.points_earned is None,
    ensures
        total_points_of(preds.push(Some(p))) == total_points_of(preds),
        exact_scores_of(preds.push(Some(p))) == exact_scores_of(preds),
        preds.push(Some(p)).len() == preds.len() + 1,
{
    assert(preds.push(Some(p)).drop_last() =~= preds);
}

/// A match whose result is not in yet adds nothing to any standings score.
pub proof fn lemma_unresolved_match_adds_nothing(
    user: Address,
    matches: Seq<MatchPredictions>,
    mp: MatchPredictions,
)
    requires
        !crate::scoring::is_scored(mp.info),
    ensures
        tally_matches(user, matches.push(mp)) == tally_matches(user, matches),
{
    assert(matches.push(mp).drop_last() =~= matches);
}

/// A participant's weighted score is the sum of its base, timing and
/// underdog components.
pub proof fn lemma_weighted_score_is_sum_of_components(
    event_id: u64,
    user: Address,
    matches: Seq<MatchPredictions>,
)
    requires
        !tally_overflows(tally_matches(user, matches)),
    ensures
        score_of(event_id, user, matches).weighted_score == score_of(
            event_id,
            user,
            matches,
        ).base_component + score_of(event_id, user, matches).timing_component + score_of(
            event_id,
            user,
            matches,
        ).underdog_component,
{
    lemma_tally_matches_prefix(user, matches, 0);
}

} // verus!
