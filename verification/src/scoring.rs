//! The weighted score model: how the graded predictions of an event's
//! resolved matches add up to each participant's score.

use vstd::prelude::*;

use crate::address::Address;
use crate::storage_types::{
    outcome_of_scores, result_code, base_weight, timing_weight, underdog_weight, Match, ParticipantScore, Prediction,
    StandingEntry,
};

verus! {

/// A match together with the predictions that were placed on it (those that
/// could be loaded), in the order they are listed.
pub struct MatchPredictions {
    pub info: Match,
    pub predictions: Vec<Prediction>,
}

/// Points a graded prediction earned (0 while ungraded).
pub open spec fn points_of(p: Prediction) -> u32 {
    match p.points_earned {
        Some(x) => x,
        None => 0,
    }
}

/// A match whose result is in: submitted, with a winner and a submission time.
pub open spec fn is_scored(m: Match) -> bool {
    &&& m.result_submitted
    &&& m.winning_team is Some
    &&& m.submitted_at is Some
}

/// The outcome a prediction picked: the outcome of its predicted score line.
pub open spec fn picked_outcome(p: Prediction) -> int {
    result_code(outcome_of_scores(p.predicted_home_score, p.predicted_away_score))
}

/// Number of predictions whose predicted score line has outcome `outcome`.
pub open spec fn picks_for(preds: Seq<Prediction>, outcome: u32) -> int
    decreases preds.len(),
{
    if preds.len() == 0 {
        0
    } else {
        picks_for(preds.drop_last(), outcome) + if picked_outcome(preds.last()) == outcome {
            1int
        } else {
            0int
        }
    }
}

/// Number of predictions that picked the winning outcome of `m` (0 when the
/// recorded winner is not one of the three outcomes).
pub open spec fn winner_picks(m: Match, preds: Seq<Prediction>) -> int {
    let w = m.winning_team.unwrap();
    if w < 3 {
        picks_for(preds, w)
    } else {
        0
    }
}

/// Against-the-crowd: strictly fewer than half of the match's predictors
/// chose the winning outcome.
pub open spec fn is_minority_pick(m: Match, preds: Seq<Prediction>) -> bool {
    2 * winner_picks(m, preds) < preds.len()
}

/// Running totals of one participant's weighted score.
pub struct Tally {
    pub base: int,
    pub timing: int,
    pub underdog: int,
    pub correct: int,
    pub achieved: int,
}

/// The totals before anything is counted.
pub open spec fn empty_tally() -> Tally {
    Tally { base: 0, timing: 0, underdog: 0, correct: 0, achieved: 0 }
}

/// Counts prediction `p` of a resolved match (start `match_time`, result
/// submitted at `submitted_at`) towards `user`'s totals: only the user's own
/// predictions that earned points count.
pub open spec fn credit(
    t: Tally,
    user: Address,
    p: Prediction,
    match_time: u64,
    submitted_at: u64,
    minority: bool,
) -> Tally {
    if p.predictor == user && points_of(p) > 0 {
        let pts = points_of(p);
        Tally {
            base: t.base + base_weight(pts),
            timing: t.timing + timing_weight(pts, p.predicted_at, match_time),
            underdog: t.underdog + underdog_weight(pts, minority),
            correct: t.correct + 1,
            achieved: if submitted_at > t.achieved {
                submitted_at as int
            } else {
                t.achieved
            },
        }
    } else {
        t
    }
}

/// Counts the predictions `preds` of the resolved match `m` in order.
pub open spec fn tally_predictions(
    t: Tally,
    user: Address,
    m: Match,
    minority: bool,
    preds: Seq<Prediction>,
) -> Tally
    decreases preds.len(),
{
    if preds.len() == 0 {
        t
    } else {
        credit(
            tally_predictions(t, user, m, minority, preds.drop_last()),
            user,
            preds.last(),
            m.match_time,
            m.submitted_at.unwrap(),
            minority,
        )
    }
}

/// Counts one match: all its predictions if its result is in, nothing otherwise.
pub open spec fn tally_match(t: Tally, user: Address, mp: MatchPredictions) -> Tally {
    if is_scored(mp.info) {
        tally_predictions(
            t,
            user,
            mp.info,
            is_minority_pick(mp.info, mp.predictions@),
            mp.predictions@,
        )
    } else {
        t
    }
}

/// `user`'s totals over the matches `ms`, counted from scratch in order.
pub open spec fn tally_matches(user: Address, ms: Seq<MatchPredictions>) -> Tally
    decreases ms.len(),
{
    if ms.len() == 0 {
        empty_tally()
    } else {
        tally_match(tally_matches(user, ms.drop_last()), user, ms.last())
    }
}

/// The weighted score or the correct count of the totals do not fit their
/// stored fields.
pub open spec fn tally_overflows(t: Tally) -> bool {
    t.base + t.timing + t.underdog > u64::MAX || t.correct > u32::MAX
}

/// The stored score of `user` in `event_id` after counting the matches `ms`.
pub open spec fn score_of(event_id: u64, user: Address, ms: Seq<MatchPredictions>) -> ParticipantScore {
    let t = tally_matches(user, ms);
    ParticipantScore {
        user,
        event_id,
        base_component: t.base as u64,
        timing_component: t.timing as u64,
        underdog_component: t.underdog as u64,
        weighted_score: (t.base + t.timing + t.underdog) as u64,
        correct_count: t.correct as u32,
        achieved_at: t.achieved as u64,
    }
}

/// `s` holds exactly the totals `t` of `user` in `event_id`.
pub open spec fn score_holds(s: ParticipantScore, user: Address, event_id: u64, t: Tally) -> bool {
    &&& s.user == user
    &&& s.event_id == event_id
    &&& s.base_component == t.base
    &&& s.timing_component == t.timing
    &&& s.underdog_component == t.underdog
    &&& s.weighted_score == t.base + t.timing + t.underdog
    &&& s.correct_count == t.correct
    &&& s.achieved_at == t.achieved
}

/// The unranked standings row of a score.
pub open spec fn standing_row_of(s: ParticipantScore) -> StandingEntry {
    StandingEntry {
        user: s.user,
        event_id: s.event_id,
        weighted_score: s.weighted_score,
        correct_count: s.correct_count,
        achieved_at: s.achieved_at,
        rank: 0,
    }
}

/// The unranked standings rows of all participants, in participant order.
pub open spec fn standing_rows(event_id: u64, participants: Seq<Address>, ms: Seq<MatchPredictions>) -> Seq<
    StandingEntry,
> {
    participants.map_values(|a: Address| standing_row_of(score_of(event_id, a, ms)))
}

/// Every total of `a` is at most the matching total of `b`.
pub open spec fn tally_le(a: Tally, b: Tally) -> bool {
    &&& a.base <= b.base
    &&& a.timing <= b.timing
    &&& a.underdog <= b.underdog
    &&& a.correct <= b.correct
    &&& a.achieved <= b.achieved
}

/// Counting more predictions never lowers a total.
pub proof fn lemma_tally_predictions_prefix(
    t: Tally,
    user: Address,
    m: Match,
    minority: bool,
    preds: Seq<Prediction>,
    k: int,
)
    requires
        0 <= k <= preds.len(),
    ensures
        tally_le(
            tally_predictions(t, user, m, minority, preds.take(k)),
            tally_predictions(t, user, m, minority, preds),
        ),
        tally_le(t, tally_predictions(t, user, m, minority, preds)),
    decreases preds.len(),
{
    if preds.len() == 0 {
        assert(preds.take(k) =~= preds);
    } else if k == preds.len() {
        assert(preds.take(k) =~= preds);
        lemma_tally_predictions_prefix(t, user, m, minority, preds.drop_last(), k - 1);
    } else {
        assert(preds.drop_last().take(k) =~= preds.take(k));
        lemma_tally_predictions_prefix(t, user, m, minority, preds.drop_last(), k);
    }
}

/// Counting more matches never lowers a total.
pub proof fn lemma_tally_matches_prefix(user: Address, ms: Seq<MatchPredictions>, k: int)
    requires
        0 <= k <= ms.len(),
    ensures
        tally_le(tally_matches(user, ms.take(k)), tally_matches(user, ms)),
        tally_le(empty_tally(), tally_matches(user, ms)),
    decreases ms.len(),
{
    if ms.len() == 0 {
        assert(ms.take(k) =~= ms);
    } else {
        let prev = tally_matches(user, ms.drop_last());
        let mp = ms.last();
        if is_scored(mp.info) {
            lemma_tally_predictions_prefix(
                prev,
                user,
                mp.info,
                is_minority_pick(mp.info, mp.predictions@),
                mp.predictions@,
                0,
            );
        }
        if k == ms.len() {
            assert(ms.take(k) =~= ms);
            lemma_tally_matches_prefix(user, ms.drop_last(), k - 1);
        } else {
            assert(ms.drop_last().take(k) =~= ms.take(k));
            lemma_tally_matches_prefix(user, ms.drop_last(), k);
        }
    }
}

/// `user` earned points in the resolved match `mp`: one of the match's
/// predictions is theirs and earned points.
pub open spec fn earns_points_in(user: Address, mp: MatchPredictions) -> bool {
    &&& is_scored(mp.info)
    &&& exists|k: int|
        0 <= k < mp.predictions@.len() && (#[trigger] mp.predictions@[k]).predictor == user
            && points_of(mp.predictions@[k]) > 0
}

proof fn lemma_predictions_achieved(
    t: Tally,
    user: Address,
    m: Match,
    minority: bool,
    preds: Seq<Prediction>,
)
    ensures
        (exists|k: int|
            0 <= k < preds.len() && (#[trigger] preds[k]).predictor == user && points_of(preds[k])
                > 0) ==> tally_predictions(t, user, m, minority, preds).achieved == if m.submitted_at.unwrap()
            > t.achieved {
            m.submitted_at.unwrap() as int
        } else {
            t.achieved
        },
        !(exists|k: int|
            0 <= k < preds.len() && (#[trigger] preds[k]).predictor == user && points_of(preds[k])
                > 0) ==> tally_predictions(t, user, m, minority, preds).achieved == t.achieved,
    decreases preds.len(),
{
    if preds.len() > 0 {
        let init = preds.drop_last();
        lemma_predictions_achieved(t, user, m, minority, init);
        let p = preds.last();
        assert(preds[preds.len() - 1] == p);
        if exists|k: int|
            0 <= k < init.len() && (#[trigger] init[k]).predictor == user && points_of(init[k]) > 0 {
            let k = choose|k: int|
                0 <= k < init.len() && (#[trigger] init[k]).predictor == user && points_of(init[k])
                    > 0;
            assert(preds[k] == init[k]);
        }
        if exists|k: int|
            0 <= k < preds.len() && (#[trigger] preds[k]).predictor == user && points_of(preds[k])
                > 0 {
            let k = choose|k: int|
                0 <= k < preds.len() && (#[trigger] preds[k]).predictor == user && points_of(
                    preds[k],
                ) > 0;
            if k < preds.len() - 1 {
                assert(init[k] == preds[k]);
            }
        }
    }
}

/// A participant's achieved_at is the latest result submission time among
/// the resolved matches in which they earned points, and 0 when there is
/// none — whatever order the matches are listed in.
pub proof fn lemma_achieved_at_is_latest_scoring_result(
    event_id: u64,
    user: Address,
    ms: Seq<MatchPredictions>,
)
    ensures
        forall|i: int|
            0 <= i < ms.len() && #[trigger] earns_points_in(user, ms[i])
                ==> score_of(event_id, user, ms).achieved_at >= ms[i].info.submitted_at.unwrap(),
        score_of(event_id, user, ms).achieved_at == 0 || exists|i: int|
            0 <= i < ms.len() && #[trigger] earns_points_in(user, ms[i]) && score_of(
                event_id,
                user,
                ms,
            ).achieved_at == ms[i].info.submitted_at.unwrap(),
        (forall|i: int| 0 <= i < ms.len() ==> !#[trigger] earns_points_in(user, ms[i]))
            ==> score_of(event_id, user, ms).achieved_at == 0,
{
    lemma_tally_achieved(user, ms);
}

proof fn lemma_tally_achieved(user: Address, ms: Seq<MatchPredictions>)
    ensures
        0 <= tally_matches(user, ms).achieved <= u64::MAX,
        forall|i: int|
            0 <= i < ms.len() && #[trigger] earns_points_in(user, ms[i]) ==> tally_matches(
                user,
                ms,
            ).achieved >= ms[i].info.submitted_at.unwrap(),
        tally_matches(user, ms).achieved == 0 || exists|i: int|
            0 <= i < ms.len() && #[trigger] earns_points_in(user, ms[i]) && tally_matches(
                user,
                ms,
            ).achieved == ms[i].info.submitted_at.unwrap(),
        (forall|i: int| 0 <= i < ms.len() ==> !#[trigger] earns_points_in(user, ms[i]))
            ==> tally_matches(user, ms).achieved == 0,
    decreases ms.len(),
{
    if ms.len() > 0 {
        let init = ms.drop_last();
        let mp = ms.last();
        lemma_tally_achieved(user, init);
        let prev = tally_matches(user, init);
        assert(ms[ms.len() - 1] == mp);
        assert forall|i: int| 0 <= i < init.len() implies #[trigger] init[i] == ms[i] by {}
        if is_scored(mp.info) {
            lemma_predictions_achieved(
                prev,
                user,
                mp.info,
                is_minority_pick(mp.info, mp.predictions@),
                mp.predictions@,
            );
        }
        let cur = tally_matches(user, ms);
        assert forall|i: int|
            0 <= i < ms.len() && #[trigger] earns_points_in(user, ms[i]) implies cur.achieved
            >= ms[i].info.submitted_at.unwrap() by {
            if i < ms.len() - 1 {
                assert(earns_points_in(user, init[i]));
            }
        }
        if cur.achieved != 0 {
            if cur.achieved == prev.achieved {
                let i = choose|i: int|
                    0 <= i < init.len() && #[trigger] earns_points_in(user, init[i])
                        && prev.achieved == init[i].info.submitted_at.unwrap();
                assert(earns_points_in(user, ms[i]));
            } else {
                assert(earns_points_in(user, ms[ms.len() - 1]));
            }
        }
        if forall|i: int| 0 <= i < ms.len() ==> !#[trigger] earns_points_in(user, ms[i]) {
            assert forall|i: int| 0 <= i < init.len() implies !#[trigger] earns_points_in(
                user,
                init[i],
            ) by {
                assert(!earns_points_in(user, ms[i]));
            }
            assert(!earns_points_in(user, ms[ms.len() - 1]));
        }
    }
}

/// At most all predictions pick a given outcome.
pub proof fn lemma_picks_bounded(preds: Seq<Prediction>, outcome: u32)
    ensures
        0 <= picks_for(preds, outcome) <= preds.len(),
    decreases preds.len(),
{
    if preds.len() > 0 {
        lemma_picks_bounded(preds.drop_last(), outcome);
    }
}

} // verus!
