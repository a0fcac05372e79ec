//! Stored data types of the event manager and the rules attached to them.

use vstd::prelude::*;
use vstd::utf8::encode_utf8;

use crate::address::{address_lt, Address};

verus! {

// ---------------------------------------------------------------------------
// Constants
// ---------------------------------------------------------------------------

/// Maximum length for event title (bytes)
pub const MAX_TITLE_LEN: u32 = 200;

/// Maximum length for event description (bytes)
pub const MAX_DESCRIPTION_LEN: u32 = 1000;

/// Maximum length for team names (bytes)
pub const MAX_TEAM_NAME_LEN: u32 = 100;

/// Required length for invite codes (characters)
pub const INVITE_CODE_LEN: u32 = 8;

/// Points for predicting the right outcome.
pub const POINTS_CORRECT_RESULT: u32 = 1;

/// Extra points for predicting the exact score on top of the outcome.
pub const POINTS_EXACT_SCORE: u32 = 3;

/// Base weight of one earned point, in basis points (1.0×).
pub const WEIGHT_BASE_BPS: u64 = 10_000;

/// Extra weight per point for a prediction placed early, in basis points.
pub const EARLY_PREDICTION_BONUS_BPS: u64 = 2_500;

/// Extra weight per point for a correct against-the-crowd pick, in basis points.
pub const UNDERDOG_BONUS_BPS: u64 = 5_000;

/// A prediction placed at least this many seconds before the match starts
/// counts as early.
pub const EARLY_PREDICTION_LEAD_SECONDS: u64 = 3_600;

/// Length of a text value in bytes (its UTF-8 encoding).
pub open spec fn byte_len(s: String) -> usize {
    encode_utf8(s@).len() as usize
}

/// Byte length of a text value.
fn text_len(s: &String) -> (r: usize)
    ensures
        r == byte_len(*s),
{
    s.as_str().len()
}

/// Possible outcomes of a prediction match.
///
/// Encoded as u8 on the wire: 0 = TeamA, 1 = TeamB, 2 = Draw.
#[derive(Clone, Copy, Debug, PartialEq, Eq, Structural)]
pub enum MatchResult {
    /// First team / option A wins
    TeamA,
    /// Second team / option B wins
    TeamB,
    /// Match ends in a draw / tie
    Draw,
}

/// The wire code of an outcome.
pub open spec fn result_code(r: MatchResult) -> int {
    match r {
        MatchResult::TeamA => 0,
        MatchResult::TeamB => 1,
        MatchResult::Draw => 2,
    }
}

/// The outcome a wire code stands for, if any.
pub open spec fn result_from_code(v: int) -> Option<MatchResult> {
    if v == 0 {
        Some(MatchResult::TeamA)
    } else if v == 1 {
        Some(MatchResult::TeamB)
    } else if v == 2 {
        Some(MatchResult::Draw)
    } else {
        None
    }
}

/// The outcome a predicted score line stands for.
pub open spec fn outcome_of_scores(home: u32, away: u32) -> MatchResult {
    if home > away {
        MatchResult::TeamA
    } else if away > home {
        MatchResult::TeamB
    } else {
        MatchResult::Draw
    }
}

impl MatchResult {
    /// The outcome of a score line: the side with more goals wins, equal
    /// scores are a draw.
    pub fn from_scores(home: u32, away: u32) -> (r: Self)
        ensures
            r == outcome_of_scores(home, away),
    {
        if home > away {
            MatchResult::TeamA
        } else if away > home {
            MatchResult::TeamB
        } else {
            MatchResult::Draw
        }
    }

    /// Encode to u8 for compact storage and prediction fields.
    pub fn to_u8(&self) -> (r: u8)
        ensures
            r == result_code(*self),
    {
        match self {
            MatchResult::TeamA => 0,
            MatchResult::TeamB => 1,
            MatchResult::Draw => 2,
        }
    }

    /// Decode from u8.  Returns `None` for any value outside 0–2.
    pub fn from_u8(value: u8) -> (r: Option<Self>)
        ensures
            r == result_from_code(value as int),
    {
        match value {
            0 => Some(MatchResult::TeamA),
            1 => Some(MatchResult::TeamB),
            2 => Some(MatchResult::Draw),
            _ => None,
        }
    }

    /// Convenience alias kept for callers that still use u32.
    pub fn to_u32(&self) -> (r: u32)
        ensures
            r == result_code(*self),
    {
        self.to_u8() as u32
    }

    /// Convenience alias kept for callers that still use u32.
    pub fn from_u32(value: u32) -> (r: Option<Self>)
        ensures
            r == result_from_code(value as int),
    {
        if value > u8::MAX as u32 {
            return None;
        }
        Self::from_u8(value as u8)
    }
}

/// Decoding an encoded outcome gives it back, and only the codes 0–2 decode.
pub proof fn lemma_result_code_round_trip(r: MatchResult, v: int)
    ensures
        result_from_code(result_code(r)) == Some(r),
        result_from_code(v) is Some <==> 0 <= v <= 2,
        result_from_code(v) matches Some(d) ==> result_code(d) == v,
{
}


// ---------------------------------------------------------------------------
// DataKey
// ---------------------------------------------------------------------------

/// Unified storage key enum for every piece of contract state.
///
/// Using a single enum keeps key namespacing explicit and avoids collisions
/// between different storage domains.
#[derive(Clone, Debug, PartialEq, Eq)]
pub enum DataKey {
    /// Global contract configuration (token address, fee %, admin, …)
    Config,
    /// Global monotonic event counter → u64
    EventCounter,
    /// Core event data keyed by event_id
    Event(u64),
    /// Per-event match counter → u64  (event_id)
    MatchCounter(u64),
    /// Individual match keyed by (event_id, match_id)
    Match(u64, u64),
    /// A user's prediction for a specific match  (event_id, match_id, predictor)
    Prediction(u64, u64, Address),
    /// All event_ids a user has joined  (user) → Vec<u64>
    UserEvents(Address),
    /// All participant addresses for an event  (event_id) → Vec<Address>
    EventParticipants(u64),
    /// Invite code → event_id mapping  (8-char code)
    InviteCode(String),
    /// Whether an address has passed KYC / verification
    VerifiedAddress(Address),
    /// Verified winners for an event  (event_id) → Vec<Winner>
    Winners(u64),
    /// Running XLM balance held by the contract treasury
    TreasuryBalance,
}

// ---------------------------------------------------------------------------
// EventStatus
// ---------------------------------------------------------------------------

/// Granular status for an event beyond the simple `is_active` boolean.
#[derive(Clone, Copy, Debug, PartialEq, Eq, Structural)]
pub enum EventStatus {
    /// Open and accepting predictions
    Active,
    /// Closed for new predictions, not yet resolved
    Closed,
    /// All match results submitted and winners verified
    Resolved,
    /// Cancelled by creator or admin
    Cancelled,
    /// Temporarily paused
    Paused,
}

// ---------------------------------------------------------------------------
// Event
// ---------------------------------------------------------------------------

/// Core event struct — all information about a creator's prediction event.
#[derive(Clone, Debug, PartialEq, Eq)]
pub struct Event {
    /// Auto-incremented unique identifier
    pub event_id: u64,
    /// Address of the creator; only they can manage the event
    pub creator: Address,
    /// Human-readable title (max `MAX_TITLE_LEN` bytes)
    pub title: String,
    /// Full description / rules (max `MAX_DESCRIPTION_LEN` bytes)
    pub description: String,
    /// XLM fee (in stroops) the creator paid to create the event
    pub creation_fee_paid: i128,
    /// Unix timestamp when the event was created
    pub created_at: u64,
    /// Whether the event is open for new predictions
    pub is_active: bool,
    /// Whether the event has been cancelled
    pub is_cancelled: bool,
    /// 8-character invite code used for private events
    pub invite_code: String,
    /// Hard cap on participants (0 = unlimited)
    pub max_participants: u32,
    /// Current number of confirmed participants
    pub participant_count: u32,
    /// Number of matches that belong to this event
    pub match_count: u32,
}

impl Event {
    /// `true` when the event can still accept new participants.
    pub open spec fn accepts_participants(&self) -> bool {
        &&& self.is_active
        &&& !self.is_cancelled
        &&& (self.max_participants == 0 || self.participant_count < self.max_participants)
    }

    /// Construct a new active, uncancelled event.
    pub fn new(
        event_id: u64,
        creator: Address,
        title: String,
        description: String,
        creation_fee_paid: i128,
        created_at: u64,
        invite_code: String,
        max_participants: u32,
    ) -> (r: Self)
        ensures
            r.event_id == event_id,
            r.creator == creator,
            r.title == title,
            r.description == description,
            r.creation_fee_paid == creation_fee_paid,
            r.created_at == created_at,
            r.is_active,
            !r.is_cancelled,
            r.invite_code == invite_code,
            r.max_participants == max_participants,
            r.participant_count == 0,
            r.match_count == 0,
    {
        Event {
            event_id,
            creator,
            title,
            description,
            creation_fee_paid,
            created_at,
            is_active: true,
            is_cancelled: false,
            invite_code,
            max_participants,
            participant_count: 0,
            match_count: 0,
        }
    }

    /// Returns `true` when the event can still accept new participants.
    pub fn can_accept_participants(&self) -> (r: bool)
        ensures
            r == self.accepts_participants(),
    {
        if !self.is_active || self.is_cancelled {
            return false;
        }
        // max_participants == 0 means unlimited
        self.max_participants == 0 || self.participant_count < self.max_participants
    }

    /// Close the event for new predictions without cancelling it.
    pub fn deactivate(&mut self)
        ensures
            *final(self) == (Event { is_active: false, ..*old(self) }),
    {
        self.is_active = false;
    }

    /// Cancel the event entirely.
    pub fn cancel(&mut self)
        ensures
            *final(self) == (Event { is_active: false, is_cancelled: true, ..*old(self) }),
    {
        self.is_active = false;
        self.is_cancelled = true;
    }

    /// Register a new participant.  Returns `Err` if the event is full or inactive.
    pub fn add_participant(&mut self) -> (r: Result<(), &'static str>)
        requires
            old(self).accepts_participants() ==> old(self).participant_count < u32::MAX,
        ensures
            old(self).is_cancelled ==> r == Err::<(), &'static str>("Event is cancelled"),
            !old(self).is_cancelled && !old(self).is_active ==> r == Err::<(), &'static str>(
                "Event is not active",
            ),
            !old(self).is_cancelled && old(self).is_active && !old(self).accepts_participants()
                ==> r == Err::<(), &'static str>("Event has reached maximum participants"),
            r is Ok <==> old(self).accepts_participants(),
            r is Ok ==> *final(self) == (Event {
                participant_count: (old(self).participant_count + 1) as u32,
                ..*old(self)
            }),
            r is Err ==> *final(self) == *old(self),
            old(self).max_participants > 0 && old(self).participant_count
                <= old(self).max_participants ==> final(self).participant_count
                <= final(self).max_participants,
    {
        if self.is_cancelled {
            return Err("Event is cancelled");
        }
        if !self.is_active {
            return Err("Event is not active");
        }
        if self.max_participants > 0 && self.participant_count >= self.max_participants {
            return Err("Event has reached maximum participants");
        }
        self.participant_count += 1;
        Ok(())
    }

    /// Increment the match counter when a new match is added.
    pub fn add_match(&mut self)
        requires
            old(self).match_count < u32::MAX,
        ensures
            *final(self) == (Event { match_count: (old(self).match_count + 1) as u32, ..*old(self) }),
    {
        self.match_count += 1;
    }

    /// Age of the event in seconds relative to `current_timestamp`.
    pub fn get_age_seconds(&self, current_timestamp: u64) -> (r: u64)
        ensures
            r == (if current_timestamp >= self.created_at {
                current_timestamp - self.created_at
            } else {
                0
            }),
    {
        current_timestamp.saturating_sub(self.created_at)
    }

    /// The outcome of [`Event::validate`].
    pub open spec fn validation(&self) -> Result<(), &'static str> {
        if byte_len(self.title) == 0 {
            Err("Title cannot be empty")
        } else if byte_len(self.title) > MAX_TITLE_LEN {
            Err("Title exceeds maximum length")
        } else if byte_len(self.description) > MAX_DESCRIPTION_LEN {
            Err("Description exceeds maximum length")
        } else {
            Ok(())
        }
    }

    /// Validate title and description lengths.
    pub fn validate(&self) -> (r: Result<(), &'static str>)
        ensures
            r == self.validation(),
    {
        let title_len = text_len(&self.title);
        if title_len == 0 {
            return Err("Title cannot be empty");
        }
        if title_len > MAX_TITLE_LEN as usize {
            return Err("Title exceeds maximum length");
        }
        if text_len(&self.description) > MAX_DESCRIPTION_LEN as usize {
            return Err("Description exceeds maximum length");
        }
        Ok(())
    }
}

// ---------------------------------------------------------------------------
// Match
// ---------------------------------------------------------------------------

/// A single prediction match within an event.
#[derive(Clone, Debug, PartialEq, Eq)]
pub struct Match {
    /// Unique identifier scoped to the parent event
    pub match_id: u64,
    /// ID of the parent event
    pub event_id: u64,
    /// Name of the first team / option (max `MAX_TEAM_NAME_LEN` bytes)
    pub team_a: String,
    /// Name of the second team / option (max `MAX_TEAM_NAME_LEN` bytes)
    pub team_b: String,
    /// Scheduled start time (Unix timestamp in seconds)
    pub match_time: u64,
    /// Whether a result has been submitted
    pub result_submitted: bool,
    /// The winning outcome as its code (0=TeamA, 1=TeamB, 2=Draw); `None`
    /// until a result is submitted.
    pub winning_team: Option<u32>,
    /// Address of the oracle / admin that submitted the result
    pub submitted_by: Option<Address>,
    /// Unix timestamp when the result was submitted
    pub submitted_at: Option<u64>,
}

impl Match {
    /// Create a new pending match.
    pub fn new(match_id: u64, event_id: u64, team_a: String, team_b: String, match_time: u64) -> (r:
        Self)
        ensures
            r.match_id == match_id,
            r.event_id == event_id,
            r.team_a == team_a,
            r.team_b == team_b,
            r.match_time == match_time,
            !r.result_submitted,
            r.winning_team is None,
            r.submitted_by is None,
            r.submitted_at is None,
    {
        Match {
            match_id,
            event_id,
            team_a,
            team_b,
            match_time,
            result_submitted: false,
            winning_team: None,
            submitted_by: None,
            submitted_at: None,
        }
    }

    /// Submit a result for this match.
    ///
    /// # Errors
    /// Returns `Err` if a result has already been submitted.
    pub fn submit_result(&mut self, result: MatchResult, submitted_by: Address, timestamp: u64) -> (r:
        Result<(), &'static str>)
        ensures
            old(self).result_submitted ==> r == Err::<(), &'static str>(
                "Result already submitted for this match",
            ) && *final(self) == *old(self),
            !old(self).result_submitted ==> r is Ok && *final(self) == old(self).with_result(
                result,
                submitted_by,
                timestamp,
            ),
    {
        if self.result_submitted {
            return Err("Result already submitted for this match");
        }
        self.winning_team = Some(result.to_u32());
        self.submitted_by = Some(submitted_by);
        self.submitted_at = Some(timestamp);
        self.result_submitted = true;
        Ok(())
    }

    /// The winning outcome recorded on the match, if any.
    pub open spec fn winner_of(&self) -> Option<MatchResult> {
        match self.winning_team {
            Some(v) => result_from_code(v as int),
            None => None,
        }
    }

    /// The match after a result `result` submitted by `by` at `timestamp`.
    pub open spec fn with_result(self, result: MatchResult, by: Address, timestamp: u64) -> Match {
        Match {
            winning_team: Some(result_code(result) as u32),
            submitted_by: Some(by),
            submitted_at: Some(timestamp),
            result_submitted: true,
            ..self
        }
    }

    /// Return the winning `MatchResult`, or `None` if not yet submitted.
    pub fn get_winner(&self) -> (r: Option<MatchResult>)
        ensures
            r == self.winner_of(),
    {
        match self.winning_team {
            Some(v) => MatchResult::from_u32(v),
            None => None,
        }
    }

    /// `true` once a result has been recorded.
    pub fn is_completed(&self) -> (r: bool)
        ensures
            r == self.result_submitted,
    {
        self.result_submitted
    }

    /// `true` if `current_time >= match_time`.
    pub fn has_started(&self, current_time: u64) -> (r: bool)
        ensures
            r == (current_time >= self.match_time),
    {
        current_time >= self.match_time
    }

    /// `true` if the match has started but no result has been submitted yet.
    pub fn is_ready_for_result(&self, current_time: u64) -> (r: bool)
        ensures
            r == (current_time >= self.match_time && !self.result_submitted),
    {
        self.has_started(current_time) && !self.result_submitted
    }

    /// Seconds until the match starts; 0 if already started.
    pub fn time_until_start(&self, current_time: u64) -> (r: u64)
        ensures
            r == (if current_time >= self.match_time {
                0
            } else {
                self.match_time - current_time
            }),
    {
        if current_time >= self.match_time {
            0
        } else {
            self.match_time - current_time
        }
    }

    /// Seconds since the result was submitted; 0 if no result yet.
    pub fn time_since_result(&self, current_time: u64) -> (r: u64)
        ensures
            r == (match self.submitted_at {
                Some(t) => if current_time >= t {
                    current_time - t
                } else {
                    0
                },
                None => 0,
            }),
    {
        match self.submitted_at {
            Some(t) => current_time.saturating_sub(t),
            None => 0,
        }
    }

    /// `true` if predictions are still open.
    ///
    /// Predictions close `prediction_cutoff_minutes` before `match_time` and
    /// are always closed once a result has been submitted.
    pub fn allows_predictions(&self, current_time: u64, prediction_cutoff_minutes: u64) -> (r: bool)
        requires
            prediction_cutoff_minutes * 60 <= u64::MAX,
        ensures
            r == (current_time + prediction_cutoff_minutes * 60 < self.match_time
                && !self.result_submitted),
    {
        let cutoff = self.match_time.saturating_sub(prediction_cutoff_minutes * 60);
        current_time < cutoff && !self.result_submitted
    }

    /// The outcome of [`Match::validate`].
    pub open spec fn validation(&self) -> Result<(), &'static str> {
        if byte_len(self.team_a) == 0 {
            Err("Team A name cannot be empty")
        } else if byte_len(self.team_a) > MAX_TEAM_NAME_LEN {
            Err("Team A name exceeds maximum length")
        } else if byte_len(self.team_b) == 0 {
            Err("Team B name cannot be empty")
        } else if byte_len(self.team_b) > MAX_TEAM_NAME_LEN {
            Err("Team B name exceeds maximum length")
        } else if self.team_a@ == self.team_b@ {
            Err("Team names must be different")
        } else if self.result_submitted {
            if self.winning_team is None {
                Err("Result submitted but winning_team is None")
            } else if self.submitted_by is None {
                Err("Result submitted but submitted_by is None")
            } else if self.submitted_at is None {
                Err("Result submitted but submitted_at is None")
            } else if self.winning_team.unwrap() > 2 {
                Err("winning_team value must be 0 (TeamA), 1 (TeamB), or 2 (Draw)")
            } else {
                Ok(())
            }
        } else if self.winning_team is Some {
            Err("winning_team set but result_submitted is false")
        } else if self.submitted_at is Some {
            Err("submitted_at set but result_submitted is false")
        } else {
            Ok(())
        }
    }

    /// Validate team names and internal state consistency.
    pub fn validate(&self) -> (r: Result<(), &'static str>)
        ensures
            r == self.validation(),
    {
        let a_len = text_len(&self.team_a);
        let b_len = text_len(&self.team_b);
        if a_len == 0 {
            return Err("Team A name cannot be empty");
        }
        if a_len > MAX_TEAM_NAME_LEN as usize {
            return Err("Team A name exceeds maximum length");
        }
        if b_len == 0 {
            return Err("Team B name cannot be empty");
        }
        if b_len > MAX_TEAM_NAME_LEN as usize {
            return Err("Team B name exceeds maximum length");
        }
        if self.team_a == self.team_b {
            return Err("Team names must be different");
        }
        // Result consistency
        if self.result_submitted {
            if self.winning_team.is_none() {
                return Err("Result submitted but winning_team is None");
            }
            if self.submitted_by.is_none() {
                return Err("Result submitted but submitted_by is None");
            }
            if self.submitted_at.is_none() {
                return Err("Result submitted but submitted_at is None");
            }
            // Validate the encoded value is a legal outcome
            if let Some(v) = self.winning_team {
                if v > 2 {
                    return Err("winning_team value must be 0 (TeamA), 1 (TeamB), or 2 (Draw)");
                }
            }
        } else {
            if self.winning_team.is_some() {
                return Err("winning_team set but result_submitted is false");
            }
            if self.submitted_at.is_some() {
                return Err("submitted_at set but result_submitted is false");
            }
        }
        Ok(())
    }
}


/// An event validates exactly when its title is 1 to `MAX_TITLE_LEN` bytes
/// and its description at most `MAX_DESCRIPTION_LEN` bytes; a too long
/// description is reported only when the title is acceptable.
pub proof fn lemma_event_validation_rule(e: Event)
    ensures
        e.validation() is Ok <==> 1 <= byte_len(e.title) <= 200 && byte_len(e.description)
            <= 1000,
        e.validation() == Err::<(), &'static str>("Title cannot be empty") <==> byte_len(e.title)
            == 0,
        e.validation() == Err::<(), &'static str>("Description exceeds maximum length")
            ==> byte_len(e.description) > 1000,
        1 <= byte_len(e.title) <= 200 && byte_len(e.description) > 1000 ==> e.validation()
            == Err::<(), &'static str>("Description exceeds maximum length"),
{
    reveal_strlit("Title cannot be empty");
    reveal_strlit("Title exceeds maximum length");
    reveal_strlit("Description exceeds maximum length");
}

/// A pending match (no result, no winner, no submission time) validates
/// exactly when both team names are 1 to `MAX_TEAM_NAME_LEN` bytes and
/// differ as text; the "Team names must be different" error is reported
/// only for two equal names.
pub proof fn lemma_match_validation_rule(m: Match)
    ensures
        !m.result_submitted && m.winning_team is None && m.submitted_at is None ==> (
        m.validation() is Ok <==> 1 <= byte_len(m.team_a) <= 100 && 1 <= byte_len(m.team_b)
            <= 100 && m.team_a@ != m.team_b@),
        m.validation() == Err::<(), &'static str>("Team names must be different") ==> m.team_a@
            == m.team_b@,
        1 <= byte_len(m.team_a) <= 100 && 1 <= byte_len(m.team_b) <= 100 && m.team_a@
            == m.team_b@ ==> m.validation() == Err::<(), &'static str>(
            "Team names must be different",
        ),
{
    reveal_strlit("Team A name cannot be empty");
    reveal_strlit("Team A name exceeds maximum length");
    reveal_strlit("Team B name cannot be empty");
    reveal_strlit("Team B name exceeds maximum length");
    reveal_strlit("Team names must be different");
    reveal_strlit("Result submitted but winning_team is None");
    reveal_strlit("Result submitted but submitted_by is None");
    reveal_strlit("Result submitted but submitted_at is None");
    reveal_strlit("winning_team value must be 0 (TeamA), 1 (TeamB), or 2 (Draw)");
    reveal_strlit("winning_team set but result_submitted is false");
    reveal_strlit("submitted_at set but result_submitted is false");
}

/// Submitting a result to a pending match records it: the match then reports
/// that result as its winner, counts as completed, refuses a second result,
/// and a match that validated before still validates.
pub proof fn lemma_submitted_result_is_recorded(
    m: Match,
    result: MatchResult,
    by: Address,
    timestamp: u64,
)
    requires
        !m.result_submitted,
    ensures
        m.with_result(result, by, timestamp).winner_of() == Some(result),
        m.with_result(result, by, timestamp).result_submitted,
        m.validation() is Ok ==> m.with_result(result, by, timestamp).validation() is Ok,
{
    lemma_result_code_round_trip(result, 0);
}

// ---------------------------------------------------------------------------
// Prediction
// ---------------------------------------------------------------------------

/// A user's prediction for a single match inside an event.
#[derive(Clone, Copy, Debug, PartialEq, Eq, Structural)]
pub struct Prediction {
    /// Address of the user who placed this prediction
    pub predictor: Address,
    /// Parent event identifier
    pub event_id: u64,
    /// Match this prediction is for
    pub match_id: u64,
    /// Predicted outcome: 0 = Team A, 1 = Team B, 2 = Draw.
    pub predicted_winner: u32,
    /// Predicted goals of the first team (0 when only an outcome was picked)
    pub predicted_home_score: u32,
    /// Predicted goals of the second team (0 when only an outcome was picked)
    pub predicted_away_score: u32,
    /// Unix timestamp when the prediction was submitted
    pub predicted_at: u64,
    /// `Some(true)` = correct, `Some(false)` = wrong, `None` = not yet graded
    pub is_correct: Option<bool>,
    /// Points awarded when the match was graded (`None` until graded).
    pub points_earned: Option<u32>,
}

impl Prediction {
    /// Create a new ungraded prediction of an outcome (no score line: 0–0).
    pub fn new(predictor: Address, event_id: u64, match_id: u64, predicted_winner: u32, predicted_at: u64) -> (r: Self)
        ensures
            r == (Prediction {
                predictor,
                event_id,
                match_id,
                predicted_winner,
                predicted_home_score: 0,
                predicted_away_score: 0,
                predicted_at,
                is_correct: None,
                points_earned: None,
            }),
    {
        Prediction {
            predictor,
            event_id,
            match_id,
            predicted_winner,
            predicted_home_score: 0,
            predicted_away_score: 0,
            predicted_at,
            is_correct: None,
            points_earned: None,
        }
    }

    /// Create a new ungraded prediction of a score line; its predicted
    /// outcome is the outcome of that score line.
    pub fn with_scores(
        predictor: Address,
        event_id: u64,
        match_id: u64,
        predicted_home_score: u32,
        predicted_away_score: u32,
        predicted_at: u64,
    ) -> (r: Self)
        ensures
            r == (Prediction {
                predictor,
                event_id,
                match_id,
                predicted_winner: result_code(
                    outcome_of_scores(predicted_home_score, predicted_away_score),
                ) as u32,
                predicted_home_score,
                predicted_away_score,
                predicted_at,
                is_correct: None,
                points_earned: None,
            }),
    {
        Prediction {
            predictor,
            event_id,
            match_id,
            predicted_winner: MatchResult::from_scores(
                predicted_home_score,
                predicted_away_score,
            ).to_u32(),
            predicted_home_score,
            predicted_away_score,
            predicted_at,
            is_correct: None,
            points_earned: None,
        }
    }

    /// Grade this prediction against the actual match result.
    pub fn grade(&mut self, actual_result: &MatchResult)
        ensures
            *final(self) == (Prediction {
                is_correct: Some(old(self).predicted_winner == result_code(*actual_result)),
                ..*old(self)
            }),
    {
        self.is_correct = Some(self.predicted_winner == actual_result.to_u32());
    }

    /// `true` if the prediction has been graded and was correct.
    pub fn is_winner(&self) -> (r: bool)
        ensures
            r == (self.is_correct == Some(true)),
    {
        match self.is_correct {
            Some(c) => c,
            None => false,
        }
    }

    /// Validate that `predicted_winner` encodes a legal outcome (0, 1, or 2).
    pub fn validate(&self) -> (r: Result<(), &'static str>)
        ensures
            self.predicted_winner > 2 ==> r == Err::<(), &'static str>(
                "predicted_winner must be 0 (Team A), 1 (Team B), or 2 (Draw)",
            ),
            self.predicted_winner <= 2 ==> r is Ok,
    {
        if self.predicted_winner > 2 {
            return Err("predicted_winner must be 0 (Team A), 1 (Team B), or 2 (Draw)");
        }
        Ok(())
    }
}

/// Grading marks a prediction as a winner exactly when its pick is the
/// actual outcome, and leaves everything else about it unchanged.
pub proof fn lemma_grading_marks_matching_pick(p: Prediction, actual: MatchResult)
    ensures
        (Prediction {
            is_correct: Some(p.predicted_winner == result_code(actual)),
            ..p
        }).is_correct == Some(true) <==> p.predicted_winner == result_code(actual),
{
}

// ---------------------------------------------------------------------------
// Winner
// ---------------------------------------------------------------------------

/// Records a user who correctly predicted every match in an event.
#[derive(Clone, Copy, Debug, PartialEq, Eq, Structural)]
pub struct Winner {
    /// Address of the winning predictor
    pub user: Address,
    /// Event they won
    pub event_id: u64,
    /// How many matches they predicted correctly (should equal event.match_count)
    pub total_correct_predictions: u32,
    /// Unix timestamp when the win was verified on-chain
    pub verified_at: u64,
}

impl Winner {
    /// Construct a new verified winner record.
    pub fn new(user: Address, event_id: u64, total_correct_predictions: u32, verified_at: u64) -> (r: Self)
        ensures
            r == (Winner { user, event_id, total_correct_predictions, verified_at }),
    {
        Winner { user, event_id, total_correct_predictions, verified_at }
    }
}

// ---------------------------------------------------------------------------
// EventMetadata
// ---------------------------------------------------------------------------

/// Extended metadata stored separately from the core `Event` to keep the
/// hot-path struct lean.
#[derive(Clone, Debug, PartialEq, Eq)]
pub struct EventMetadata {
    /// Category label, e.g. "Sports", "Crypto", "Politics"
    pub category: String,
    /// Comma-separated discovery tags
    pub tags: String,
    /// Minimum participants required for the event to be valid
    pub min_participants: u32,
    /// Maximum participants allowed (mirrors `Event::max_participants`)
    pub max_participants: u32,
    /// Unix timestamp when predictions close
    pub end_time: u64,
    /// Unix timestamp when results must be submitted
    pub resolution_time: u64,
    /// Whether the event requires an invite code to join
    pub is_invite_only: bool,
    /// Creator's reputation score at the time of event creation
    pub creator_reputation: u32,
}

impl EventMetadata {
    /// Construct the metadata record from its fields.
    pub fn new(
        category: String,
        tags: String,
        min_participants: u32,
        max_participants: u32,
        end_time: u64,
        resolution_time: u64,
        is_invite_only: bool,
        creator_reputation: u32,
    ) -> (r: Self)
        ensures
            r == (EventMetadata {
                category,
                tags,
                min_participants,
                max_participants,
                end_time,
                resolution_time,
                is_invite_only,
                creator_reputation,
            }),
    {
        EventMetadata {
            category,
            tags,
            min_participants,
            max_participants,
            end_time,
            resolution_time,
            is_invite_only,
            creator_reputation,
        }
    }

    /// `true` while predictions are still open.
    pub fn is_prediction_phase(&self, current_time: u64) -> (r: bool)
        ensures
            r == (current_time < self.end_time),
    {
        current_time < self.end_time
    }

    /// `true` after predictions close but before the resolution deadline.
    pub fn is_resolution_phase(&self, current_time: u64) -> (r: bool)
        ensures
            r == (self.end_time <= current_time < self.resolution_time),
    {
        current_time >= self.end_time && current_time < self.resolution_time
    }

    /// `true` once the resolution deadline has passed.
    pub fn should_auto_resolve(&self, current_time: u64) -> (r: bool)
        ensures
            r == (current_time >= self.resolution_time),
    {
        current_time >= self.resolution_time
    }
}


// ---------------------------------------------------------------------------
// Leaderboard rows
// ---------------------------------------------------------------------------

/// One row of the live points leaderboard of an event.
#[derive(Clone, Copy, Debug, PartialEq, Eq, Structural)]
pub struct LeaderboardEntry {
    /// The participant
    pub user: Address,
    /// The event
    pub event_id: u64,
    /// Sum of points earned over all graded predictions
    pub total_points: u32,
    /// Predictions graded correct
    pub correct_results: u32,
    /// Predictions that hit the exact score
    pub exact_scores: u32,
    /// Predictions submitted
    pub matches_played: u32,
    /// Latest submission time among the participant's predictions (0 if none)
    pub last_prediction_time: u64,
    /// 1-based position once ranked (0 before ranking)
    pub rank: u32,
}

impl LeaderboardEntry {
    /// Ranking order of the leaderboard: more points, then more exact
    /// scores, then an earlier last prediction, then the smaller address.
    pub open spec fn ranks_above(self, other: LeaderboardEntry) -> bool {
        ||| self.total_points > other.total_points
        ||| (self.total_points == other.total_points && self.exact_scores > other.exact_scores)
        ||| (self.total_points == other.total_points && self.exact_scores == other.exact_scores
            && self.last_prediction_time < other.last_prediction_time)
        ||| (self.total_points == other.total_points && self.exact_scores == other.exact_scores
            && self.last_prediction_time == other.last_prediction_time && address_lt(
            self.user,
            other.user,
        ))
    }

    /// An unranked row (rank 0) with the given statistics.
    pub fn new(
        user: Address,
        event_id: u64,
        total_points: u32,
        correct_results: u32,
        exact_scores: u32,
        matches_played: u32,
        last_prediction_time: u64,
    ) -> (r: Self)
        ensures
            r == (LeaderboardEntry {
                user,
                event_id,
                total_points,
                correct_results,
                exact_scores,
                matches_played,
                last_prediction_time,
                rank: 0,
            }),
    {
        LeaderboardEntry {
            user,
            event_id,
            total_points,
            correct_results,
            exact_scores,
            matches_played,
            last_prediction_time,
            rank: 0,
        }
    }

    /// `true` when `self` ranks strictly above `other`.
    pub fn outranks(&self, other: &LeaderboardEntry) -> (r: bool)
        ensures
            r == self.ranks_above(*other),
    {
        if self.total_points != other.total_points {
            return self.total_points > other.total_points;
        }
        if self.exact_scores != other.exact_scores {
            return self.exact_scores > other.exact_scores;
        }
        if self.last_prediction_time != other.last_prediction_time {
            return self.last_prediction_time < other.last_prediction_time;
        }
        self.user.precedes(&other.user)
    }
}

// ---------------------------------------------------------------------------
// Weighted standings
// ---------------------------------------------------------------------------

/// One row of the weighted standings of an event.
#[derive(Clone, Copy, Debug, PartialEq, Eq, Structural)]
pub struct StandingEntry {
    /// The participant
    pub user: Address,
    /// The event
    pub event_id: u64,
    /// Total weighted score
    pub weighted_score: u64,
    /// Number of scoring predictions
    pub correct_count: u32,
    /// Submission time of the latest result that added to the score (0 if none)
    pub achieved_at: u64,
    /// 1-based position once ranked (0 before ranking)
    pub rank: u32,
}

impl StandingEntry {
    /// Tie-break chain of the standings: weighted score ↓, correct count ↓,
    /// achieved_at ↑, address ↑.
    pub open spec fn ranks_above(self, other: StandingEntry) -> bool {
        ||| self.weighted_score > other.weighted_score
        ||| (self.weighted_score == other.weighted_score && self.correct_count
            > other.correct_count)
        ||| (self.weighted_score == other.weighted_score && self.correct_count
            == other.correct_count && self.achieved_at < other.achieved_at)
        ||| (self.weighted_score == other.weighted_score && self.correct_count
            == other.correct_count && self.achieved_at == other.achieved_at && address_lt(
            self.user,
            other.user,
        ))
    }

    /// `true` when `self` ranks strictly above `other`.
    pub fn outranks(&self, other: &StandingEntry) -> (r: bool)
        ensures
            r == self.ranks_above(*other),
    {
        if self.weighted_score != other.weighted_score {
            return self.weighted_score > other.weighted_score;
        }
        if self.correct_count != other.correct_count {
            return self.correct_count > other.correct_count;
        }
        if self.achieved_at != other.achieved_at {
            return self.achieved_at < other.achieved_at;
        }
        self.user.precedes(&other.user)
    }
}

/// A participant's weighted score with every component that makes it up.
#[derive(Clone, Copy, Debug, PartialEq, Eq, Structural)]
pub struct ParticipantScore {
    /// The participant
    pub user: Address,
    /// The event
    pub event_id: u64,
    /// Sum of `points × WEIGHT_BASE_BPS`
    pub base_component: u64,
    /// Sum of the early-prediction bonuses
    pub timing_component: u64,
    /// Sum of the against-the-crowd bonuses
    pub underdog_component: u64,
    /// `base_component + timing_component + underdog_component`
    pub weighted_score: u64,
    /// Number of scoring predictions
    pub correct_count: u32,
    /// Submission time of the latest result that added to the score (0 if none)
    pub achieved_at: u64,
}

impl ParticipantScore {
    /// The weighted score is the sum of the base, timing and underdog
    /// components.
    pub open spec fn components_add_up(self) -> bool {
        self.weighted_score == self.base_component + self.timing_component
            + self.underdog_component
    }

    /// The score of a participant before anything is counted.
    pub open spec fn zero_for(user: Address, event_id: u64) -> ParticipantScore {
        ParticipantScore {
            user,
            event_id,
            base_component: 0,
            timing_component: 0,
            underdog_component: 0,
            weighted_score: 0,
            correct_count: 0,
            achieved_at: 0,
        }
    }

    /// A zeroed score for `user` in `event_id`.
    pub fn zero(user: Address, event_id: u64) -> (r: Self)
        ensures
            r == Self::zero_for(user, event_id),
    {
        ParticipantScore {
            user,
            event_id,
            base_component: 0,
            timing_component: 0,
            underdog_component: 0,
            weighted_score: 0,
            correct_count: 0,
            achieved_at: 0,
        }
    }
}

/// The leaderboard tie-break chain: more total points always ranks higher;
/// on equal points more exact scores rank higher; on equal points and exact
/// scores an earlier last prediction ranks higher; and otherwise the smaller
/// address ranks higher. Ranking higher excludes the reverse.
pub proof fn lemma_leaderboard_tiebreak_chain(a: LeaderboardEntry, b: LeaderboardEntry)
    ensures
        a.total_points > b.total_points ==> a.ranks_above(b) && !b.ranks_above(a),
        a.total_points == b.total_points && a.exact_scores > b.exact_scores ==> a.ranks_above(b)
            && !b.ranks_above(a),
        a.total_points == b.total_points && a.exact_scores == b.exact_scores
            && a.last_prediction_time < b.last_prediction_time ==> a.ranks_above(b)
            && !b.ranks_above(a),
        a.total_points == b.total_points && a.exact_scores == b.exact_scores
            && a.last_prediction_time == b.last_prediction_time && address_lt(a.user, b.user)
            ==> a.ranks_above(b) && !b.ranks_above(a),
        a.ranks_above(b) ==> a.total_points >= b.total_points,
        a.total_points == b.total_points && a.exact_scores == b.exact_scores
            && a.last_prediction_time == b.last_prediction_time && a.user == b.user
            ==> !a.ranks_above(b),
{
    crate::address::lemma_address_order(a.user, b.user, a.user);
}

/// The standings tie-break chain: a higher weighted score always ranks
/// higher; on equal weighted scores more correct predictions rank higher; on
/// equal scores and counts an earlier achievement ranks higher; and
/// otherwise the smaller address ranks higher. Ranking higher excludes the
/// reverse.
pub proof fn lemma_standings_tiebreak_chain(a: StandingEntry, b: StandingEntry)
    ensures
        a.weighted_score > b.weighted_score ==> a.ranks_above(b) && !b.ranks_above(a),
        a.weighted_score == b.weighted_score && a.correct_count > b.correct_count
            ==> a.ranks_above(b) && !b.ranks_above(a),
        a.weighted_score == b.weighted_score && a.correct_count == b.correct_count
            && a.achieved_at < b.achieved_at ==> a.ranks_above(b) && !b.ranks_above(a),
        a.weighted_score == b.weighted_score && a.correct_count == b.correct_count
            && a.achieved_at == b.achieved_at && address_lt(a.user, b.user) ==> a.ranks_above(b)
            && !b.ranks_above(a),
        a.ranks_above(b) ==> a.weighted_score >= b.weighted_score,
        a.weighted_score == b.weighted_score && a.correct_count == b.correct_count
            && a.achieved_at == b.achieved_at && a.user == b.user ==> !a.ranks_above(b),
{
    crate::address::lemma_address_order(a.user, b.user, a.user);
}

/// A prediction placed at `predicted_at` is early for a match starting at
/// `match_time`: it came at least `EARLY_PREDICTION_LEAD_SECONDS` before it.
pub open spec fn is_early(predicted_at: u64, match_time: u64) -> bool {
    predicted_at + EARLY_PREDICTION_LEAD_SECONDS <= match_time
}

/// Base weight of `points` earned points.
pub open spec fn base_weight(points: u32) -> int {
    points * WEIGHT_BASE_BPS
}

/// Early-prediction bonus of `points` earned points.
pub open spec fn timing_weight(points: u32, predicted_at: u64, match_time: u64) -> int {
    if is_early(predicted_at, match_time) {
        points * EARLY_PREDICTION_BONUS_BPS
    } else {
        0
    }
}

/// Against-the-crowd bonus of `points` earned points.
pub open spec fn underdog_weight(points: u32, minority_pick: bool) -> int {
    if minority_pick {
        points * UNDERDOG_BONUS_BPS
    } else {
        0
    }
}

/// A prediction that earned no points contributes nothing; one that earned
/// points gains strictly from each bonus: an early prediction outweighs a
/// late one, and an against-the-crowd pick outweighs a consensus pick.
pub proof fn lemma_bonuses_strictly_increase(
    points: u32,
    early_at: u64,
    late_at: u64,
    match_time: u64,
    minority: bool,
)
    ensures
        points == 0 ==> base_weight(points) == 0 && timing_weight(points, early_at, match_time)
            == 0 && underdog_weight(points, minority) == 0,
        points > 0 && is_early(early_at, match_time) && !is_early(late_at, match_time) ==> base_weight(
            points,
        ) + timing_weight(points, early_at, match_time) + underdog_weight(points, minority)
            > base_weight(points) + timing_weight(points, late_at, match_time) + underdog_weight(
            points,
            minority,
        ),
        points > 0 ==> base_weight(points) + timing_weight(points, early_at, match_time)
            + underdog_weight(points, true) > base_weight(points) + timing_weight(
            points,
            early_at,
            match_time,
        ) + underdog_weight(points, false),
{
}

/// Weighted contribution of one graded prediction, as
/// `(base, timing bonus, underdog bonus)`.
///
/// Each component is `points_earned` times its weight in basis points: the
/// base weight always, the early bonus when the prediction was placed at
/// least `EARLY_PREDICTION_LEAD_SECONDS` before `match_time`, and the
/// underdog bonus when `minority_pick` holds.
pub fn weighted_contribution(points: u32, predicted_at: u64, match_time: u64, minority_pick: bool) -> (r: (
    u64,
    u64,
    u64,
))
    ensures
        r.0 == base_weight(points),
        r.1 == timing_weight(points, predicted_at, match_time),
        r.2 == underdog_weight(points, minority_pick),
{
    let p = points as u64;
    assert(p * WEIGHT_BASE_BPS <= 0xffff_ffff * 10_000) by (nonlinear_arith)
        requires
            p <= 0xffff_ffff,
    ;
    assert(p * UNDERDOG_BONUS_BPS <= 0xffff_ffff * 5_000) by (nonlinear_arith)
        requires
            p <= 0xffff_ffff,
    ;
    assert(p * EARLY_PREDICTION_BONUS_BPS <= 0xffff_ffff * 2_500) by (nonlinear_arith)
        requires
            p <= 0xffff_ffff,
    ;
    let base = p * WEIGHT_BASE_BPS;
    let early = match_time >= predicted_at && match_time - predicted_at
        >= EARLY_PREDICTION_LEAD_SECONDS;
    let timing = if early {
        p * EARLY_PREDICTION_BONUS_BPS
    } else {
        0
    };
    let underdog = if minority_pick {
        p * UNDERDOG_BONUS_BPS
    } else {
        0
    };
    (base, timing, underdog)
}

} // verus!
