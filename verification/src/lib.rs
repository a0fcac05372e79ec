//! Verified core of a prediction-event manager: the stored data types of an
//! event, its matches and predictions, and the ranked leaderboard and
//! weighted standings computed from them.

pub mod address;
pub mod storage_types;
pub mod ranking;
pub mod participant_index;
pub mod scoring;
pub mod leaderboard;
