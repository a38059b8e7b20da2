//! Scoreboard statistics engine: per-player aggregates, badges, streaks and
//! head-to-head comparisons over score rows, plus the decisions behind
//! token-based authorisation.

pub mod auth;
pub mod badges;
pub mod birthday;
pub mod errors;
pub mod head_to_head;
pub mod ids;
pub mod laws;
pub mod model;
pub mod stats;
pub mod streak;
