//! Core logic of a chat-community "leet" bot: trigger-word detection,
//! time-window classification, once-per-day achievement recording,
//! per-guild configuration, and monthly leaderboard aggregation and
//! scheduling.
//!
//! Chat transport, database persistence and process wiring live outside
//! this library; it works on plain values (identifiers as strings,
//! timestamps as seconds, local dates as integer fields) and an
//! in-memory store that models the persisted state.

pub mod leeting;
pub mod scheduler;
pub mod store;
pub mod timewin;
pub mod trigger;
