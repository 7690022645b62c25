//! Login-streak accounting engine.
//!
//! Given a stream of timestamped trigger events keyed by user identity, the
//! engine decides how each user's login streak evolves: it matches trigger
//! text, rejects events from the future, computes the next streak state with
//! day-boundary arithmetic at a fixed UTC+9 offset, keeps the streak records
//! in a store, and selects the resume watermark after a restart.

pub mod calculator;
pub mod config;
pub mod dispatcher;
pub mod matcher;
pub mod models;
pub mod store;
pub mod watermark;
