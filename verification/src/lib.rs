//! A verified storage core for per-user play-session time tracking.
//!
//! The library keeps three tables in an embedded relational store in
//! lockstep: a game dictionary, an append-only per-day session ledger, and a
//! denormalized running total per game.  Its pieces:
//!
//! - `calendar`: civil-date arithmetic and the fixed `YYYY-MM-DDTHH:MM:SS`
//!   text in which stamps are stored, with parsing proved inverse to
//!   formatting;
//! - `split`: the pure day-boundary session splitter and its laws;
//! - `store`: the trusted boundary to the store, one contract per SQL
//!   statement over a mathematical model of the tables;
//! - `migrations`: the versioned, transactional schema migrator;
//! - `tracking`: the atomic write path and the session read-backs;
//! - `games`, `stats`: identity rows, checksum associations, and the
//!   read-only aggregates.
//!
//! Timestamps are local wall-clock instants in milliseconds; durations are
//! milliseconds.  Opening files, caching connections, and serializing access
//! belong to the shell around the library, not to the library itself.

pub mod calendar;
pub mod error;
pub mod games;
pub mod migrations;
pub mod models;
pub mod split;
pub mod stats;
pub mod store;
pub mod tracking;
