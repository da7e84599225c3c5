//! In-memory engine for a periodically refreshed real-time transit feed.
//!
//! The crate keeps a queryable snapshot of "current" vehicle journeys: it
//! resolves raw stop references against a static catalog
//! ([`membased::Stops`]), builds validated [`membased::Journey`] records
//! from raw feed entries through a chain of fallback rules, and maintains a
//! [`membased::Journeys`] index that supports incremental merge and
//! time-based expiry. Timestamps are carried as whole seconds since the
//! Unix epoch.

pub mod api;
pub mod cli;
pub mod db;
pub mod entur_siriformat;
pub mod membased;
pub mod server;
