//! Read-time telemetry aggregation for a small publication site.
//!
//! Clients report per-page reading-duration samples for an edition. The
//! library deduplicates repeat submissions from the same anonymous client,
//! merges bursts of samples into session-like rows using a time window, and
//! enforces a rolling daily cap to blunt replay and inflation abuse.

pub mod clock;
pub mod cookies;
pub mod edition;
pub mod identity;
pub mod laws;
pub mod store;
pub mod text;
