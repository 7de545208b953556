//! Session lifecycle management for a single, time-bounded credential bound
//! to one wallet, and the score bookkeeping of the puzzle game around it.
//!
//! The host (ledger clock, persistent storage, caller authorization and event
//! delivery) stays outside: operations take the current time and the outcome
//! of the authorization check as plain values, keep their state in an
//! explicit value, and queue the events they announce for the host to publish.
pub mod session;
pub mod scores;
