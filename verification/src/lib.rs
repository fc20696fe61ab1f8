//! Escalation engine for a repository-triage bot.
//!
//! For each tracked issue the engine decides, from the issue's timeline
//! events, its author's privilege tier and a small persisted record, when to
//! send a reminder that the issue has no project attached and when to close
//! the issue and re-file it in a fallback sorting repository.

pub mod engine;
pub mod escalation;
pub mod messages;
pub mod record;
pub mod resolver;
pub mod types;
