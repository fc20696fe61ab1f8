//! The data the escalation engine reads: issues, their timeline events and
//! the actors behind them, reduced to the fields the engine's decisions
//! depend on. Timestamps are epoch seconds.

use vstd::prelude::*;

verus! {

/// A source-control user.
#[derive(Clone, Debug, PartialEq, Eq)]
pub struct User {
    pub id: u64,
    pub login: String,
}

/// The repository an issue lives in.
#[derive(Clone, Debug, PartialEq, Eq)]
pub struct Repository {
    pub name: String,
}

/// The kind of a timeline event. Only the two project-link kinds are
/// distinguished; every other kind is `Other`.
#[derive(Clone, Copy, Debug, PartialEq, Eq, Structural)]
pub enum EventKind {
    AddedToProject,
    RemovedFromProject,
    Other,
}

/// The project-card reference carried by an "added to project" event,
/// which optionally names the project it belongs to.
#[derive(Clone, Debug, PartialEq, Eq)]
pub struct ProjectCard {
    pub project_url: Option<String>,
}

/// One timeline event of an issue.
#[derive(Clone, Debug, PartialEq, Eq)]
pub struct IssueEvent {
    /// When the event happened, in epoch seconds.
    pub created_at: u64,
    pub event: EventKind,
    pub actor: User,
    /// Present only on "added to project" events, and even there optional.
    pub project_card: Option<ProjectCard>,
}

/// A tracked issue. The fields the upstream host may omit are optional;
/// the engine demands `id`, `number` and `html_url` before it acts.
#[derive(Clone, Debug, PartialEq, Eq)]
pub struct Issue {
    pub id: Option<u64>,
    pub number: Option<u64>,
    pub html_url: Option<String>,
    pub title: Option<String>,
    pub body: Option<String>,
    pub user: User,
    pub repository: Repository,
}

/// Why an evaluation failed. Every error aborts the evaluation before any
/// store mutation is committed.
#[derive(Clone, Copy, Debug, PartialEq, Eq, Structural)]
pub enum Error {
    /// A required issue field (id, number or display URL) is absent.
    MissingData,
    /// A persisted record exists but is not a canonical encoding.
    DeserializationError,
    /// A source-control or chat call failed; raised by the caller that
    /// performs the call, never by the engine itself.
    UpstreamClientError,
    /// A store get/put/delete failed; raised by the caller that owns the
    /// store, never by the engine itself.
    StoreError,
}

} // verus!
