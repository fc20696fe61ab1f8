//! The escalation state machine: given a persisted record, the author's
//! privilege tier and the clock, decide whether to remind, migrate or wait,
//! and what the next persisted record is.
//!
//! Timing is tick-based: the number of whole reminder periods elapsed since
//! the first reminder, by integer division, so that reminders fall at fixed
//! offsets from the first ping no matter how irregularly the engine is
//! invoked.

use vstd::prelude::*;
use crate::record::{dec_digits, spec_serialize, serialize_record, u64_to_dec, EscalationRecord};

verus! {

/// The timing policy: reminder periods in seconds for each author tier and
/// the number of reminder ticks a core author is tolerated before the issue
/// is migrated (a non-core author is tolerated exactly one tick), plus the
/// policy choice of whether a record left behind by a since-linked issue is
/// purged.
#[derive(Clone, Copy, Debug, PartialEq, Eq)]
pub struct EscalationConfig {
    /// Reminder period for issues by core authors, in seconds.
    pub core_period: u64,
    /// Reminder ticks tolerated for core authors before migration.
    pub core_max_pings: u64,
    /// Reminder period for issues by non-core authors, in seconds.
    pub non_core_period: u64,
    /// Whether a stale record is deleted once the issue has a project link.
    pub purge_record_on_link: bool,
}

impl EscalationConfig {
    /// Periods are positive, so escalation ticks are well defined.
    pub open spec fn wf(self) -> bool {
        self.core_period >= 1 && self.non_core_period >= 1
    }
}

/// The reminder period that applies to an author tier.
pub open spec fn period_for(cfg: EscalationConfig, is_core: bool) -> u64 {
    if is_core {
        cfg.core_period
    } else {
        cfg.non_core_period
    }
}

/// Whole periods elapsed since the first reminder: `None` when no reminder
/// was sent yet — or the clock stands before the recorded ping, which is
/// treated as never pinged rather than trusted.
pub open spec fn spec_tick(rec: EscalationRecord, now: u64, period: u64) -> Option<u64>
    recommends
        period >= 1,
{
    match rec.issue_no_project_ping {
        None => None,
        Some(t) => if now >= t {
            Some(((now - t) as int / period as int) as u64)
        } else {
            None
        },
    }
}

/// What one evaluation of an unlinked issue does.
#[derive(Clone, Copy, Debug, PartialEq, Eq)]
pub enum EscalationStep {
    /// Send the first reminder and start the clock.
    FirstReminder,
    /// A not-yet-acted-on period boundary was crossed: send one more
    /// reminder and record the boundary.
    RepeatReminder { tick: u64 },
    /// Tolerance exhausted: close the issue and re-file it in the sorting
    /// repository.
    Migrate,
    /// Still within an already-acted-on period: do nothing.
    Wait,
}

/// The step an unlinked issue takes at time `now`.
pub open spec fn spec_step(
    rec: EscalationRecord,
    is_core: bool,
    now: u64,
    cfg: EscalationConfig,
) -> EscalationStep {
    match spec_tick(rec, now, period_for(cfg, is_core)) {
        None => EscalationStep::FirstReminder,
        Some(t) => if t == 0 {
            EscalationStep::Wait
        } else if !is_core {
            EscalationStep::Migrate
        } else if t == cfg.core_max_pings {
            EscalationStep::Migrate
        } else if t < cfg.core_max_pings && rec.issue_no_project_npings < t {
            EscalationStep::RepeatReminder { tick: t }
        } else {
            EscalationStep::Wait
        },
    }
}

/// What the store commit does once an evaluation succeeded.
#[derive(Clone, Copy, Debug, PartialEq, Eq)]
pub enum EscalationDecision {
    /// Leave the store untouched.
    NoAction,
    /// Delete the issue's entry, then write this record.
    Persist(EscalationRecord),
    /// Delete the issue's entry: the issue is no longer tracked.
    Clear,
}

/// The decision an unlinked issue's evaluation commits at time `now`.
pub open spec fn spec_decision(
    rec: EscalationRecord,
    is_core: bool,
    now: u64,
    cfg: EscalationConfig,
) -> EscalationDecision {
    match spec_step(rec, is_core, now, cfg) {
        EscalationStep::FirstReminder => EscalationDecision::Persist(
            EscalationRecord {
                issue_no_project_ping: Some(now),
                issue_no_project_npings: rec.issue_no_project_npings,
            },
        ),
        EscalationStep::RepeatReminder { tick } => EscalationDecision::Persist(
            EscalationRecord {
                issue_no_project_ping: rec.issue_no_project_ping,
                issue_no_project_npings: tick,
            },
        ),
        EscalationStep::Migrate => EscalationDecision::Clear,
        EscalationStep::Wait => EscalationDecision::NoAction,
    }
}

/// The decision taken when the issue turns out to be linked to a project:
/// no reminder and no migration, only the configured record purge.
pub open spec fn spec_linked_decision(cfg: EscalationConfig) -> EscalationDecision {
    if cfg.purge_record_on_link {
        EscalationDecision::Clear
    } else {
        EscalationDecision::NoAction
    }
}

/// Computes the escalation tick of `rec` at time `now`.
pub fn tick_of(rec: &EscalationRecord, now: u64, period: u64) -> (t: Option<u64>)
    requires
        period >= 1,
    ensures
        t == spec_tick(*rec, now, period),
{
    match rec.issue_no_project_ping {
        None => None,
        Some(p) => if now >= p {
            Some((now - p) / period)
        } else {
            None
        },
    }
}

/// Computes the step an unlinked issue takes at time `now`.
pub fn next_step(
    rec: &EscalationRecord,
    is_core: bool,
    now: u64,
    cfg: &EscalationConfig,
) -> (s: EscalationStep)
    requires
        cfg.wf(),
    ensures
        s == spec_step(*rec, is_core, now, *cfg),
{
    let period = if is_core {
        cfg.core_period
    } else {
        cfg.non_core_period
    };
    match tick_of(rec, now, period) {
        None => EscalationStep::FirstReminder,
        Some(t) => if t == 0 {
            EscalationStep::Wait
        } else if !is_core {
            EscalationStep::Migrate
        } else if t == cfg.core_max_pings {
            EscalationStep::Migrate
        } else if t < cfg.core_max_pings && rec.issue_no_project_npings < t {
            EscalationStep::RepeatReminder { tick: t }
        } else {
            EscalationStep::Wait
        },
    }
}

/// Computes the decision an unlinked issue's evaluation commits at `now`.
pub fn next_decision(
    rec: &EscalationRecord,
    is_core: bool,
    now: u64,
    cfg: &EscalationConfig,
) -> (d: EscalationDecision)
    requires
        cfg.wf(),
    ensures
        d == spec_decision(*rec, is_core, now, *cfg),
{
    match next_step(rec, is_core, now, cfg) {
        EscalationStep::FirstReminder => EscalationDecision::Persist(
            EscalationRecord {
                issue_no_project_ping: Some(now),
                issue_no_project_npings: rec.issue_no_project_npings,
            },
        ),
        EscalationStep::RepeatReminder { tick } => EscalationDecision::Persist(
            EscalationRecord {
                issue_no_project_ping: rec.issue_no_project_ping,
                issue_no_project_npings: tick,
            },
        ),
        EscalationStep::Migrate => EscalationDecision::Clear,
        EscalationStep::Wait => EscalationDecision::NoAction,
    }
}

/// The store mutation a decision commits, over the issue's store key.
#[derive(Clone, Debug, PartialEq, Eq)]
pub enum StoreCommit {
    /// Touch the store not at all.
    Noop,
    /// Delete the entry under `key`.
    Delete { key: Vec<u8> },
    /// Delete the entry under `key`, then write `value` under it, so no
    /// stale field survives a partial update.
    Replace { key: Vec<u8>, value: Vec<u8> },
}

/// How a commit realizes a decision for the issue with identifier
/// `issue_id`: the key is the identifier's decimal form, the value the
/// canonical record encoding.
pub open spec fn commit_matches(c: StoreCommit, issue_id: u64, d: EscalationDecision) -> bool {
    match d {
        EscalationDecision::NoAction => c is Noop,
        EscalationDecision::Clear => c matches StoreCommit::Delete { key }
            && key@ == dec_digits(issue_id as nat),
        EscalationDecision::Persist(rec) => c matches StoreCommit::Replace { key, value }
            && key@ == dec_digits(issue_id as nat) && value@ == spec_serialize(rec),
    }
}

/// Builds the store mutation that realizes `decision` for the issue with
/// identifier `issue_id`.
pub fn commit_for(issue_id: u64, decision: &EscalationDecision) -> (c: StoreCommit)
    ensures
        commit_matches(c, issue_id, *decision),
{
    match decision {
        EscalationDecision::NoAction => StoreCommit::Noop,
        EscalationDecision::Clear => StoreCommit::Delete { key: u64_to_dec(issue_id) },
        EscalationDecision::Persist(rec) => StoreCommit::Replace {
            key: u64_to_dec(issue_id),
            value: serialize_record(rec),
        },
    }
}

/// The record a Persist decision writes; the unchanged record otherwise.
pub open spec fn spec_persisted(
    rec: EscalationRecord,
    is_core: bool,
    now: u64,
    cfg: EscalationConfig,
) -> EscalationRecord {
    match spec_decision(rec, is_core, now, cfg) {
        EscalationDecision::Persist(next) => next,
        _ => rec,
    }
}

/// An issue with no prior reminder — whatever its author's tier — gets
/// exactly one first reminder, and the persisted record stamps `now` and
/// keeps the count.
pub proof fn lemma_first_reminder(
    rec: EscalationRecord,
    is_core: bool,
    now: u64,
    cfg: EscalationConfig,
)
    requires
        cfg.wf(),
        rec.issue_no_project_ping is None,
    ensures
        spec_step(rec, is_core, now, cfg) == EscalationStep::FirstReminder,
        spec_decision(rec, is_core, now, cfg) == EscalationDecision::Persist(
            EscalationRecord {
                issue_no_project_ping: Some(now),
                issue_no_project_npings: rec.issue_no_project_npings,
            },
        ),
{
}

/// On the core track, crossing a period boundary `n` strictly between zero
/// and the tolerance that the record has not acted on yet sends exactly one
/// more reminder and records the boundary — and any further evaluation
/// still at boundary `n` does nothing.
pub proof fn lemma_core_boundary_once(
    rec: EscalationRecord,
    now: u64,
    now2: u64,
    cfg: EscalationConfig,
    n: u64,
)
    requires
        cfg.wf(),
        spec_tick(rec, now, cfg.core_period) == Some(n),
        1 <= n < cfg.core_max_pings,
        rec.issue_no_project_npings < n,
        spec_tick(spec_persisted(rec, true, now, cfg), now2, cfg.core_period) == Some(n),
    ensures
        spec_step(rec, true, now, cfg) == (EscalationStep::RepeatReminder { tick: n }),
        spec_decision(rec, true, now, cfg) == EscalationDecision::Persist(
            EscalationRecord {
                issue_no_project_ping: rec.issue_no_project_ping,
                issue_no_project_npings: n,
            },
        ),
        spec_step(spec_persisted(rec, true, now, cfg), true, now2, cfg) == EscalationStep::Wait,
        spec_decision(spec_persisted(rec, true, now, cfg), true, now2, cfg)
            == EscalationDecision::NoAction,
{
}

/// Reaching exactly the tolerated number of boundaries on the core track
/// migrates the issue and clears its record, whatever the recorded count.
pub proof fn lemma_core_exhaustion(rec: EscalationRecord, now: u64, cfg: EscalationConfig)
    requires
        cfg.wf(),
        cfg.core_max_pings >= 1,
        spec_tick(rec, now, cfg.core_period) == Some(cfg.core_max_pings),
    ensures
        spec_step(rec, true, now, cfg) == EscalationStep::Migrate,
        spec_decision(rec, true, now, cfg) == EscalationDecision::Clear,
{
}

/// On the non-core track, any evaluation one or more whole periods after
/// the first reminder migrates the issue and clears its record: there is
/// no intermediate reminder state beyond the first.
pub proof fn lemma_non_core_migration(
    rec: EscalationRecord,
    now: u64,
    cfg: EscalationConfig,
    n: u64,
)
    requires
        cfg.wf(),
        spec_tick(rec, now, cfg.non_core_period) == Some(n),
        n >= 1,
    ensures
        spec_step(rec, false, now, cfg) == EscalationStep::Migrate,
        spec_decision(rec, false, now, cfg) == EscalationDecision::Clear,
{
}

/// While a record exists its acted-on tick count never decreases: every
/// record a Persist decision writes carries a count at least the old one.
pub proof fn lemma_ping_count_monotone(
    rec: EscalationRecord,
    is_core: bool,
    now: u64,
    cfg: EscalationConfig,
)
    requires
        cfg.wf(),
    ensures
        spec_decision(rec, is_core, now, cfg) matches EscalationDecision::Persist(next)
            ==> next.issue_no_project_npings >= rec.issue_no_project_npings,
{
}

/// Re-evaluating within the period tick already acted on is idempotent:
/// after a first or repeat reminder was persisted, every evaluation whose
/// tick has not advanced waits and commits no store change.
pub proof fn lemma_idempotent_within_tick(
    rec: EscalationRecord,
    is_core: bool,
    now: u64,
    now2: u64,
    cfg: EscalationConfig,
)
    requires
        cfg.wf(),
        spec_step(rec, is_core, now, cfg) is FirstReminder || spec_step(
            rec,
            is_core,
            now,
            cfg,
        ) is RepeatReminder,
        spec_tick(spec_persisted(rec, is_core, now, cfg), now2, period_for(cfg, is_core))
            == spec_tick(spec_persisted(rec, is_core, now, cfg), now, period_for(cfg, is_core)),
    ensures
        spec_step(spec_persisted(rec, is_core, now, cfg), is_core, now2, cfg)
            == EscalationStep::Wait,
        spec_decision(spec_persisted(rec, is_core, now, cfg), is_core, now2, cfg)
            == EscalationDecision::NoAction,
{
}

} // verus!
