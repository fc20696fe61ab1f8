//! One full evaluation of a tracked issue: resolve the project link from
//! the timeline, read the persisted record, run the escalation state
//! machine, and say what the caller must do — at most one reminder and/or
//! one close-and-recreate pair, and exactly one of delete, replace or
//! nothing against the store.
//!
//! The engine itself performs no call to the outside world: the caller
//! fetches the timeline and the stored bytes, hands them in together with
//! the clock, and afterwards sends the reminder, performs the migration and
//! applies the commit that the evaluation names.

use vstd::prelude::*;
use crate::escalation::{
    commit_for, commit_matches, next_decision, next_step, spec_decision, spec_linked_decision,
    spec_step, EscalationConfig, EscalationDecision, EscalationStep, StoreCommit,
};
use crate::messages::{reminder_message, spec_reminder_message};
use crate::record::{parse_record, spec_serialize, EscalationRecord};
use crate::resolver::{issue_actor_and_project, spec_linked};
use crate::types::{Error, Issue, IssueEvent, User};

verus! {

/// A reminder to publish to a chat channel.
#[derive(Debug)]
pub struct Reminder {
    pub channel_id: String,
    pub message: String,
}

/// Everything one successful evaluation asks of its caller.
#[derive(Debug)]
pub struct Evaluation {
    /// The reminder to send, if any.
    pub reminder: Option<Reminder>,
    /// Whether to close the issue in its origin repository and re-file it
    /// in the sorting repository.
    pub migrate: bool,
    /// The decision the store commit realizes.
    pub decision: EscalationDecision,
    /// The store mutation to apply.
    pub commit: StoreCommit,
}

/// Whether the issue's author appears in the core-developer roster.
pub open spec fn spec_is_core(core_devs: Seq<User>, author: User) -> bool {
    exists|j: int| 0 <= j < core_devs.len() && core_devs[j].id == author.id
}

/// Whether the stored bytes, if any, are a record's canonical encoding.
pub open spec fn stored_ok(stored: Option<Vec<u8>>) -> bool {
    match stored {
        None => true,
        Some(b) => exists|rec: EscalationRecord| b@ == spec_serialize(rec),
    }
}

/// The record an evaluation starts from: the decoded stored bytes, or the
/// empty record when the issue was never observed without a project link.
pub open spec fn spec_stored_record(stored: Option<Vec<u8>>) -> EscalationRecord {
    match stored {
        None => EscalationRecord::spec_new(),
        Some(b) => choose|rec: EscalationRecord| b@ == spec_serialize(rec),
    }
}

/// The error a failing evaluation reports, by the first fault found:
/// missing issue fields, then corrupt stored bytes, then a missing issue
/// number.
pub open spec fn spec_eval_error(issue: Issue, stored: Option<Vec<u8>>) -> Error {
    if issue.id is None || issue.html_url is None {
        Error::MissingData
    } else if !stored_ok(stored) {
        Error::DeserializationError
    } else {
        Error::MissingData
    }
}

/// Decides whether the issue's author is on the core-developer roster.
pub fn author_is_core(core_devs: &Vec<User>, author: &User) -> (r: bool)
    ensures
        r == spec_is_core(core_devs@, *author),
{
    let mut j: usize = 0;
    while j < core_devs.len()
        invariant
            0 <= j <= core_devs@.len(),
            forall|m: int| 0 <= m < j ==> #[trigger] core_devs@[m].id != author.id,
        decreases core_devs@.len() - j,
    {
        if core_devs[j].id == author.id {
            return true;
        }
        j = j + 1;
    }
    false
}

/// Evaluates `issue` once, at time `now`.
///
/// Fails — touching nothing — exactly when the issue lacks its id, display
/// URL or number, or when stored bytes exist that are no record's
/// encoding. Otherwise: a linked issue gets no reminder and no migration,
/// only the configured purge of a stale record; an unlinked issue takes
/// the escalation step the state machine prescribes, the reminder naming
/// the issue's display URL and addressed to the default channel, and the
/// commit realizing the decision under the issue's store key.
pub fn handle_issue(
    core_devs: &Vec<User>,
    issue: &Issue,
    events: &Vec<IssueEvent>,
    stored: &Option<Vec<u8>>,
    now: u64,
    cfg: &EscalationConfig,
    default_channel_id: &str,
) -> (r: Result<Evaluation, Error>)
    requires
        cfg.wf(),
    ensures
        r is Err <==> (issue.id is None || issue.html_url is None || issue.number is None
            || !stored_ok(*stored)),
        r matches Err(e) ==> e == spec_eval_error(*issue, *stored),
        r matches Ok(ev) ==> ({
            let rec = spec_stored_record(*stored);
            let is_core = spec_is_core(core_devs@, issue.user);
            let step = spec_step(rec, is_core, now, *cfg);
            &&& commit_matches(ev.commit, issue.id->0, ev.decision)
            &&& spec_linked(events@) ==> {
                &&& ev.reminder is None
                &&& !ev.migrate
                &&& ev.decision == spec_linked_decision(*cfg)
            }
            &&& !spec_linked(events@) ==> {
                &&& ev.decision == spec_decision(rec, is_core, now, *cfg)
                &&& ev.migrate == (step is Migrate)
                &&& (ev.reminder is Some <==> (step is FirstReminder || step is RepeatReminder))
                &&& (ev.reminder matches Some(rem) ==> rem.channel_id@ == default_channel_id@
                    && rem.message@ == spec_reminder_message(issue.html_url->0@))
            }
        }),
{
    let issue_id = match issue.id {
        Some(v) => v,
        None => {
            return Err(Error::MissingData);
        }
    };
    let html_url = match &issue.html_url {
        Some(u) => u,
        None => {
            return Err(Error::MissingData);
        }
    };
    let rec = match stored {
        None => EscalationRecord::new(),
        Some(b) => match parse_record(b) {
            Ok(rec) => {
                proof {
                    let c = spec_stored_record(*stored);
                    assert(b@ == spec_serialize(rec));
                    assert(b@ == spec_serialize(c));
                }
                rec
            }
            Err(e) => {
                proof {
                    if stored_ok(*stored) {
                        let c = choose|c: EscalationRecord| b@ == spec_serialize(c);
                        assert(b@ == spec_serialize(c));
                    }
                }
                return Err(e);
            }
        },
    };
    let is_core = author_is_core(core_devs, &issue.user);
    let linked = match issue_actor_and_project(issue, events) {
        Ok(o) => o.is_some(),
        Err(e) => {
            return Err(e);
        }
    };
    if linked {
        let decision = if cfg.purge_record_on_link {
            EscalationDecision::Clear
        } else {
            EscalationDecision::NoAction
        };
        let commit = commit_for(issue_id, &decision);
        return Ok(Evaluation { reminder: None, migrate: false, decision, commit });
    }
    let step = next_step(&rec, is_core, now, cfg);
    let decision = next_decision(&rec, is_core, now, cfg);
    let send = match step {
        EscalationStep::FirstReminder => true,
        EscalationStep::RepeatReminder { .. } => true,
        _ => false,
    };
    let reminder = if send {
        Some(
            Reminder {
                channel_id: String::from_str(default_channel_id),
                message: reminder_message(html_url.as_str()),
            },
        )
    } else {
        None
    };
    let migrate = match step {
        EscalationStep::Migrate => true,
        _ => false,
    };
    let commit = commit_for(issue_id, &decision);
    Ok(Evaluation { reminder, migrate, decision, commit })
}

} // verus!
