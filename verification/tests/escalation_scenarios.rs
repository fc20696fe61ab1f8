use issue_escalation::engine::{handle_issue, Evaluation};
use issue_escalation::escalation::{EscalationConfig, EscalationDecision, StoreCommit};
use issue_escalation::record::{serialize_record, EscalationRecord};
use issue_escalation::types::{Error, EventKind, Issue, IssueEvent, ProjectCard, Repository, User};

fn user(id: u64, login: &str) -> User {
    User { id, login: login.to_string() }
}

fn issue_42(author: User) -> Issue {
    Issue {
        id: Some(42),
        number: Some(42),
        html_url: Some("https://example.org/org/repo/issues/42".to_string()),
        title: Some("a bug".to_string()),
        body: Some("details".to_string()),
        user: author,
        repository: Repository { name: "repo".to_string() },
    }
}

fn config() -> EscalationConfig {
    EscalationConfig {
        core_period: 86400,
        core_max_pings: 3,
        non_core_period: 900,
        purge_record_on_link: false,
    }
}

fn record(ping: Option<u64>, npings: u64) -> EscalationRecord {
    EscalationRecord { issue_no_project_ping: ping, issue_no_project_npings: npings }
}

fn stored(rec: EscalationRecord) -> Option<Vec<u8>> {
    Some(serialize_record(&rec))
}

fn eval(
    author_core: bool,
    stored: Option<Vec<u8>>,
    events: Vec<IssueEvent>,
    now: u64,
    cfg: EscalationConfig,
) -> Result<Evaluation, Error> {
    let core_devs = vec![user(1, "core-dev")];
    let author = if author_core { user(1, "core-dev") } else { user(7, "drive-by") };
    handle_issue(&core_devs, &issue_42(author), &events, &stored, now, &cfg, "!chan:example.org")
}

#[test]
fn non_core_first_evaluation_reminds_and_persists() {
    let now: u64 = 1_000_000;
    let ev = eval(false, None, vec![], now, config()).unwrap();
    let rem = ev.reminder.expect("one reminder");
    assert_eq!(rem.channel_id, "!chan:example.org");
    assert!(rem.message.contains("https://example.org/org/repo/issues/42"));
    assert!(!ev.migrate);
    assert_eq!(ev.decision, EscalationDecision::Persist(record(Some(now), 0)));
    assert_eq!(
        ev.commit,
        StoreCommit::Replace {
            key: b"42".to_vec(),
            value: serialize_record(&record(Some(now), 0)),
        }
    );
}

#[test]
fn core_first_evaluation_reminds_and_persists_zero_count() {
    let now: u64 = 55;
    let ev = eval(true, None, vec![], now, config()).unwrap();
    assert!(ev.reminder.is_some());
    assert!(!ev.migrate);
    assert_eq!(ev.decision, EscalationDecision::Persist(record(Some(now), 0)));
}

#[test]
fn non_core_past_one_period_migrates_and_clears() {
    // record pinged 20 minutes ago with a 15-minute period
    let now: u64 = 1_000_000;
    let ev = eval(false, stored(record(Some(now - 1200), 0)), vec![], now, config()).unwrap();
    assert!(ev.reminder.is_none());
    assert!(ev.migrate);
    assert_eq!(ev.decision, EscalationDecision::Clear);
    assert_eq!(ev.commit, StoreCommit::Delete { key: b"42".to_vec() });
}

#[test]
fn non_core_within_period_waits() {
    let now: u64 = 1_000_000;
    let ev = eval(false, stored(record(Some(now - 899), 0)), vec![], now, config()).unwrap();
    assert!(ev.reminder.is_none());
    assert!(!ev.migrate);
    assert_eq!(ev.decision, EscalationDecision::NoAction);
    assert_eq!(ev.commit, StoreCommit::Noop);
}

#[test]
fn core_second_boundary_reminds_once_then_waits() {
    // two days after the first ping, one boundary acted on: tick 2 > 1
    let now: u64 = 10_000_000;
    let first_ping = now - 2 * 86400;
    let ev = eval(true, stored(record(Some(first_ping), 1)), vec![], now, config()).unwrap();
    assert!(ev.reminder.is_some());
    assert!(!ev.migrate);
    assert_eq!(ev.decision, EscalationDecision::Persist(record(Some(first_ping), 2)));

    // re-evaluating within the same boundary does nothing, both times
    let again = eval(
        true,
        stored(record(Some(first_ping), 2)),
        vec![],
        now + 3600,
        config(),
    )
    .unwrap();
    assert!(again.reminder.is_none());
    assert_eq!(again.decision, EscalationDecision::NoAction);
    assert_eq!(again.commit, StoreCommit::Noop);
    let third = eval(
        true,
        stored(record(Some(first_ping), 2)),
        vec![],
        now + 7200,
        config(),
    )
    .unwrap();
    assert_eq!(third.decision, EscalationDecision::NoAction);
}

#[test]
fn core_reaching_tolerance_migrates_whatever_the_count() {
    let now: u64 = 10_000_000;
    let first_ping = now - 3 * 86400;
    for npings in [0u64, 1, 2, 7] {
        let ev = eval(true, stored(record(Some(first_ping), npings)), vec![], now, config())
            .unwrap();
        assert!(ev.reminder.is_none());
        assert!(ev.migrate);
        assert_eq!(ev.decision, EscalationDecision::Clear);
        assert_eq!(ev.commit, StoreCommit::Delete { key: b"42".to_vec() });
    }
}

#[test]
fn non_core_reevaluation_within_first_period_is_idempotent() {
    let now: u64 = 1_000_000;
    let first = eval(false, None, vec![], now, config()).unwrap();
    let persisted = match first.decision {
        EscalationDecision::Persist(rec) => rec,
        other => panic!("expected Persist, got {:?}", other),
    };
    let second = eval(false, stored(persisted), vec![], now + 100, config()).unwrap();
    assert!(second.reminder.is_none());
    assert_eq!(second.decision, EscalationDecision::NoAction);
    let third = eval(false, stored(persisted), vec![], now + 500, config()).unwrap();
    assert_eq!(third.decision, EscalationDecision::NoAction);
}

fn linked_events() -> Vec<IssueEvent> {
    vec![IssueEvent {
        created_at: 500,
        event: EventKind::AddedToProject,
        actor: user(3, "organizer"),
        project_card: Some(ProjectCard {
            project_url: Some("https://example.org/projects/1".to_string()),
        }),
    }]
}

#[test]
fn linked_issue_gets_no_reminder_and_keeps_record_by_default() {
    let now: u64 = 1_000_000;
    let ev = eval(false, stored(record(Some(now - 1200), 0)), linked_events(), now, config())
        .unwrap();
    assert!(ev.reminder.is_none());
    assert!(!ev.migrate);
    assert_eq!(ev.decision, EscalationDecision::NoAction);
    assert_eq!(ev.commit, StoreCommit::Noop);
}

#[test]
fn linked_issue_purges_record_when_configured() {
    let now: u64 = 1_000_000;
    let mut cfg = config();
    cfg.purge_record_on_link = true;
    let ev = eval(false, stored(record(Some(now - 1200), 0)), linked_events(), now, cfg).unwrap();
    assert!(ev.reminder.is_none());
    assert!(!ev.migrate);
    assert_eq!(ev.decision, EscalationDecision::Clear);
    assert_eq!(ev.commit, StoreCommit::Delete { key: b"42".to_vec() });
}

#[test]
fn missing_id_is_missing_data() {
    let mut issue = issue_42(user(7, "drive-by"));
    issue.id = None;
    let r = handle_issue(&vec![], &issue, &vec![], &None, 0, &config(), "!c");
    assert_eq!(r.unwrap_err(), Error::MissingData);
}

#[test]
fn missing_html_url_is_missing_data() {
    let mut issue = issue_42(user(7, "drive-by"));
    issue.html_url = None;
    let r = handle_issue(&vec![], &issue, &vec![], &None, 0, &config(), "!c");
    assert_eq!(r.unwrap_err(), Error::MissingData);
}

#[test]
fn missing_number_is_missing_data() {
    let mut issue = issue_42(user(7, "drive-by"));
    issue.number = None;
    let r = handle_issue(&vec![], &issue, &vec![], &None, 0, &config(), "!c");
    assert_eq!(r.unwrap_err(), Error::MissingData);
}

#[test]
fn corrupt_stored_record_is_deserialization_error() {
    let r = handle_issue(
        &vec![],
        &issue_42(user(7, "drive-by")),
        &vec![],
        &Some(b"{\"issue_no_project_ping\":oops}".to_vec()),
        0,
        &config(),
        "!c",
    );
    assert_eq!(r.unwrap_err(), Error::DeserializationError);
}
