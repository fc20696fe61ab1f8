use issue_escalation::escalation::{
    commit_for, next_decision, next_step, tick_of, EscalationConfig, EscalationDecision,
    EscalationStep, StoreCommit,
};
use issue_escalation::record::{serialize_record, EscalationRecord};

fn config() -> EscalationConfig {
    EscalationConfig {
        core_period: 86400,
        core_max_pings: 3,
        non_core_period: 900,
        purge_record_on_link: false,
    }
}

fn record(ping: Option<u64>, npings: u64) -> EscalationRecord {
    EscalationRecord { issue_no_project_ping: ping, issue_no_project_npings: npings }
}

#[test]
fn ticks_count_whole_periods() {
    let rec = record(Some(1000), 0);
    assert_eq!(tick_of(&rec, 1000, 900), Some(0));
    assert_eq!(tick_of(&rec, 1899, 900), Some(0));
    assert_eq!(tick_of(&rec, 1900, 900), Some(1));
    assert_eq!(tick_of(&rec, 1000 + 3 * 900, 900), Some(3));
    assert_eq!(tick_of(&record(None, 0), 5000, 900), None);
}

#[test]
fn clock_before_the_recorded_ping_counts_as_never_pinged() {
    let rec = record(Some(5000), 1);
    assert_eq!(tick_of(&rec, 4999, 900), None);
    assert_eq!(next_step(&rec, false, 4999, &config()), EscalationStep::FirstReminder);
}

#[test]
fn boundary_is_crossed_exactly_at_the_period() {
    let cfg = config();
    let rec = record(Some(1000), 0);
    assert_eq!(next_step(&rec, false, 1000 + 899, &cfg), EscalationStep::Wait);
    assert_eq!(next_step(&rec, false, 1000 + 900, &cfg), EscalationStep::Migrate);
    assert_eq!(next_step(&rec, true, 1000 + 86399, &cfg), EscalationStep::Wait);
    assert_eq!(
        next_step(&rec, true, 1000 + 86400, &cfg),
        EscalationStep::RepeatReminder { tick: 1 }
    );
}

#[test]
fn core_track_migrates_exactly_at_the_tolerance() {
    let cfg = config();
    let rec = record(Some(0), 2);
    assert_eq!(next_step(&rec, true, 3 * 86400, &cfg), EscalationStep::Migrate);
    assert_eq!(next_decision(&rec, true, 3 * 86400, &cfg), EscalationDecision::Clear);
    // beyond the tolerance no boundary remains to act on
    assert_eq!(next_step(&rec, true, 4 * 86400, &cfg), EscalationStep::Wait);
}

#[test]
fn commits_realize_decisions_under_the_decimal_key() {
    assert_eq!(commit_for(7, &EscalationDecision::NoAction), StoreCommit::Noop);
    assert_eq!(
        commit_for(7, &EscalationDecision::Clear),
        StoreCommit::Delete { key: b"7".to_vec() }
    );
    let rec = record(Some(123), 1);
    assert_eq!(
        commit_for(7, &EscalationDecision::Persist(rec)),
        StoreCommit::Replace { key: b"7".to_vec(), value: serialize_record(&rec) }
    );
}
