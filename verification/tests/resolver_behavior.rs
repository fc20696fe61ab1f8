use issue_escalation::resolver::issue_actor_and_project;
use issue_escalation::types::{Error, EventKind, Issue, IssueEvent, ProjectCard, Repository, User};

fn user(id: u64, login: &str) -> User {
    User { id, login: login.to_string() }
}

fn issue() -> Issue {
    Issue {
        id: Some(9),
        number: Some(9),
        html_url: Some("https://example.org/org/repo/issues/9".to_string()),
        title: None,
        body: None,
        user: user(7, "author"),
        repository: Repository { name: "repo".to_string() },
    }
}

fn event(created_at: u64, kind: EventKind, actor_id: u64, url: Option<&str>) -> IssueEvent {
    IssueEvent {
        created_at,
        event: kind,
        actor: user(actor_id, "actor"),
        project_card: url.map(|u| ProjectCard { project_url: Some(u.to_string()) }),
    }
}

#[test]
fn no_events_means_unlinked() {
    assert_eq!(issue_actor_and_project(&issue(), &vec![]), Ok(None));
}

#[test]
fn other_events_are_ignored() {
    let events = vec![event(10, EventKind::Other, 1, None), event(20, EventKind::Other, 2, None)];
    assert_eq!(issue_actor_and_project(&issue(), &events), Ok(None));
}

#[test]
fn most_recent_addition_wins_regardless_of_fetch_order() {
    // the addition is most recent by timestamp although fetched first
    let events = vec![
        event(100, EventKind::AddedToProject, 3, Some("https://example.org/projects/5")),
        event(50, EventKind::RemovedFromProject, 4, None),
        event(70, EventKind::Other, 5, None),
    ];
    let got = issue_actor_and_project(&issue(), &events).unwrap().expect("linked");
    assert_eq!(got.0.id, 3);
    assert_eq!(got.1, "https://example.org/projects/5");
}

#[test]
fn most_recent_removal_means_unlinked() {
    let events = vec![
        event(100, EventKind::RemovedFromProject, 4, None),
        event(50, EventKind::AddedToProject, 3, Some("https://example.org/projects/5")),
    ];
    assert_eq!(issue_actor_and_project(&issue(), &events), Ok(None));
}

#[test]
fn simultaneous_events_break_ties_by_fetch_order() {
    let added = event(100, EventKind::AddedToProject, 3, Some("https://example.org/projects/5"));
    let removed = event(100, EventKind::RemovedFromProject, 4, None);
    // the later-fetched event wins
    let linked = issue_actor_and_project(&issue(), &vec![removed.clone(), added.clone()]);
    assert!(linked.unwrap().is_some());
    let unlinked = issue_actor_and_project(&issue(), &vec![added, removed]);
    assert_eq!(unlinked, Ok(None));
}

#[test]
fn addition_without_card_or_url_is_unlinked() {
    let no_card = vec![event(100, EventKind::AddedToProject, 3, None)];
    assert_eq!(issue_actor_and_project(&issue(), &no_card), Ok(None));
    let no_url = vec![IssueEvent {
        created_at: 100,
        event: EventKind::AddedToProject,
        actor: user(3, "actor"),
        project_card: Some(ProjectCard { project_url: None }),
    }];
    assert_eq!(issue_actor_and_project(&issue(), &no_url), Ok(None));
}

#[test]
fn missing_issue_number_fails() {
    let mut i = issue();
    i.number = None;
    assert_eq!(issue_actor_and_project(&i, &vec![]), Err(Error::MissingData));
}
