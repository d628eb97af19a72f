use ochami_rs::error::Error;
use ochami_rs::fetch::{
    FetchAction, FetchEvent, FetchReport, Fetcher, DEFAULT_CONCURRENCY_LIMIT,
};
use ochami_rs::group::Group;

fn ids(list: &[&str]) -> Vec<String> {
    list.iter().map(|id| id.to_string()).collect()
}

fn upstream(status: u16) -> Error {
    Error::Upstream { status, payload: format!("status {status}") }
}

/// Runs a fetch as a driver would. A started task ends when the machine
/// waits; the task that was started first ends first. `fails` names the labels
/// whose task fails. Hands back the result and the most tasks that ran at a
/// time.
fn drive(labels: &[&str], limit: usize, fails: &[&str]) -> (Result<FetchReport, Error>, usize) {
    let mut fetcher = Fetcher::new(ids(labels), limit);
    let mut running: Vec<String> = Vec::new();
    let mut most = 0;
    let mut event = FetchEvent::Proceed;
    loop {
        let action = fetcher.step(event);
        if let FetchAction::Start { label } = &action {
            running.push(label.clone());
        }
        assert_eq!(fetcher.in_flight(), running.len());
        assert!(running.len() <= limit);
        most = most.max(running.len());
        match action {
            FetchAction::Start { .. } => {
                event = FetchEvent::Proceed;
            }
            FetchAction::Wait => {
                assert!(!running.is_empty());
                let label = running.remove(0);
                event = if fails.contains(&label.as_str()) {
                    FetchEvent::Failed { label, cause: upstream(500) }
                } else {
                    let members = vec![format!("{label}-n2"), format!("{label}-n1")];
                    FetchEvent::Fetched { label, members }
                };
            }
            FetchAction::Finish => break,
        }
    }
    assert!(running.is_empty());
    (fetcher.into_result(), most)
}

#[test]
fn default_limit_is_ten() {
    assert_eq!(DEFAULT_CONCURRENCY_LIMIT, 10);
}

#[test]
fn fetch_of_three_labels_with_one_failure() {
    let (result, most) = drive(&["a", "b", "c"], 2, &["b"]);
    let report = result.expect("a failed label does not fail the fetch");
    assert_eq!(most, 2);
    assert_eq!(report.members.len(), 2);
    assert_eq!(report.members.get("a"), Some(&ids(&["a-n1", "a-n2"])));
    assert_eq!(report.members.get("c"), Some(&ids(&["c-n1", "c-n2"])));
    assert_eq!(report.members.get("b"), None);
    assert_eq!(report.failures.len(), 1);
    assert_eq!(report.failures[0].label, "b");
    assert!(matches!(report.failures[0].cause, Error::Upstream { status: 500, .. }));
}

#[test]
fn fetch_of_five_labels_with_two_failures() {
    let (result, _) = drive(&["g1", "g2", "g3", "g4", "g5"], 3, &["g2", "g4"]);
    let report = result.expect("failed labels do not fail the fetch");
    let mut labels = report.members.labels();
    labels.sort();
    assert_eq!(labels, ids(&["g1", "g3", "g5"]));
    assert_eq!(report.failures.len(), 2);
    assert_eq!(report.failures[0].label, "g2");
    assert_eq!(report.failures[1].label, "g4");
}

#[test]
fn fetch_where_every_label_fails_is_empty_and_no_error() {
    let (result, _) = drive(&["a", "b"], 1, &["a", "b"]);
    let report = result.expect("failed labels do not fail the fetch");
    assert_eq!(report.members.len(), 0);
    assert_eq!(report.failures.len(), 2);
}

#[test]
fn fetch_of_no_label_finishes_at_once() {
    let mut fetcher = Fetcher::new(Vec::new(), 4);
    assert!(matches!(fetcher.step(FetchEvent::Proceed), FetchAction::Finish));
    let report = fetcher.into_result().expect("nothing failed");
    assert_eq!(report.members.len(), 0);
    assert!(report.failures.is_empty());
}

#[test]
fn fetch_never_runs_more_tasks_than_the_limit() {
    let labels: Vec<String> = (0..37).map(|n| format!("g{n}")).collect();
    let labels: Vec<&str> = labels.iter().map(|label| label.as_str()).collect();
    for limit in [1, 2, 3, 10, 36, 37, 38, 100] {
        let (result, most) = drive(&labels, limit, &["g5", "g6", "g30"]);
        assert_eq!(most, limit.min(labels.len()));
        let report = result.expect("failed labels do not fail the fetch");
        assert_eq!(report.members.len(), 34);
        assert_eq!(report.failures.len(), 3);
    }
}

#[test]
fn fetch_starts_labels_in_order_up_to_the_limit() {
    let mut fetcher = Fetcher::new(ids(&["a", "b", "c"]), 2);
    match fetcher.step(FetchEvent::Proceed) {
        FetchAction::Start { label } => assert_eq!(label, "a"),
        other => panic!("{other:?}"),
    }
    match fetcher.step(FetchEvent::Proceed) {
        FetchAction::Start { label } => assert_eq!(label, "b"),
        other => panic!("{other:?}"),
    }
    assert!(matches!(fetcher.step(FetchEvent::Proceed), FetchAction::Wait));
    assert_eq!(fetcher.in_flight(), 2);
    let ended = FetchEvent::Fetched { label: "b".to_string(), members: ids(&["x1"]) };
    match fetcher.step(ended) {
        FetchAction::Start { label } => assert_eq!(label, "c"),
        other => panic!("{other:?}"),
    }
    assert_eq!(fetcher.in_flight(), 2);
}

#[test]
fn fetch_ignores_the_end_of_a_task_that_does_not_run() {
    let mut fetcher = Fetcher::new(ids(&["a"]), 1);
    assert!(matches!(fetcher.step(FetchEvent::Proceed), FetchAction::Start { .. }));
    let stray = FetchEvent::Fetched { label: "zz".to_string(), members: ids(&["x1"]) };
    assert!(matches!(fetcher.step(stray), FetchAction::Wait));
    assert_eq!(fetcher.in_flight(), 1);
    let ended = FetchEvent::Fetched { label: "a".to_string(), members: ids(&["x1"]) };
    assert!(matches!(fetcher.step(ended), FetchAction::Finish));
    let again = FetchEvent::Failed { label: "a".to_string(), cause: upstream(404) };
    assert!(matches!(fetcher.step(again), FetchAction::Finish));
    let report = fetcher.into_result().expect("nothing failed");
    assert_eq!(report.members.len(), 1);
    assert_eq!(report.members.get("zz"), None);
    assert!(report.failures.is_empty());
}

#[test]
fn fetch_of_a_label_twice_fetches_it_twice_and_keeps_the_later_members() {
    let mut fetcher = Fetcher::new(ids(&["a", "a"]), 2);
    assert!(matches!(fetcher.step(FetchEvent::Proceed), FetchAction::Start { .. }));
    assert!(matches!(fetcher.step(FetchEvent::Proceed), FetchAction::Start { .. }));
    assert!(matches!(fetcher.step(FetchEvent::Proceed), FetchAction::Wait));
    let first = FetchEvent::Fetched { label: "a".to_string(), members: ids(&["x1"]) };
    assert!(matches!(fetcher.step(first), FetchAction::Wait));
    let second = FetchEvent::Fetched { label: "a".to_string(), members: ids(&["x2"]) };
    assert!(matches!(fetcher.step(second), FetchAction::Finish));
    let report = fetcher.into_result().expect("nothing failed");
    assert_eq!(report.members.len(), 1);
    assert_eq!(report.members.get("a"), Some(&ids(&["x2"])));
}

#[test]
fn fetch_is_given_up_on_a_fault_of_the_scheduling() {
    let mut fetcher = Fetcher::new(ids(&["a", "b", "c"]), 2);
    assert!(matches!(fetcher.step(FetchEvent::Proceed), FetchAction::Start { .. }));
    assert!(matches!(fetcher.step(FetchEvent::Proceed), FetchAction::Start { .. }));
    let fault = FetchEvent::Fault { reason: "task panicked".to_string() };
    assert!(matches!(fetcher.step(fault), FetchAction::Finish));
    assert_eq!(fetcher.in_flight(), 0);
    let late = FetchEvent::Fetched { label: "a".to_string(), members: ids(&["x1"]) };
    assert!(matches!(fetcher.step(late), FetchAction::Finish));
    match fetcher.into_result() {
        Err(Error::Concurrency { reason }) => assert_eq!(reason, "task panicked"),
        other => panic!("{other:?}"),
    }
}

#[test]
fn fetched_members_are_stored_in_normal_form() {
    let mut fetcher = Fetcher::new(ids(&["a"]), 1);
    assert!(matches!(fetcher.step(FetchEvent::Proceed), FetchAction::Start { .. }));
    let ended = FetchEvent::Fetched { label: "a".to_string(), members: ids(&["x3", "x1", "x3"]) };
    assert!(matches!(fetcher.step(ended), FetchAction::Finish));
    let report = fetcher.into_result().expect("nothing failed");
    assert_eq!(report.members.get("a"), Some(&ids(&["x1", "x3"])));
    assert_eq!(report.members.all_members(), ids(&["x1", "x3"]));
}

#[test]
fn answer_with_a_group_brings_the_members_of_the_first() {
    let groups = vec![
        Group {
            label: "a".to_string(),
            description: "first".to_string(),
            tags: Vec::new(),
            members: ids(&["x2", "x1"]),
        },
        Group {
            label: "a".to_string(),
            description: "second".to_string(),
            tags: Vec::new(),
            members: ids(&["x9"]),
        },
    ];
    match FetchEvent::from_answer("a".to_string(), Ok(groups)) {
        FetchEvent::Fetched { label, members } => {
            assert_eq!(label, "a");
            assert_eq!(members, ids(&["x2", "x1"]));
        }
        other => panic!("{other:?}"),
    }
}

#[test]
fn answer_without_a_group_is_a_failure_of_that_label() {
    match FetchEvent::from_answer("a".to_string(), Ok(Vec::new())) {
        FetchEvent::Failed { label, cause: Error::NotFound { label: missing } } => {
            assert_eq!(label, "a");
            assert_eq!(missing, "a");
        }
        other => panic!("{other:?}"),
    }
}

#[test]
fn answer_that_failed_is_a_failure_of_that_label() {
    match FetchEvent::from_answer("a".to_string(), Err(upstream(503))) {
        FetchEvent::Failed { label, cause: Error::Upstream { status, payload } } => {
            assert_eq!(label, "a");
            assert_eq!(status, 503);
            assert_eq!(payload, "status 503");
        }
        other => panic!("{other:?}"),
    }
}
