use openstack_cost_dashboard::data::FetchError;
use openstack_cost_dashboard::dates::DateRange;
use openstack_cost_dashboard::refresh::{RefreshCoordinator, RefreshState, RefreshTrigger};

#[test]
fn new_coordinator_is_idle_and_shows_the_initial_snapshot() {
    let coordinator = RefreshCoordinator::new("empty".to_string());
    assert_eq!(coordinator.snapshot(), "empty");
    assert_eq!(coordinator.state(), RefreshState::Idle);
}

#[test]
fn periodic_trigger_has_no_date_bounds() {
    let mut coordinator = RefreshCoordinator::new(0u32);
    let range = coordinator.trigger(RefreshTrigger::Periodic);
    assert_eq!(range.begin_at, None);
    assert_eq!(range.end_at, None);
    assert_eq!(coordinator.state(), RefreshState::Refreshing);
    assert_eq!(*coordinator.snapshot(), 0);
}

#[test]
fn manual_trigger_keeps_the_bounds_of_the_caller() {
    let mut coordinator = RefreshCoordinator::new(0u32);
    let range = coordinator.trigger(RefreshTrigger::Manual(DateRange {
        begin_at: Some("2024-01-01".to_string()),
        end_at: None,
    }));
    assert_eq!(range.begin_at, Some("2024-01-01".to_string()));
    assert_eq!(range.end_at, None);
}

#[test]
fn completed_refresh_replaces_the_snapshot() {
    let mut coordinator = RefreshCoordinator::new(vec![0u8]);
    coordinator.trigger(RefreshTrigger::Periodic);
    coordinator.complete(Ok(vec![1, 2, 3]));
    assert_eq!(*coordinator.snapshot(), vec![1, 2, 3]);
    assert_eq!(coordinator.state(), RefreshState::Idle);
}

#[test]
fn failed_refresh_keeps_the_last_good_snapshot() {
    let mut coordinator = RefreshCoordinator::new("empty");
    coordinator.trigger(RefreshTrigger::Periodic);
    coordinator.complete(Ok("first"));
    for error in [
        FetchError::ProcessLaunchFailed,
        FetchError::ProcessExitedNonZero,
        FetchError::MalformedOutput,
    ] {
        coordinator.trigger(RefreshTrigger::Periodic);
        coordinator.complete(Err(error));
        assert_eq!(*coordinator.snapshot(), "first");
        assert_eq!(coordinator.state(), RefreshState::Idle);
    }
}

#[test]
fn failed_first_refresh_leaves_the_empty_snapshot() {
    let mut coordinator = RefreshCoordinator::new(Vec::<u32>::new());
    coordinator.trigger(RefreshTrigger::Manual(DateRange { begin_at: None, end_at: None }));
    coordinator.complete(Err(FetchError::ProcessLaunchFailed));
    assert!(coordinator.snapshot().is_empty());
    coordinator.trigger(RefreshTrigger::Periodic);
    coordinator.complete(Ok(vec![4]));
    assert_eq!(*coordinator.snapshot(), vec![4]);
}

#[test]
fn overlapping_refreshes_last_completion_wins() {
    let mut coordinator = RefreshCoordinator::new(0u32);
    coordinator.trigger(RefreshTrigger::Periodic);
    coordinator.trigger(RefreshTrigger::Manual(DateRange { begin_at: None, end_at: None }));
    assert_eq!(coordinator.state(), RefreshState::Refreshing);
    coordinator.complete(Ok(2));
    assert_eq!(*coordinator.snapshot(), 2);
    assert_eq!(coordinator.state(), RefreshState::Refreshing);
    coordinator.complete(Ok(1));
    assert_eq!(*coordinator.snapshot(), 1);
    assert_eq!(coordinator.state(), RefreshState::Idle);
}

#[test]
fn snapshot_is_always_one_that_was_handed_in() {
    let mut coordinator = RefreshCoordinator::new((Vec::<&str>::new(), Vec::<u32>::new()));
    let rounds: Vec<Result<(Vec<&str>, Vec<u32>), FetchError>> = vec![
        Ok((vec!["a"], vec![1])),
        Err(FetchError::MalformedOutput),
        Ok((vec!["b", "c"], vec![2, 3])),
        Err(FetchError::ProcessExitedNonZero),
        Ok((vec![], vec![])),
    ];
    for result in rounds {
        coordinator.trigger(RefreshTrigger::Periodic);
        coordinator.complete(result);
        let (labels, values) = coordinator.snapshot();
        assert_eq!(labels.len(), values.len());
    }
}

#[test]
fn completion_without_a_trigger_leaves_the_coordinator_idle() {
    let mut coordinator = RefreshCoordinator::new(1u8);
    coordinator.complete(Err(FetchError::MalformedOutput));
    assert_eq!(coordinator.state(), RefreshState::Idle);
    assert_eq!(*coordinator.snapshot(), 1);
    coordinator.complete(Ok(2));
    assert_eq!(coordinator.state(), RefreshState::Idle);
    assert_eq!(*coordinator.snapshot(), 2);
}
