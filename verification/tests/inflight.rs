use dice::inflight::{InFlightTable, JoinOutcome};
use dice::keys::{DiceError, Key, WhichSpawner};

#[test]
fn test_dedup_single_start() {
    let mut t = InFlightTable::new(WhichSpawner::RunToCompletion);
    let k = Key::with_arg(0, 1);
    assert_eq!(t.join_or_start(1, k, 1), JoinOutcome::Started);
    assert_eq!(t.join_or_start(2, k, 1), JoinOutcome::Joined);
    assert_eq!(t.join_or_start(3, k, 1), JoinOutcome::Joined);
    // A different version is a separate computation.
    assert_eq!(t.join_or_start(4, k, 2), JoinOutcome::Started);
    let outcomes = t.resolve(k, 1, 42);
    assert_eq!(outcomes.len(), 3);
    for (i, (waiter, result)) in outcomes.iter().enumerate() {
        assert_eq!(*waiter, (i + 1) as u64);
        assert_eq!(*result, Ok(42));
    }
    // The entry is gone: the next requester starts anew.
    assert_eq!(t.join_or_start(5, k, 1), JoinOutcome::Started);
}

#[test]
fn test_cancellation_explicit() {
    let mut t = InFlightTable::new(WhichSpawner::ExplicitCancel);
    let k = Key::plain(3);
    assert_eq!(t.join_or_start(10, k, 7), JoinOutcome::Started);
    assert_eq!(t.join_or_start(11, k, 7), JoinOutcome::Joined);
    assert!(t.cancel(k, 7));
    let outcomes = t.resolve(k, 7, 99);
    assert_eq!(outcomes.len(), 2);
    for (_, result) in &outcomes {
        // No stale or partial value: every waiter sees the cancellation.
        assert!(matches!(result, Err(DiceError::Cancelled)));
    }
}

#[test]
fn test_cancellation_ignored_under_run_to_completion() {
    let mut t = InFlightTable::new(WhichSpawner::RunToCompletion);
    let k = Key::plain(3);
    assert_eq!(t.join_or_start(10, k, 7), JoinOutcome::Started);
    assert!(!t.cancel(k, 7));
    let outcomes = t.resolve(k, 7, 99);
    assert_eq!(outcomes.len(), 1);
    assert_eq!(outcomes[0], (10, Ok(99)));
}
