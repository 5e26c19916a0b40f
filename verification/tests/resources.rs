use asterism::resources::{QueuedResources, ResourceError, ResourceEvent, ResourceEventType, Transaction};
use asterism::Logic;

fn pools() -> QueuedResources<u8, i32> {
    let mut r: QueuedResources<u8, i32> = QueuedResources::new();
    r.items.insert(1, (5, 0, 10));
    r.items.insert(2, (0, -3, 3));
    r
}

#[test]
fn new_resources_are_empty() {
    let r: QueuedResources<u8, u16> = QueuedResources::new();
    assert!(r.items.is_empty());
    assert!(r.transactions.is_empty());
    assert!(r.completed.is_empty());
}

#[test]
fn change_within_bounds_completes() {
    let mut r = pools();
    r.handle_predicate(&(1, Transaction::Change(5)));
    r.update();
    assert_eq!(r.get_value_by_itemtype(&1), Some(10));
    assert_eq!(r.completed, vec![Ok(1)]);
    assert!(r.transactions.is_empty());
    // a pool that no transaction names is kept
    assert_eq!(r.get_synthesis(2), (0, -3, 3));
}

#[test]
fn change_over_max_is_too_big_and_changes_nothing() {
    let mut r = pools();
    r.handle_predicate(&(1, Transaction::Change(6)));
    r.update();
    assert_eq!(r.get_synthesis(1), (5, 0, 10));
    assert_eq!(r.completed, vec![Err((1, ResourceError::TooBig))]);
}

#[test]
fn change_under_min_is_too_small() {
    let mut r = pools();
    r.handle_predicate(&(2, Transaction::Change(-4)));
    r.update();
    assert_eq!(r.get_synthesis(2), (0, -3, 3));
    assert_eq!(r.completed, vec![Err((2, ResourceError::TooSmall))]);
}

#[test]
fn transaction_on_missing_pool_is_not_found() {
    let mut r = pools();
    r.handle_predicate(&(9, Transaction::SetValue(1)));
    r.update();
    assert_eq!(r.completed, vec![Err((9, ResourceError::PoolNotFound))]);
    assert_eq!(r.get_value_by_itemtype(&9), None);
    assert_eq!(r.items.len(), 2);
}

#[test]
fn transactions_apply_in_order_and_failures_do_not_stop_the_rest() {
    let mut r = pools();
    r.handle_predicate(&(1, Transaction::Change(4)));
    r.handle_predicate(&(1, Transaction::Change(4)));
    r.handle_predicate(&(2, Transaction::SetMax(10)));
    r.handle_predicate(&(2, Transaction::Change(7)));
    r.update();
    assert_eq!(r.completed, vec![Ok(1), Err((1, ResourceError::TooBig)), Ok(2), Ok(2)]);
    assert_eq!(r.get_synthesis(1), (9, 0, 10));
    assert_eq!(r.get_synthesis(2), (7, -3, 10));
}

#[test]
fn set_value_out_of_bounds_is_refused() {
    let mut r = pools();
    r.handle_predicate(&(1, Transaction::SetValue(50)));
    r.handle_predicate(&(2, Transaction::SetValue(-4)));
    r.handle_predicate(&(1, Transaction::SetValue(10)));
    r.update();
    assert_eq!(
        r.completed,
        vec![Err((1, ResourceError::TooBig)), Err((2, ResourceError::TooSmall)), Ok(1)]
    );
    assert_eq!(r.get_synthesis(1), (10, 0, 10));
    assert_eq!(r.get_synthesis(2), (0, -3, 3));
}

#[test]
fn set_min_and_max_are_not_checked() {
    let mut r = pools();
    r.handle_predicate(&(1, Transaction::SetMax(2)));
    r.handle_predicate(&(2, Transaction::SetMin(2)));
    r.update();
    assert_eq!(r.get_synthesis(1), (5, 0, 2));
    assert_eq!(r.get_synthesis(2), (0, 2, 3));
    assert_eq!(r.completed, vec![Ok(1), Ok(2)]);
}

#[test]
fn update_clears_previous_completions() {
    let mut r = pools();
    r.handle_predicate(&(1, Transaction::Change(1)));
    r.update();
    r.update();
    assert!(r.completed.is_empty());
    assert_eq!(r.get_value_by_itemtype(&1), Some(6));
}

#[test]
fn check_predicate_reports_last_update() {
    let mut r = pools();
    r.handle_predicate(&(1, Transaction::Change(1)));
    r.handle_predicate(&(2, Transaction::Change(9)));
    r.update();
    assert!(r.check_predicate(&ResourceEvent { pool: 1, event_type: ResourceEventType::PoolUpdated }));
    assert!(!r.check_predicate(&ResourceEvent { pool: 2, event_type: ResourceEventType::PoolUpdated }));
    assert!(r.check_predicate(&ResourceEvent {
        pool: 2,
        event_type: ResourceEventType::TransactionUnsuccessful(ResourceError::TooBig)
    }));
    assert!(!r.check_predicate(&ResourceEvent {
        pool: 2,
        event_type: ResourceEventType::TransactionUnsuccessful(ResourceError::TooSmall)
    }));
}

#[test]
fn update_synthesis_only_replaces_existing_pools() {
    let mut r = pools();
    r.update_synthesis(1, (1, 1, 1));
    r.update_synthesis(7, (1, 1, 1));
    assert_eq!(r.get_synthesis(1), (1, 1, 1));
    assert_eq!(r.get_value_by_itemtype(&7), None);
}

#[test]
fn unsigned_pool_change_down() {
    let mut r: QueuedResources<u8, u8> = QueuedResources::new();
    r.items.insert(0, (3, 0, 255));
    r.handle_predicate(&(0, Transaction::Change(250)));
    r.update();
    assert_eq!(r.get_value_by_itemtype(&0), Some(253));
    r.handle_predicate(&(0, Transaction::Change(3)));
    r.update();
    assert_eq!(r.completed, vec![Err((0, ResourceError::TooBig))]);
    assert_eq!(r.get_value_by_itemtype(&0), Some(253));
}
