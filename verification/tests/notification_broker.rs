use onchain_contracts::broker::{NotificationBrokerContract, NotificationBrokerError};

const ADMIN: u64 = 1;
const SOURCE: u64 = 20;
const DEPOSIT: u64 = 5;
const WITHDRAWAL: u64 = 6;

fn setup() -> NotificationBrokerContract {
    let mut b = NotificationBrokerContract::new();
    b.initialize(ADMIN).unwrap();
    b
}

#[test]
fn broker_routes_to_matching_subscribers() {
    let mut b = setup();
    b.subscribe(10, SOURCE, Some(DEPOSIT), 100).unwrap();
    b.subscribe(11, SOURCE, None, 101).unwrap();
    b.subscribe(12, SOURCE, Some(WITHDRAWAL), 102).unwrap();
    assert_eq!(b.get_listeners_for_source(SOURCE), Ok(vec![10, 11, 12]));
    assert_eq!(b.notify(SOURCE, DEPOSIT), Ok((2, vec![10, 11])));
    b.finish_notify();
    assert_eq!(b.notify(SOURCE, WITHDRAWAL), Ok((2, vec![11, 12])));
    b.finish_notify();
    assert_eq!(b.notify(SOURCE, 7), Ok((1, vec![11])));
    b.finish_notify();
    assert_eq!(b.notify(99, DEPOSIT), Ok((0, vec![])));
    b.finish_notify();
}

#[test]
fn broker_blocks_writes_during_delivery() {
    let mut b = setup();
    b.subscribe(10, SOURCE, None, 0).unwrap();
    assert_eq!(b.notify(SOURCE, DEPOSIT), Ok((1, vec![10])));
    assert_eq!(b.subscribe(11, SOURCE, None, 1), Err(NotificationBrokerError::ReentrancyDetected));
    assert_eq!(b.unsubscribe(10, SOURCE, None), Err(NotificationBrokerError::ReentrancyDetected));
    assert_eq!(b.notify(SOURCE, DEPOSIT), Err(NotificationBrokerError::ReentrancyDetected));
    assert_eq!(b.initialize(ADMIN), Err(NotificationBrokerError::ReentrancyDetected));
    // Reads are not guarded.
    assert_eq!(b.is_subscribed(10, SOURCE, None), Ok(true));
    b.finish_notify();
    assert!(b.subscribe(11, SOURCE, None, 1).is_ok());
}

#[test]
fn broker_unsubscribe_keeps_routing_list() {
    let mut b = setup();
    b.subscribe(10, SOURCE, Some(DEPOSIT), 0).unwrap();
    assert_eq!(b.is_subscribed(10, SOURCE, Some(DEPOSIT)), Ok(true));
    assert_eq!(b.is_subscribed(10, SOURCE, None), Ok(false));
    b.unsubscribe(10, SOURCE, Some(DEPOSIT)).unwrap();
    assert_eq!(b.is_subscribed(10, SOURCE, Some(DEPOSIT)), Ok(false));
    assert_eq!(b.get_listeners_for_source(SOURCE), Ok(vec![10]));
    assert_eq!(b.notify(SOURCE, DEPOSIT), Ok((0, vec![])));
    b.finish_notify();
    assert_eq!(
        b.unsubscribe(10, SOURCE, Some(DEPOSIT)),
        Err(NotificationBrokerError::SubscriptionNotFound)
    );
}

#[test]
fn broker_resubscribing_adds_no_duplicate() {
    let mut b = setup();
    b.subscribe(10, SOURCE, Some(DEPOSIT), 0).unwrap();
    b.subscribe(10, SOURCE, Some(DEPOSIT), 5).unwrap();
    b.subscribe(10, SOURCE, None, 6).unwrap();
    assert_eq!(b.get_listeners_for_source(SOURCE), Ok(vec![10]));
    assert_eq!(b.notify(SOURCE, DEPOSIT), Ok((1, vec![10])));
}

#[test]
fn broker_needs_initialization() {
    let mut b = NotificationBrokerContract::new();
    assert_eq!(b.admin(), Err(NotificationBrokerError::NotInitialized));
    assert_eq!(b.subscribe(10, SOURCE, None, 0), Err(NotificationBrokerError::NotInitialized));
    assert_eq!(b.notify(SOURCE, DEPOSIT), Err(NotificationBrokerError::NotInitialized));
    b.initialize(ADMIN).unwrap();
    assert_eq!(b.admin(), Ok(ADMIN));
    assert_eq!(b.initialize(2), Err(NotificationBrokerError::AlreadyInitialized));
    assert_eq!(b.get_listeners_for_source(SOURCE), Ok(vec![]));
}
