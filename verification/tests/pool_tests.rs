use rust_redis_rs::error::Error;
use rust_redis_rs::pool::{Checkout, PoolState};

#[test]
fn checkout_of_empty_pool_dials() {
    let mut p: PoolState<u32> = PoolState::new();
    assert!(matches!(p.checkout(0, None), Checkout::Dial));
    assert!(!p.is_closed());
}

#[test]
fn returned_connection_is_reused_last_in_first_out() {
    let mut p: PoolState<u32> = PoolState::new();
    assert!(p.checkin(1, 0, 10));
    assert!(p.checkin(2, 0, 20));
    assert_eq!(p.idle_len(), 2);
    assert!(matches!(p.checkout(25, Some(100)), Checkout::Reuse(2)));
    assert!(matches!(p.checkout(25, Some(100)), Checkout::Reuse(1)));
    assert!(matches!(p.checkout(25, Some(100)), Checkout::Dial));
}

#[test]
fn connection_with_unread_data_is_dropped() {
    let mut p: PoolState<u32> = PoolState::new();
    assert!(!p.checkin(7, 3, 0));
    assert_eq!(p.idle_len(), 0);
}

#[test]
fn expired_connection_is_evicted() {
    let mut p: PoolState<u32> = PoolState::new();
    p.checkin(1, 0, 0);
    p.checkin(2, 0, 100);
    assert!(matches!(p.checkout(1000, Some(500)), Checkout::Evict(2)));
    assert!(matches!(p.checkout(1000, Some(1000)), Checkout::Reuse(1)));
}

#[test]
fn no_idle_timeout_never_evicts() {
    let mut p: PoolState<u32> = PoolState::new();
    p.checkin(1, 0, 0);
    assert!(matches!(p.checkout(u64::MAX, None), Checkout::Reuse(1)));
}

#[test]
fn closed_pool_keeps_nothing() {
    let mut p: PoolState<u32> = PoolState::new();
    p.checkin(1, 0, 0);
    p.close();
    assert!(p.is_closed());
    assert_eq!(p.idle_len(), 0);
    assert!(!p.checkin(2, 0, 5));
    assert!(matches!(p.checkout(5, None), Checkout::Dial));
    p.close();
    assert!(p.is_closed());
}

#[test]
fn closed_pool_refuses_requests() {
    let mut p: PoolState<u32> = PoolState::new();
    assert!(p.check_open().is_ok());
    p.close();
    assert!(matches!(p.check_open(), Err(Error::Closed)));
    p.checkin(1, 0, 0);
    assert!(matches!(p.check_open(), Err(Error::Closed)));
}
