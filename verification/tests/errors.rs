//! One exercise per rejection: each error variant, produced through the
//! public operations by the input that owes it.

use vaquita_pool::{Error, VaquitaPool};

const WEEK: u64 = 604800;
const RATE_1: i128 = 1_000_000_000_000;

fn fresh_pool(admin: u64) -> VaquitaPool {
    let mut pool = VaquitaPool::new();
    let periods = vec![WEEK];
    pool.initialize(admin, 2, 3, &periods).unwrap();
    pool
}

#[test]
fn initialize_twice_rejected() {
    let mut pool = fresh_pool(1);
    let periods = vec![WEEK];
    assert_eq!(pool.initialize(1, 2, 3, &periods), Err(Error::AlreadyInitialized));
}

#[test]
fn non_positive_amounts_rejected() {
    let mut pool = fresh_pool(1);
    assert_eq!(pool.deposit(7, 11, 0, WEEK, 0, RATE_1), Err(Error::InvalidAmount));
    assert_eq!(pool.deposit(7, 11, -5, WEEK, 0, RATE_1), Err(Error::InvalidAmount));
    assert_eq!(pool.get_position(11), None);
}

#[test]
fn unsupported_period_rejected() {
    let mut pool = fresh_pool(1);
    assert_eq!(pool.deposit(7, 11, 100, WEEK + 1, 0, RATE_1), Err(Error::UnsupportedPeriod));
    assert_eq!(pool.add_rewards(1, WEEK + 1, 10), Err(Error::UnsupportedPeriod));
}

#[test]
fn withdrawal_of_missing_or_foreign_position_rejected() {
    let mut pool = fresh_pool(1);
    assert_eq!(pool.withdraw(7, 11, 0, RATE_1), Err(Error::PositionNotFound));
    pool.deposit(7, 11, 100, WEEK, 0, RATE_1).unwrap();
    assert_eq!(pool.withdraw(8, 11, 0, RATE_1), Err(Error::NotPositionOwner));
    // the rightful owner still can
    assert!(pool.withdraw(7, 11, 0, RATE_1).is_ok());
}

#[test]
fn admin_gated_operations_reject_others() {
    let mut pool = fresh_pool(1);
    assert_eq!(pool.update_early_withdrawal_fee(2, 100), Err(Error::NotAuthorized));
    assert_eq!(pool.add_lock_period(2, 123), Err(Error::NotAuthorized));
    assert_eq!(pool.add_rewards(2, WEEK, 10), Err(Error::NotAuthorized));
    assert_eq!(pool.withdraw_protocol_fees(2), Err(Error::NotAuthorized));
}

#[test]
fn duplicate_lock_period_rejected() {
    let mut pool = fresh_pool(1);
    assert_eq!(pool.add_lock_period(1, WEEK), Err(Error::AlreadySupported));
    pool.add_lock_period(1, 2 * WEEK).unwrap();
    assert_eq!(pool.add_lock_period(1, 2 * WEEK), Err(Error::AlreadySupported));
}

#[test]
fn fee_outside_denominator_rejected() {
    let mut pool = fresh_pool(1);
    assert_eq!(pool.update_early_withdrawal_fee(1, 10001), Err(Error::InvalidFee));
    assert_eq!(pool.update_early_withdrawal_fee(1, -1), Err(Error::InvalidFee));
    assert_eq!(pool.update_early_withdrawal_fee(1, 10000), Ok(()));
    assert_eq!(pool.update_early_withdrawal_fee(1, 0), Ok(()));
}

#[test]
fn initialize_collapses_repeated_periods() {
    let mut pool = VaquitaPool::new();
    let periods = vec![WEEK, WEEK];
    pool.initialize(1, 2, 3, &periods).unwrap();
    assert_eq!(pool.add_lock_period(1, WEEK), Err(Error::AlreadySupported));
    pool.deposit(7, 11, 100, WEEK, 0, RATE_1).unwrap();
}
