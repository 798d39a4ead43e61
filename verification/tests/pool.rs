//! End-to-end exercises of the pool: deposits, early and mature withdrawals,
//! fee accrual and claims, reward injection and splitting, and every
//! rejection the operations can answer with.

use vaquita_pool::{Error, Period, VaquitaPool};

const WEEK: u64 = 604800;
const RATE_1: i128 = 1_000_000_000_000;
const RATE_2: i128 = 2_000_000_000_000;

fn fresh_pool(admin: u64) -> VaquitaPool {
    let mut pool = VaquitaPool::new();
    let periods = vec![WEEK];
    pool.initialize(admin, 2, 3, &periods).unwrap();
    pool
}

#[test]
fn test() {
    let mut pool = VaquitaPool::new();
    let lock_periods = vec![604800u64];
    pool.initialize(1, 2, 3, &lock_periods).unwrap();

    let caller = 1u64;
    let deposit_id = 10u64;
    let amount = 10000000i128;
    let period = 604800u64;

    pool.deposit(caller, deposit_id, amount, period, 0, RATE_1).unwrap();
    let position = pool.get_position(deposit_id).unwrap();
    assert_eq!(position.principal_amount, amount);
    assert_eq!(position.lock_period, period);
}

#[test]
fn success() {
    let mut pool = fresh_pool(1);
    let alice = 5u64;
    pool.deposit(alice, 42, 200_000_0000000, 604800, 0, RATE_1).unwrap();
    let outcome = pool.withdraw(alice, 42, 0, RATE_1).unwrap();
    assert_eq!(outcome.amount_to_transfer, 200_000_0000000);
}

#[test]
fn deposit_records_position_and_grows_bucket() {
    let mut pool = fresh_pool(1);
    pool.deposit(7, 11, 1_000, WEEK, 100, RATE_1).unwrap();
    let position = pool.get_position(11).unwrap();
    assert_eq!(position.owner, 7);
    assert_eq!(position.principal_amount, 1_000);
    assert_eq!(position.finalization_time, 100 + WEEK);
    assert_eq!(position.lock_period, WEEK);
    assert_eq!(position.entry_exchange_rate, RATE_1);
    let bucket = pool.get_period_data(WEEK).unwrap();
    assert_eq!(bucket.total_deposits, 1_000);
    assert_eq!(bucket.reward_pool, 0);

    pool.deposit(8, 12, 250, WEEK, 100, RATE_1).unwrap();
    let bucket = pool.get_period_data(WEEK).unwrap();
    assert_eq!(bucket.total_deposits, 1_250);
}

#[test]
fn duplicate_deposit_rejected_until_withdrawn() {
    let mut pool = fresh_pool(1);
    pool.deposit(7, 11, 1_000, WEEK, 0, RATE_1).unwrap();
    assert_eq!(pool.deposit(7, 11, 500, WEEK, 0, RATE_1), Err(Error::DuplicateDeposit));
    pool.withdraw(7, 11, 0, RATE_1).unwrap();
    assert_eq!(pool.get_position(11), None);
    pool.deposit(9, 11, 500, WEEK, 0, RATE_1).unwrap();
    assert_eq!(pool.get_position(11).unwrap().owner, 9);
}

#[test]
fn early_withdrawal_redirects_interest() {
    let mut pool = fresh_pool(1);
    pool.update_early_withdrawal_fee(1, 2500).unwrap();
    pool.deposit(7, 11, 1_000, WEEK, 0, RATE_1).unwrap();
    // the rate doubled: gross 2000, interest 1000, fee 250 at 2500 bps
    let outcome = pool.withdraw(7, 11, WEEK - 1, RATE_2).unwrap();
    assert_eq!(outcome.amount_to_withdraw, 2_000);
    assert_eq!(outcome.amount_to_transfer, 1_000);
    assert_eq!(outcome.reward, 0);
    let bucket = pool.get_period_data(WEEK).unwrap();
    assert_eq!(bucket.reward_pool, 750);
    assert_eq!(bucket.total_deposits, 0);
    assert_eq!(pool.withdraw_protocol_fees(1), Ok(250));
}

#[test]
fn mature_withdrawal_pays_interest_and_reward() {
    let mut pool = fresh_pool(1);
    pool.update_early_withdrawal_fee(1, 2500).unwrap();
    pool.deposit(7, 11, 1_000, WEEK, 0, RATE_1).unwrap();
    pool.add_rewards(1, WEEK, 100).unwrap();
    let outcome = pool.withdraw(7, 11, WEEK, RATE_2).unwrap();
    assert_eq!(outcome.amount_to_withdraw, 2_000);
    assert_eq!(outcome.reward, 100);
    assert_eq!(outcome.amount_to_transfer, 2_100);
    let bucket = pool.get_period_data(WEEK).unwrap();
    assert_eq!(bucket.reward_pool, 0);
    assert_eq!(bucket.total_deposits, 0);
    // no early-withdrawal fee accrued on the mature path
    assert_eq!(pool.withdraw_protocol_fees(1), Ok(0));
}

#[test]
fn early_withdrawal_returns_exact_principal_scenario() {
    // lock period one week, fee 0 bps, a single depositor, no time advance
    let mut pool = fresh_pool(1);
    pool.deposit(5, 42, 200_000_0000000, WEEK, 0, RATE_2).unwrap();
    let outcome = pool.withdraw(5, 42, 0, RATE_2).unwrap();
    assert_eq!(outcome.amount_to_transfer, 200_000_0000000);
    assert_eq!(outcome.reward, 0);
}

#[test]
fn reward_split_two_depositors() {
    let a = 100_0000000i128;
    let b = 300_0000000i128;
    let r = 10_0000000i128;
    let mut pool = fresh_pool(1);
    pool.deposit(7, 1, a, WEEK, 0, RATE_1).unwrap();
    pool.deposit(8, 2, b, WEEK, 0, RATE_1).unwrap();
    pool.add_rewards(1, WEEK, r).unwrap();

    // first withdrawer: a + r * a / (a + b), rate unchanged so zero interest
    let first = pool.withdraw(7, 1, WEEK, RATE_1).unwrap();
    assert_eq!(first.reward, r * a / (a + b));
    assert_eq!(first.amount_to_transfer, a + r * a / (a + b));
    let bucket = pool.get_period_data(WEEK).unwrap();
    assert_eq!(bucket.total_deposits, b);
    assert_eq!(bucket.reward_pool, r - r * a / (a + b));

    // second withdrawer: b plus the remaining pool, measured against the
    // reduced total
    let remaining = r - r * a / (a + b);
    let second = pool.withdraw(8, 2, WEEK, RATE_1).unwrap();
    assert_eq!(second.reward, remaining * b / b);
    assert_eq!(second.amount_to_transfer, b + remaining);
    let bucket = pool.get_period_data(WEEK).unwrap();
    assert_eq!(bucket.total_deposits, 0);
    assert_eq!(bucket.reward_pool, 0);
}

#[test]
fn rate_regression_clamps_interest() {
    // the venue's rate fell after the deposit: interest clamps to zero and
    // the early withdrawal pays out the (smaller) gross conversion
    let mut pool = fresh_pool(1);
    pool.update_early_withdrawal_fee(1, 5000).unwrap();
    pool.deposit(7, 11, 1_000, WEEK, 0, RATE_2).unwrap();
    let outcome = pool.withdraw(7, 11, 0, RATE_1).unwrap();
    assert_eq!(outcome.amount_to_withdraw, 500);
    assert_eq!(outcome.amount_to_transfer, 500);
    let bucket = pool.get_period_data(WEEK).unwrap();
    assert_eq!(bucket.reward_pool, 0);
    assert_eq!(pool.withdraw_protocol_fees(1), Ok(0));
}

#[test]
fn truncation_can_lose_principal_dust() {
    // a principal below rate / scale rounds to zero yield units, so the
    // conversion pays back less than the principal even at an unchanged rate
    let mut pool = fresh_pool(1);
    pool.deposit(7, 11, 1, WEEK, 0, 3_000_000_000_000).unwrap();
    let outcome = pool.withdraw(7, 11, 0, 3_000_000_000_000).unwrap();
    assert_eq!(outcome.amount_to_withdraw, 0);
    assert_eq!(outcome.amount_to_transfer, 0);
}

#[test]
fn calculate_reward_zero_total_deposits() {
    let empty = Period { reward_pool: 50, total_deposits: 0 };
    assert_eq!(VaquitaPool::calculate_reward(&empty, 10), 0);
    let funded = Period { reward_pool: 10, total_deposits: 400 };
    assert_eq!(VaquitaPool::calculate_reward(&funded, 100), 2);
}

#[test]
fn fee_claim_is_idempotent() {
    let mut pool = fresh_pool(1);
    pool.update_early_withdrawal_fee(1, 5000).unwrap();
    pool.deposit(7, 11, 1_000, WEEK, 0, RATE_1).unwrap();
    pool.withdraw(7, 11, 0, RATE_2).unwrap();
    assert_eq!(pool.withdraw_protocol_fees(1), Ok(500));
    // a second claim with no activity between drains nothing
    assert_eq!(pool.withdraw_protocol_fees(1), Ok(0));
    assert_eq!(pool.withdraw_protocol_fees(1), Ok(0));
}
