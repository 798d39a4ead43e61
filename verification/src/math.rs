//! The arithmetic of the pool: exchange-rate conversion between principal and
//! the lending venue's yield-bearing units, accrued interest, the
//! early-withdrawal fee, and the pro-rata reward share.
//!
//! All formulas use truncating integer division on non-negative operands,
//! which coincides with the mathematical (Euclidean) division used in
//! specifications.

use vstd::arithmetic::div_mod::{
    lemma_div_is_ordered, lemma_div_multiples_vanish, lemma_div_pos_is_pos,
};
use vstd::arithmetic::mul::{
    lemma_mul_inequality, lemma_mul_is_commutative, lemma_mul_nonnegative,
};
use vstd::prelude::*;

verus! {

/// Fixed-point scale of the lending venue's exchange rate.
pub const SCALAR_12: i128 = 1_000_000_000_000;

/// Denominator of fee rates: 10000 basis points is 100%.
pub const BASIS_POINTS: i128 = 10000;

/// Principal converted into the venue's yield-bearing units at the given
/// entry rate (truncating).
pub open spec fn yield_units_of(principal: int, entry_rate: int) -> int {
    principal * (SCALAR_12 as int) / (entry_rate as int)
}

/// Yield-bearing units converted back into principal units at the given
/// rate (truncating).
pub open spec fn principal_units_of(yield_units: int, rate: int) -> int {
    yield_units * (rate as int) / (SCALAR_12 as int)
}

/// The amount pulled back from the venue for a position: its principal
/// converted to yield units at the entry rate, then back to principal units
/// at the current rate.
pub open spec fn gross_withdrawal_of(principal: int, entry_rate: int, current_rate: int) -> int {
    principal_units_of(yield_units_of(principal, entry_rate), current_rate)
}

/// Interest accrued by a position: the growth of the gross withdrawal over
/// the principal, clamped at zero to defend against rate regressions.
pub open spec fn interest_of(principal: int, entry_rate: int, current_rate: int) -> int {
    let gross = gross_withdrawal_of(principal, entry_rate, current_rate);
    if gross - principal > 0 {
        gross - principal
    } else {
        0
    }
}

/// The protocol's cut of early-withdrawal interest, in basis points
/// (truncating).
pub open spec fn fee_of(interest: int, fee_bps: int) -> int {
    interest * (fee_bps as int) / (BASIS_POINTS as int)
}

/// The pro-rata share of a reward pool owed to a principal amount, relative
/// to the total open deposits of the same lock period (truncating); zero when
/// there are no open deposits.
pub open spec fn reward_of(reward_pool: int, principal: int, total_deposits: int) -> int {
    if total_deposits == 0 {
        0
    } else {
        reward_pool * principal / total_deposits
    }
}

/// Converts principal into the venue's yield-bearing units at the given
/// entry rate.
pub fn to_yield_units(principal: i128, rate_at_entry: i128) -> (r: i128)
    requires
        0 <= principal,
        rate_at_entry > 0,
        principal * (SCALAR_12 as int) <= i128::MAX,
    ensures
        r == yield_units_of(principal as int, rate_at_entry as int),
        r >= 0,
{
    proof {
        lemma_mul_nonnegative(principal as int, SCALAR_12 as int);
        lemma_div_pos_is_pos(principal * SCALAR_12, rate_at_entry as int);
    }
    (principal * SCALAR_12) / rate_at_entry
}

/// Converts yield-bearing units back into principal units at the given rate.
pub fn to_principal_units(yield_units: i128, rate_now: i128) -> (r: i128)
    requires
        0 <= yield_units,
        0 <= rate_now,
        yield_units * (rate_now as int) <= i128::MAX,
    ensures
        r == principal_units_of(yield_units as int, rate_now as int),
        r >= 0,
{
    proof {
        lemma_mul_nonnegative(yield_units as int, rate_now as int);
        lemma_div_pos_is_pos(yield_units * rate_now, SCALAR_12 as int);
    }
    (yield_units * rate_now) / SCALAR_12
}

/// Interest accrued by a position: principal converted to yield units at the
/// entry rate, back to principal units at the current rate, the growth
/// clamped at zero.
pub fn interest_for(principal: i128, entry_rate: i128, current_rate: i128) -> (r: i128)
    requires
        0 <= principal,
        entry_rate > 0,
        current_rate > 0,
        principal * (SCALAR_12 as int) <= i128::MAX,
        yield_units_of(principal as int, entry_rate as int) * (current_rate as int) <= i128::MAX,
    ensures
        r == interest_of(principal as int, entry_rate as int, current_rate as int),
        r >= 0,
{
    let yield_units = to_yield_units(principal, entry_rate);
    let gross = to_principal_units(yield_units, current_rate);
    if gross - principal > 0 {
        gross - principal
    } else {
        0
    }
}

/// Splits early-withdrawal interest into the protocol's fee share and the
/// remainder owed to the period's reward pool.
pub fn fee_split(interest: i128, fee_bps: i128) -> (r: (i128, i128))
    requires
        0 <= interest,
        0 <= fee_bps <= BASIS_POINTS,
        interest * (fee_bps as int) <= i128::MAX,
    ensures
        r.0 == fee_of(interest as int, fee_bps as int),
        r.1 == interest - r.0,
        0 <= r.0 <= interest,
        0 <= r.1 <= interest,
{
    proof {
        lemma_mul_nonnegative(interest as int, fee_bps as int);
        lemma_fee_within_interest(interest as int, fee_bps as int);
    }
    let fee_amount = (interest * fee_bps) / BASIS_POINTS;
    (fee_amount, interest - fee_amount)
}

/// A fee rate of at most the full denominator never takes more than the
/// interest it is levied on.
pub proof fn lemma_fee_within_interest(interest: int, fee_bps: int)
    requires
        0 <= interest,
        0 <= fee_bps <= BASIS_POINTS,
    ensures
        0 <= fee_of(interest, fee_bps) <= interest,
{
    let b = BASIS_POINTS as int;
    lemma_mul_nonnegative(interest, fee_bps);
    lemma_div_pos_is_pos(interest * fee_bps, b);
    lemma_mul_inequality(fee_bps, b, interest);
    lemma_mul_is_commutative(fee_bps, interest);
    lemma_mul_is_commutative(b, interest);
    lemma_div_is_ordered(interest * fee_bps, interest * b, b);
    lemma_div_multiples_vanish(interest, b);
    assert(b * interest == interest * b);
}

/// A pro-rata share of a reward pool is never negative and never exceeds the
/// pool, provided the principal is no more than the total it is measured
/// against.
pub proof fn lemma_reward_within_pool(reward_pool: int, principal: int, total_deposits: int)
    requires
        0 <= reward_pool,
        0 < principal <= total_deposits,
    ensures
        0 <= reward_of(reward_pool, principal, total_deposits) <= reward_pool,
{
    lemma_mul_nonnegative(reward_pool, principal);
    lemma_div_pos_is_pos(reward_pool * principal, total_deposits);
    lemma_mul_inequality(principal, total_deposits, reward_pool);
    lemma_mul_is_commutative(reward_pool, principal);
    lemma_mul_is_commutative(total_deposits, reward_pool);
    lemma_div_is_ordered(reward_pool * principal, reward_pool * total_deposits, total_deposits);
    lemma_mul_is_commutative(reward_pool, total_deposits);
    lemma_div_multiples_vanish(reward_pool, total_deposits);
}

} // verus!
