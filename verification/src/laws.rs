//! Laws the pool obeys across operations, stated over the same specification
//! formulas the operations' contracts use and proved once and for all.

use crate::math::{fee_of, gross_withdrawal_of, interest_of, lemma_reward_within_pool, reward_of};
use crate::pool::{
    fees_claimed, lemma_wf_position_bucket, spec_gross, spec_interest, PoolModel, VaquitaPool,
};
use vstd::prelude::*;

verus! {

/// Whenever the venue's two-step conversion does not truncate below the
/// principal, the gross withdrawal splits exactly into principal plus
/// accrued interest.
pub proof fn lemma_gross_splits_into_principal_and_interest(
    principal: int,
    entry_rate: int,
    current_rate: int,
)
    requires
        gross_withdrawal_of(principal, entry_rate, current_rate) >= principal,
    ensures
        gross_withdrawal_of(principal, entry_rate, current_rate) == principal + interest_of(
            principal,
            entry_rate,
            current_rate,
        ),
{
}

/// A position withdrawn before its maturity transfers exactly its principal:
/// all accrued interest is redirected, the fee share of it to the protocol
/// fee account and the rest to the bucket's reward pool. Holds whenever the
/// venue conversion does not truncate below the principal.
pub proof fn lemma_early_withdrawal_pays_principal(
    pool: VaquitaPool,
    deposit_id: u64,
    now: u64,
    current_rate: i128,
)
    requires
        pool@.positions.dom().contains(deposit_id),
        now < pool@.positions[deposit_id].finalization_time,
        spec_gross(pool@.positions[deposit_id], current_rate) >= pool@.positions[
            deposit_id
        ].principal_amount,
    ensures
        pool.withdraw_outcome_spec(deposit_id, now, current_rate).amount_to_transfer == pool@.positions[
            deposit_id
        ].principal_amount,
        pool.withdrawn_model(deposit_id, now, current_rate).protocol_fees == pool@.protocol_fees
            + fee_of(spec_interest(pool@.positions[deposit_id], current_rate), pool@.fee_bps),
{
    let pos = pool@.positions[deposit_id];
    lemma_gross_splits_into_principal_and_interest(
        pos.principal_amount as int,
        pos.entry_exchange_rate as int,
        current_rate as int,
    );
}

/// A position withdrawn at or after its maturity transfers exactly its
/// principal plus its accrued interest plus the truncating pro-rata reward
/// `reward_pool * principal / total_deposits`, and the bucket's reward pool
/// shrinks by exactly that reward. Holds whenever the venue conversion does
/// not truncate below the principal and the transfer fits the machine width.
pub proof fn lemma_mature_withdrawal_decomposition(
    pool: VaquitaPool,
    deposit_id: u64,
    now: u64,
    current_rate: i128,
)
    requires
        pool.wf(),
        pool@.positions.dom().contains(deposit_id),
        now >= pool@.positions[deposit_id].finalization_time,
        spec_gross(pool@.positions[deposit_id], current_rate) >= pool@.positions[
            deposit_id
        ].principal_amount,
        spec_gross(pool@.positions[deposit_id], current_rate) + reward_of(
            pool@.buckets[pool@.positions[deposit_id].lock_period].reward_pool as int,
            pool@.positions[deposit_id].principal_amount as int,
            pool@.buckets[pool@.positions[deposit_id].lock_period].total_deposits as int,
        ) <= i128::MAX,
    ensures
        ({
            let pos = pool@.positions[deposit_id];
            let bucket = pool@.buckets[pos.lock_period];
            let reward = reward_of(
                bucket.reward_pool as int,
                pos.principal_amount as int,
                bucket.total_deposits as int,
            );
            &&& pool.withdraw_outcome_spec(deposit_id, now, current_rate).amount_to_transfer
                == pos.principal_amount + spec_interest(pos, current_rate) + reward
            &&& pool.withdraw_outcome_spec(deposit_id, now, current_rate).reward == reward
            &&& pool.withdrawn_model(deposit_id, now, current_rate).buckets[
                pos.lock_period
            ].reward_pool == bucket.reward_pool - reward
        }),
{
    lemma_wf_position_bucket(pool, deposit_id);
    let pos = pool@.positions[deposit_id];
    let bucket = pool@.buckets[pos.lock_period];
    lemma_gross_splits_into_principal_and_interest(
        pos.principal_amount as int,
        pos.entry_exchange_rate as int,
        current_rate as int,
    );
    lemma_reward_within_pool(
        bucket.reward_pool as int,
        pos.principal_amount as int,
        bucket.total_deposits as int,
    );
}

/// A withdrawal frees its identifier: the position is gone from the pool a
/// successful withdrawal leaves behind, so a later deposit under the same
/// identifier is no longer a duplicate.
pub proof fn lemma_identifier_reusable_after_withdrawal(
    pool: VaquitaPool,
    deposit_id: u64,
    now: u64,
    current_rate: i128,
)
    requires
        pool@.positions.dom().contains(deposit_id),
    ensures
        !pool.withdrawn_model(deposit_id, now, current_rate).positions.dom().contains(deposit_id),
{
}

/// Claiming the protocol fees twice in a row with no activity between is a
/// no-op the second time: the first claim leaves a zero balance, so the
/// second drains zero and leaves the pool as it found it.
pub proof fn lemma_fee_claim_idempotent(m: PoolModel)
    ensures
        fees_claimed(fees_claimed(m)) == fees_claimed(m),
        fees_claimed(m).protocol_fees == 0,
{
    assert(fees_claimed(fees_claimed(m)) =~= fees_claimed(m));
}

} // verus!
