//! The pool itself: the position ledger, the per-period reward buckets, the
//! lock-period registry, the protocol fee account, and the deposit/withdraw
//! state machine over them.
//!
//! Identities (the administrator, depositors) and deposit identifiers are
//! opaque handles, carried as plain `u64` values; the pool only ever compares
//! them for equality. Amounts are `i128` units of the pool's single
//! configured asset; exchange rates are fixed-point with scale
//! [`crate::math::SCALAR_12`].

use crate::alist;
use crate::math::{
    fee_of, fee_split, gross_withdrawal_of, interest_of, lemma_reward_within_pool, reward_of,
    to_principal_units, to_yield_units, yield_units_of, BASIS_POINTS, SCALAR_12,
};
use vstd::prelude::*;

verus! {

broadcast use vstd::seq_lib::lemma_seq_contains_after_push;

/// One record per active deposit, created by `deposit`, never mutated, and
/// deleted by `withdraw`.
#[derive(Clone, Copy, Debug, PartialEq, Eq, Structural)]
pub struct Position {
    /// The identity that may withdraw the deposit.
    pub owner: u64,
    /// Deposited units of the configured asset; always positive.
    pub principal_amount: i128,
    /// Absolute time at which the lock matures.
    pub finalization_time: u64,
    /// The lock duration chosen at deposit time; selects the reward bucket.
    pub lock_period: u64,
    /// The venue's exchange rate captured at deposit time; always positive.
    pub entry_exchange_rate: i128,
}

/// Per-lock-period aggregate: the bonus reward pool and the sum of principal
/// over the open positions of that period.
#[derive(Clone, Copy, Debug, PartialEq, Eq, Structural)]
pub struct Period {
    /// Bonus rewards available to mature withdrawals: admin injections plus
    /// interest forfeited by early withdrawals.
    pub reward_pool: i128,
    /// Sum of `principal_amount` over the open positions of this period.
    pub total_deposits: i128,
}

/// What a withdrawal settles to: the caller of the pool performs the two
/// transfers these amounts describe.
#[derive(Clone, Copy, Debug, PartialEq, Eq, Structural)]
pub struct WithdrawOutcome {
    /// Gross amount to pull back from the lending venue.
    pub amount_to_withdraw: i128,
    /// Amount owed to the position's owner.
    pub amount_to_transfer: i128,
    /// Bonus reward paid out of the period's pool; zero on the early path.
    pub reward: i128,
}

/// Every way an operation can be rejected. A rejection aborts the whole
/// operation: the pool is left exactly as it was.
#[derive(Clone, Copy, Debug, PartialEq, Eq, Structural)]
pub enum Error {
    /// `initialize` was called on an initialized pool.
    AlreadyInitialized,
    /// An administrator-gated operation was called by someone else.
    NotAuthorized,
    /// A deposit of a non-positive amount.
    InvalidAmount,
    /// A deposit under an identifier that is still active.
    DuplicateDeposit,
    /// A lock period that is not in the registry.
    UnsupportedPeriod,
    /// A withdrawal of an identifier with no active position.
    PositionNotFound,
    /// A withdrawal by someone other than the position's owner.
    NotPositionOwner,
    /// A proposed fee above the basis-point denominator, or below zero.
    InvalidFee,
    /// A lock period that is already in the registry.
    AlreadySupported,
    /// A position's bucket is missing: ledger corruption, unreachable while
    /// the pool is well-formed.
    MissingPeriodData,
}

/// The mathematical state of a pool: what the contracts speak of.
#[verifier::ext_equal]
pub struct PoolModel {
    /// Whether `initialize` has run.
    pub initialized: bool,
    /// The administrator identity, fixed at initialization.
    pub admin: u64,
    /// The configured asset, an opaque handle.
    pub asset: u64,
    /// The lending venue, an opaque handle.
    pub venue: u64,
    /// Early-withdrawal fee rate in basis points.
    pub fee_bps: int,
    /// Accumulated early-withdrawal fee revenue owed to the administrator.
    pub protocol_fees: int,
    /// The position ledger, keyed by deposit identifier.
    pub positions: Map<u64, Position>,
    /// The reward buckets, keyed by lock period.
    pub buckets: Map<u64, Period>,
    /// The lock-period registry.
    pub supported: Set<u64>,
}

/// A pool with the protocol fee account drained: what a fee claim leaves
/// behind.
pub open spec fn fees_claimed(m: PoolModel) -> PoolModel {
    PoolModel { protocol_fees: 0, ..m }
}

/// The bucket for a period, or a fresh zero bucket where none exists yet.
pub open spec fn bucket_or_new(m: PoolModel, period: u64) -> Period {
    if m.buckets.dom().contains(period) {
        m.buckets[period]
    } else {
        Period { reward_pool: 0, total_deposits: 0 }
    }
}

/// Sum of `principal_amount` over the ledger entries with the given lock
/// period.
pub open spec fn period_total(entries: Seq<(u64, Position)>, period: u64) -> int
    decreases entries.len(),
{
    if entries.len() == 0 {
        0
    } else {
        period_total(entries.drop_last(), period) + contribution(entries.last().1, period)
    }
}

/// What one position adds to its period's total.
pub open spec fn contribution(position: Position, period: u64) -> int {
    if position.lock_period == period {
        position.principal_amount as int
    } else {
        0
    }
}

/// Pushing an entry adds its contribution to every period's total.
proof fn lemma_period_total_push(entries: Seq<(u64, Position)>, entry: (u64, Position), period: u64)
    ensures
        period_total(entries.push(entry), period) == period_total(entries, period) + contribution(
            entry.1,
            period,
        ),
{
    assert(entries.push(entry).drop_last() =~= entries);
    assert(entries.push(entry).last() == entry);
}

/// Removing one entry subtracts its contribution from every period's total.
proof fn lemma_period_total_remove(entries: Seq<(u64, Position)>, i: int, period: u64)
    requires
        0 <= i < entries.len(),
    ensures
        period_total(entries.remove(i), period) == period_total(entries, period) - contribution(
            entries[i].1,
            period,
        ),
    decreases entries.len(),
{
    let last = entries.len() - 1;
    if i == last {
        assert(entries.remove(i) =~= entries.drop_last());
    } else {
        assert(entries.remove(i).drop_last() =~= entries.drop_last().remove(i));
        lemma_period_total_remove(entries.drop_last(), i, period);
        assert(entries.remove(i).last() == entries.last());
    }
}

/// With no negative principal on the ledger, no period's total is negative.
proof fn lemma_period_total_nonneg(entries: Seq<(u64, Position)>, period: u64)
    requires
        forall|i: int| 0 <= i < entries.len() ==> (#[trigger] entries[i]).1.principal_amount >= 0,
    ensures
        period_total(entries, period) >= 0,
    decreases entries.len(),
{
    if entries.len() > 0 {
        lemma_period_total_nonneg(entries.drop_last(), period);
    }
}

/// With no negative principal on the ledger, one entry's contribution is at
/// most its period's total.
proof fn lemma_contribution_le_period_total(entries: Seq<(u64, Position)>, i: int, period: u64)
    requires
        forall|j: int| 0 <= j < entries.len() ==> (#[trigger] entries[j]).1.principal_amount >= 0,
        0 <= i < entries.len(),
    ensures
        contribution(entries[i].1, period) <= period_total(entries, period),
    decreases entries.len(),
{
    let last = entries.len() - 1;
    if i == last {
        lemma_period_total_nonneg(entries.drop_last(), period);
    } else {
        lemma_contribution_le_period_total(entries.drop_last(), i, period);
        assert(entries.drop_last()[i] == entries[i]);
    }
}

/// With a period missing from the ledger, that period's total is zero.
proof fn lemma_period_total_absent(entries: Seq<(u64, Position)>, period: u64)
    requires
        forall|i: int| 0 <= i < entries.len() ==> (#[trigger] entries[i]).1.lock_period != period,
    ensures
        period_total(entries, period) == 0,
    decreases entries.len(),
{
    if entries.len() > 0 {
        lemma_period_total_absent(entries.drop_last(), period);
    }
}

/// Linear membership test on the lock-period registry.
fn contains_u64(values: &Vec<u64>, value: u64) -> (r: bool)
    ensures
        r == values@.contains(value),
{
    let mut i: usize = 0;
    while i < values.len()
        invariant
            i <= values.len(),
            forall|j: int| 0 <= j < i ==> values@[j] != value,
        decreases values.len() - i,
    {
        if values[i] == value {
            return true;
        }
        i = i + 1;
    }
    false
}

/// The gross amount a position pulls back from the venue at the current
/// exchange rate.
pub open spec fn spec_gross(position: Position, current_rate: i128) -> int {
    gross_withdrawal_of(
        position.principal_amount as int,
        position.entry_exchange_rate as int,
        current_rate as int,
    )
}

/// The interest a position has accrued at the current exchange rate.
pub open spec fn spec_interest(position: Position, current_rate: i128) -> int {
    interest_of(
        position.principal_amount as int,
        position.entry_exchange_rate as int,
        current_rate as int,
    )
}

/// What well-formedness guarantees for every open position: a positive
/// principal and entry rate, a registered lock period, and a bucket whose
/// reward pool is non-negative and whose `total_deposits` — being the exact
/// sum of open principal for the period — covers the position's own
/// principal.
pub proof fn lemma_wf_position_bucket(pool: VaquitaPool, deposit_id: u64)
    requires
        pool.wf(),
        pool@.positions.dom().contains(deposit_id),
    ensures
        ({
            let pos = pool@.positions[deposit_id];
            &&& pos.principal_amount > 0
            &&& pos.entry_exchange_rate > 0
            &&& pool@.supported.contains(pos.lock_period)
            &&& pool@.buckets.dom().contains(pos.lock_period)
            &&& pool@.buckets[pos.lock_period].reward_pool >= 0
            &&& pos.principal_amount <= pool@.buckets[pos.lock_period].total_deposits
        }),
{
    alist::lemma_map_of_contains(pool.positions@, deposit_id);
    let i = choose|i: int| 0 <= i < pool.positions@.len() && (#[trigger] pool.positions@[i]).0
        == deposit_id;
    alist::lemma_map_of_index(pool.positions@, i);
    assert(pool.position_ok(pool.positions@[i].1));
    let pos = pool.positions@[i].1;
    alist::lemma_map_of_contains(pool.periods@, pos.lock_period);
    let j = choose|j: int| 0 <= j < pool.periods@.len() && (#[trigger] pool.periods@[j]).0
        == pos.lock_period;
    alist::lemma_map_of_index(pool.periods@, j);
    assert(pool.periods@[j].1.total_deposits == period_total(pool.positions@, pos.lock_period));
    assert forall|k: int|
        0 <= k < pool.positions@.len() implies (#[trigger] pool.positions@[k]).1.principal_amount
        >= 0 by {
        assert(pool.position_ok(pool.positions@[k].1));
    }
    lemma_contribution_le_period_total(pool.positions@, i, pos.lock_period);
}

/// The fixed-period yield pool: a single configured asset, a single
/// administrator, and one reward bucket per lock period.
pub struct VaquitaPool {
    initialized: bool,
    admin: u64,
    asset: u64,
    venue: u64,
    early_withdrawal_fee_bps: i128,
    protocol_fees: i128,
    positions: Vec<(u64, Position)>,
    periods: Vec<(u64, Period)>,
    supported_periods: Vec<u64>,
}

impl View for VaquitaPool {
    type V = PoolModel;

    closed spec fn view(&self) -> PoolModel {
        PoolModel {
            initialized: self.initialized,
            admin: self.admin,
            asset: self.asset,
            venue: self.venue,
            fee_bps: self.early_withdrawal_fee_bps as int,
            protocol_fees: self.protocol_fees as int,
            positions: alist::map_of(self.positions@),
            buckets: alist::map_of(self.periods@),
            supported: self.supported_periods@.to_set(),
        }
    }
}

impl VaquitaPool {
    /// The pool's internal invariant. Everything the ledgers promise: no
    /// repeated keys, positive principals and entry rates, every open
    /// position's period registered and carrying a bucket, every bucket's
    /// total equal to the sum of open principal for its period, no negative
    /// reward pool or fee balance, and a fee rate within the denominator.
    pub closed spec fn wf(self) -> bool {
        &&& alist::unique_keys(self.positions@)
        &&& alist::unique_keys(self.periods@)
        &&& self.supported_periods@.no_duplicates()
        &&& 0 <= self.early_withdrawal_fee_bps <= BASIS_POINTS
        &&& self.protocol_fees >= 0
        &&& forall|i: int|
            0 <= i < self.positions@.len() ==> self.position_ok((#[trigger] self.positions@[i]).1)
        &&& forall|j: int|
            0 <= j < self.periods@.len() ==> (#[trigger] self.periods@[j]).1.reward_pool >= 0
                && self.periods@[j].1.total_deposits == period_total(
                self.positions@,
                self.periods@[j].0,
            )
        &&& !self.initialized ==> self.positions@.len() == 0 && self.periods@.len() == 0
            && self.supported_periods@.len() == 0 && self.protocol_fees == 0
            && self.early_withdrawal_fee_bps == 0
    }

    /// What every position on the ledger satisfies.
    spec fn position_ok(self, position: Position) -> bool {
        &&& position.principal_amount > 0
        &&& position.entry_exchange_rate > 0
        &&& self.supported_periods@.contains(position.lock_period)
        &&& alist::map_of(self.periods@).dom().contains(position.lock_period)
    }

    /// Whether `initialize` has run.
    pub open spec fn is_initialized(self) -> bool {
        self@.initialized
    }

    /// The position under an identifier, if one is active.
    pub open spec fn spec_get_position(self, deposit_id: u64) -> Option<Position> {
        if self@.positions.dom().contains(deposit_id) {
            Some(self@.positions[deposit_id])
        } else {
            None
        }
    }

    /// The bucket under a lock period, if one has ever been touched.
    pub open spec fn spec_get_period_data(self, period: u64) -> Option<Period> {
        if self@.buckets.dom().contains(period) {
            Some(self@.buckets[period])
        } else {
            None
        }
    }

    /// Whether a deposit with these arguments is accepted: a positive
    /// amount, a fresh identifier, and a registered lock period.
    pub open spec fn deposit_allowed(self, deposit_id: u64, amount: i128, period: u64) -> bool {
        &&& amount > 0
        &&& !self@.positions.dom().contains(deposit_id)
        &&& self@.supported.contains(period)
    }

    /// An empty, uninitialized pool.
    pub fn new() -> (pool: VaquitaPool)
        ensures
            pool.wf(),
            !pool.is_initialized(),
            pool@.positions == Map::<u64, Position>::empty(),
            pool@.buckets == Map::<u64, Period>::empty(),
            pool@.supported == Set::<u64>::empty(),
            pool@.protocol_fees == 0,
            pool@.fee_bps == 0,
    {
        let pool = VaquitaPool {
            initialized: false,
            admin: 0,
            asset: 0,
            venue: 0,
            early_withdrawal_fee_bps: 0,
            protocol_fees: 0,
            positions: Vec::new(),
            periods: Vec::new(),
            supported_periods: Vec::new(),
        };
        proof {
            assert(pool@.supported =~= Set::<u64>::empty());
        }
        pool
    }

    /// The administrator gate: every owner-only operation begins here.
    fn require_owner(&self, caller: u64) -> (r: Result<(), Error>)
        ensures
            r == (if caller != self@.admin {
                Err::<(), Error>(Error::NotAuthorized)
            } else {
                Ok::<(), Error>(())
            }),
    {
        if caller != self.admin {
            Err(Error::NotAuthorized)
        } else {
            Ok(())
        }
    }

    /// Pro-rata reward for a principal amount against a bucket: zero when the
    /// bucket has no open deposits, else the truncating share
    /// `reward_pool * amount / total_deposits`.
    pub fn calculate_reward(period_data: &Period, amount: i128) -> (r: i128)
        requires
            period_data.reward_pool >= 0,
            period_data.total_deposits >= 0,
            amount >= 0,
            period_data.reward_pool * amount <= i128::MAX,
        ensures
            r == reward_of(
                period_data.reward_pool as int,
                amount as int,
                period_data.total_deposits as int,
            ),
            period_data.total_deposits == 0 ==> r == 0,
    {
        if period_data.total_deposits == 0 {
            return 0;
        }
        proof {
            vstd::arithmetic::mul::lemma_mul_nonnegative(
                period_data.reward_pool as int,
                amount as int,
            );
            vstd::arithmetic::div_mod::lemma_div_pos_is_pos(
                period_data.reward_pool * amount,
                period_data.total_deposits as int,
            );
            vstd::arithmetic::div_mod::lemma_div_is_ordered_by_denominator(
                period_data.reward_pool * amount,
                1,
                period_data.total_deposits as int,
            );
        }
        (period_data.reward_pool * amount) / period_data.total_deposits
    }

    /// Sets the early-withdrawal fee rate. Administrator-gated; a rate
    /// outside `[0, BASIS_POINTS]` is rejected as `InvalidFee`.
    pub fn update_early_withdrawal_fee(&mut self, caller: u64, new_fee: i128) -> (result: Result<
        (),
        Error,
    >)
        requires
            old(self).wf(),
            old(self).is_initialized(),
        ensures
            final(self).wf(),
            final(self).is_initialized(),
            result == (if caller != old(self)@.admin {
                Err::<(), Error>(Error::NotAuthorized)
            } else if new_fee < 0 || new_fee > BASIS_POINTS {
                Err::<(), Error>(Error::InvalidFee)
            } else {
                Ok::<(), Error>(())
            }),
            result is Err ==> *final(self) == *old(self),
            result is Ok ==> final(self)@ == (PoolModel { fee_bps: new_fee as int, ..old(self)@ }),
    {
        if let Err(e) = self.require_owner(caller) {
            return Err(e);
        }
        if new_fee < 0 || new_fee > BASIS_POINTS {
            return Err(Error::InvalidFee);
        }
        self.early_withdrawal_fee_bps = new_fee;
        Ok(())
    }

    /// Drains the protocol fee account and reports the drained balance, which
    /// the caller transfers to the administrator; a zero balance is a no-op,
    /// not an error. Administrator-gated.
    pub fn withdraw_protocol_fees(&mut self, caller: u64) -> (result: Result<i128, Error>)
        requires
            old(self).wf(),
            old(self).is_initialized(),
        ensures
            final(self).wf(),
            final(self).is_initialized(),
            caller != old(self)@.admin ==> result == Err::<i128, Error>(Error::NotAuthorized)
                && *final(self) == *old(self),
            caller == old(self)@.admin ==> (result matches Ok(claimed) && claimed == old(
                self,
            )@.protocol_fees) && final(self)@ == fees_claimed(old(self)@),
    {
        if let Err(e) = self.require_owner(caller) {
            return Err(e);
        }
        let claimed = self.protocol_fees;
        self.protocol_fees = 0;
        proof {
            assert(self@ =~= fees_claimed(old(self)@));
        }
        Ok(claimed)
    }

    /// Configures a fresh pool: the administrator, the asset, the lending
    /// venue, and the initially supported lock periods. A second call is
    /// rejected as `AlreadyInitialized`.
    pub fn initialize(
        &mut self,
        admin: u64,
        asset: u64,
        venue_address: u64,
        lock_periods: &Vec<u64>,
    ) -> (result: Result<(), Error>)
        requires
            old(self).wf(),
        ensures
            final(self).wf(),
            result == (if old(self)@.initialized {
                Err::<(), Error>(Error::AlreadyInitialized)
            } else {
                Ok::<(), Error>(())
            }),
            result is Err ==> *final(self) == *old(self),
            result is Ok ==> final(self)@ == (PoolModel {
                initialized: true,
                admin: admin,
                asset: asset,
                venue: venue_address,
                fee_bps: 0,
                protocol_fees: 0,
                positions: Map::<u64, Position>::empty(),
                buckets: Map::<u64, Period>::empty(),
                supported: lock_periods@.to_set(),
            }),
    {
        if self.initialized {
            return Err(Error::AlreadyInitialized);
        }
        self.initialized = true;
        self.admin = admin;
        self.asset = asset;
        self.venue = venue_address;
        self.early_withdrawal_fee_bps = 0;
        self.protocol_fees = 0;
        let ghost orig = *old(self);
        let mut k: usize = 0;
        while k < lock_periods.len()
            invariant
                k <= lock_periods.len(),
                self.supported_periods@.no_duplicates(),
                forall|p: u64| #[trigger]
                    self.supported_periods@.contains(p) <==> lock_periods@.take(
                        k as int,
                    ).contains(p),
                self.initialized,
                self.admin == admin,
                self.asset == asset,
                self.venue == venue_address,
                self.early_withdrawal_fee_bps == 0,
                self.protocol_fees == 0,
                self.positions@ == orig.positions@,
                self.periods@ == orig.periods@,
            decreases lock_periods.len() - k,
        {
            let lp = lock_periods[k];
            proof {
                assert(lock_periods@.take(k + 1 as int) =~= lock_periods@.take(k as int).push(
                    lock_periods@[k as int],
                ));
            }
            if !contains_u64(&self.supported_periods, lp) {
                self.supported_periods.push(lp);
            }
            k = k + 1;
        }
        proof {
            assert(lock_periods@.take(lock_periods@.len() as int) =~= lock_periods@);
            assert(self@.supported =~= lock_periods@.to_set());
            assert(self@ =~= (PoolModel {
                initialized: true,
                admin: admin,
                asset: asset,
                venue: venue_address,
                fee_bps: 0,
                protocol_fees: 0,
                positions: Map::<u64, Position>::empty(),
                buckets: Map::<u64, Period>::empty(),
                supported: lock_periods@.to_set(),
            }));
        }
        Ok(())
    }

    /// Registers one more supported lock period. Administrator-gated; a
    /// period already in the registry is rejected as `AlreadySupported`.
    /// There is no removal: positions opened under a period must always find
    /// it again.
    pub fn add_lock_period(&mut self, caller: u64, new_lock_period: u64) -> (result: Result<
        (),
        Error,
    >)
        requires
            old(self).wf(),
            old(self).is_initialized(),
        ensures
            final(self).wf(),
            final(self).is_initialized(),
            result == (if caller != old(self)@.admin {
                Err::<(), Error>(Error::NotAuthorized)
            } else if old(self)@.supported.contains(new_lock_period) {
                Err::<(), Error>(Error::AlreadySupported)
            } else {
                Ok::<(), Error>(())
            }),
            result is Err ==> *final(self) == *old(self),
            result is Ok ==> final(self)@ == (PoolModel {
                supported: old(self)@.supported.insert(new_lock_period),
                ..old(self)@
            }),
    {
        if let Err(e) = self.require_owner(caller) {
            return Err(e);
        }
        if contains_u64(&self.supported_periods, new_lock_period) {
            return Err(Error::AlreadySupported);
        }
        self.supported_periods.push(new_lock_period);
        proof {
            assert(self@.supported =~= old(self)@.supported.insert(new_lock_period));
            assert(self@ =~= (PoolModel {
                supported: old(self)@.supported.insert(new_lock_period),
                ..old(self)@
            }));
            assert forall|i: int| 0 <= i < self.positions@.len() implies self.position_ok(
                (#[trigger] self.positions@[i]).1,
            ) by {
                assert(old(self).position_ok(old(self).positions@[i].1));
            }
        }
        Ok(())
    }

    /// Credits bonus rewards to a period's bucket, creating the bucket if the
    /// period has not been touched yet; the caller first pulls the same
    /// amount from the administrator into the pool's custody.
    /// Administrator-gated; an unregistered period is rejected as
    /// `UnsupportedPeriod`.
    pub fn add_rewards(&mut self, caller: u64, period: u64, reward_amount: i128) -> (result: Result<
        (),
        Error,
    >)
        requires
            old(self).wf(),
            old(self).is_initialized(),
            caller == old(self)@.admin ==> reward_amount >= 0,
            caller == old(self)@.admin && old(self)@.supported.contains(period) ==> bucket_or_new(
                old(self)@,
                period,
            ).reward_pool + reward_amount <= i128::MAX,
        ensures
            final(self).wf(),
            final(self).is_initialized(),
            result == (if caller != old(self)@.admin {
                Err::<(), Error>(Error::NotAuthorized)
            } else if !old(self)@.supported.contains(period) {
                Err::<(), Error>(Error::UnsupportedPeriod)
            } else {
                Ok::<(), Error>(())
            }),
            result is Err ==> *final(self) == *old(self),
            result is Ok ==> final(self)@ == (PoolModel {
                buckets: old(self)@.buckets.insert(
                    period,
                    (Period {
                        reward_pool: (bucket_or_new(old(self)@, period).reward_pool
                            + reward_amount) as i128,
                        total_deposits: bucket_or_new(old(self)@, period).total_deposits,
                    }),
                ),
                ..old(self)@
            }),
    {
        if let Err(e) = self.require_owner(caller) {
            return Err(e);
        }
        if !contains_u64(&self.supported_periods, period) {
            return Err(Error::UnsupportedPeriod);
        }
        match alist::find(&self.periods, period) {
            Some(i) => {
                proof {
                    alist::lemma_map_of_index(self.periods@, i as int);
                }
                let bucket = self.periods[i].1;
                let credited = Period {
                    reward_pool: bucket.reward_pool + reward_amount,
                    total_deposits: bucket.total_deposits,
                };
                self.periods[i] = (period, credited);
                proof {
                    alist::lemma_map_of_update(old(self).periods@, i as int, credited);
                    assert(self@.buckets =~= old(self)@.buckets.insert(period, credited));
                    assert(self@ =~= (PoolModel {
                        buckets: old(self)@.buckets.insert(period, credited),
                        ..old(self)@
                    }));
                }
            },
            None => {
                proof {
                    alist::lemma_map_of_contains(self.periods@, period);
                }
                let opened = Period { reward_pool: reward_amount, total_deposits: 0 };
                self.periods.push((period, opened));
                proof {
                    alist::lemma_map_of_push(old(self).periods@, period, opened);
                    alist::lemma_unique_keys_push(old(self).periods@, period, opened);
                    assert forall|i: int|
                        0 <= i < old(self).positions@.len() implies (#[trigger] old(
                        self,
                    ).positions@[i]).1.lock_period != period by {
                        assert(old(self).position_ok(old(self).positions@[i].1));
                    }
                    lemma_period_total_absent(self.positions@, period);
                    assert forall|i: int| 0 <= i < self.positions@.len() implies self.position_ok(
                        (#[trigger] self.positions@[i]).1,
                    ) by {
                        assert(old(self).position_ok(old(self).positions@[i].1));
                    }
                    assert(self@.buckets =~= old(self)@.buckets.insert(period, opened));
                    assert(self@ =~= (PoolModel {
                        buckets: old(self)@.buckets.insert(period, opened),
                        ..old(self)@
                    }));
                }
            },
        }
        Ok(())
    }

    /// Opens a position: validates the arguments, records the position under
    /// the identifier with the venue's entry exchange rate and a maturity of
    /// `now + period`, and adds the amount to the period's bucket total
    /// (opening the bucket with an empty reward pool if the period has never
    /// been touched). The caller has already moved `amount` into the pool's
    /// custody and supplied it to the venue; `now` is the current ledger
    /// time and `entry_exchange_rate` the venue's rate read after the supply.
    pub fn deposit(
        &mut self,
        caller: u64,
        deposit_id: u64,
        amount: i128,
        period: u64,
        now: u64,
        entry_exchange_rate: i128,
    ) -> (result: Result<(), Error>)
        requires
            old(self).wf(),
            old(self).is_initialized(),
            entry_exchange_rate > 0,
            old(self).deposit_allowed(deposit_id, amount, period) ==> now + period <= u64::MAX
                && bucket_or_new(old(self)@, period).total_deposits + amount <= i128::MAX,
        ensures
            final(self).wf(),
            final(self).is_initialized(),
            result == (if amount <= 0 {
                Err::<(), Error>(Error::InvalidAmount)
            } else if old(self)@.positions.dom().contains(deposit_id) {
                Err::<(), Error>(Error::DuplicateDeposit)
            } else if !old(self)@.supported.contains(period) {
                Err::<(), Error>(Error::UnsupportedPeriod)
            } else {
                Ok::<(), Error>(())
            }),
            result is Err ==> *final(self) == *old(self),
            result is Ok ==> final(self)@ == (PoolModel {
                positions: old(self)@.positions.insert(
                    deposit_id,
                    (Position {
                        owner: caller,
                        principal_amount: amount,
                        finalization_time: (now + period) as u64,
                        lock_period: period,
                        entry_exchange_rate: entry_exchange_rate,
                    }),
                ),
                buckets: old(self)@.buckets.insert(
                    period,
                    (Period {
                        reward_pool: bucket_or_new(old(self)@, period).reward_pool,
                        total_deposits: (bucket_or_new(old(self)@, period).total_deposits
                            + amount) as i128,
                    }),
                ),
                ..old(self)@
            }),
            result is Ok ==> (final(self).spec_get_position(deposit_id) matches Some(p) && p.owner
                == caller && p.principal_amount == amount && p.lock_period == period),
            result is Ok ==> final(self)@.buckets[period].total_deposits == bucket_or_new(
                old(self)@,
                period,
            ).total_deposits + amount,
    {
        if amount <= 0 {
            return Err(Error::InvalidAmount);
        }
        proof {
            alist::lemma_map_of_contains(self.positions@, deposit_id);
        }
        if alist::find(&self.positions, deposit_id).is_some() {
            return Err(Error::DuplicateDeposit);
        }
        if !contains_u64(&self.supported_periods, period) {
            return Err(Error::UnsupportedPeriod);
        }
        assert(old(self).deposit_allowed(deposit_id, amount, period));
        let finalization_time = now + period;
        let position = Position {
            owner: caller,
            principal_amount: amount,
            finalization_time,
            lock_period: period,
            entry_exchange_rate,
        };
        self.positions.push((deposit_id, position));
        proof {
            alist::lemma_map_of_push(old(self).positions@, deposit_id, position);
            alist::lemma_unique_keys_push(old(self).positions@, deposit_id, position);
            assert forall|q: u64|
                period_total(self.positions@, q) == period_total(old(self).positions@, q)
                    + contribution(position, q) by {
                lemma_period_total_push(old(self).positions@, (deposit_id, position), q);
            }
            assert forall|i: int|
                0 <= i < old(self).positions@.len() implies (#[trigger] old(
                self,
            ).positions@[i]).1.principal_amount >= 0 by {
                assert(old(self).position_ok(old(self).positions@[i].1));
            }
            lemma_period_total_nonneg(old(self).positions@, period);
        }
        match alist::find(&self.periods, period) {
            Some(i) => {
                proof {
                    alist::lemma_map_of_index(self.periods@, i as int);
                }
                let bucket = self.periods[i].1;
                let grown = Period {
                    reward_pool: bucket.reward_pool,
                    total_deposits: bucket.total_deposits + amount,
                };
                self.periods[i] = (period, grown);
                proof {
                    alist::lemma_map_of_update(old(self).periods@, i as int, grown);
                    assert(self@.buckets =~= old(self)@.buckets.insert(period, grown));
                    assert forall|k: int| 0 <= k < self.positions@.len() implies self.position_ok(
                        (#[trigger] self.positions@[k]).1,
                    ) by {
                        if k < old(self).positions@.len() {
                            assert(old(self).position_ok(old(self).positions@[k].1));
                        }
                    }
                    assert(self@ =~= (PoolModel {
                        positions: old(self)@.positions.insert(deposit_id, position),
                        buckets: old(self)@.buckets.insert(period, grown),
                        ..old(self)@
                    }));
                }
            },
            None => {
                proof {
                    alist::lemma_map_of_contains(self.periods@, period);
                    assert forall|k: int|
                        0 <= k < old(self).positions@.len() implies (#[trigger] old(
                        self,
                    ).positions@[k]).1.lock_period != period by {
                        assert(old(self).position_ok(old(self).positions@[k].1));
                    }
                    lemma_period_total_absent(old(self).positions@, period);
                }
                let opened = Period { reward_pool: 0, total_deposits: amount };
                self.periods.push((period, opened));
                proof {
                    alist::lemma_map_of_push(old(self).periods@, period, opened);
                    alist::lemma_unique_keys_push(old(self).periods@, period, opened);
                    assert(self@.buckets =~= old(self)@.buckets.insert(period, opened));
                    assert forall|k: int| 0 <= k < self.positions@.len() implies self.position_ok(
                        (#[trigger] self.positions@[k]).1,
                    ) by {
                        if k < old(self).positions@.len() {
                            assert(old(self).position_ok(old(self).positions@[k].1));
                        }
                    }
                    assert(self@ =~= (PoolModel {
                        positions: old(self)@.positions.insert(deposit_id, position),
                        buckets: old(self)@.buckets.insert(period, opened),
                        ..old(self)@
                    }));
                }
            },
        }
        Ok(())
    }

    /// The machine limits a withdrawal's arithmetic must fit in, for a pool
    /// holding a position under the identifier: every product and running
    /// balance stays within `i128`.
    pub open spec fn withdraw_arith_ok(self, deposit_id: u64, now: u64, current_rate: i128) -> bool {
        let pos = self@.positions[deposit_id];
        let p = pos.principal_amount as int;
        let interest = spec_interest(pos, current_rate);
        let bucket = bucket_or_new(self@, pos.lock_period);
        &&& p * (SCALAR_12 as int) <= i128::MAX
        &&& yield_units_of(p, pos.entry_exchange_rate as int) * (current_rate as int) <= i128::MAX
        &&& now < pos.finalization_time ==> {
            &&& interest * self@.fee_bps <= i128::MAX
            &&& self@.protocol_fees + fee_of(interest, self@.fee_bps) <= i128::MAX
            &&& bucket.reward_pool + (interest - fee_of(interest, self@.fee_bps)) <= i128::MAX
        }
        &&& now >= pos.finalization_time ==> {
            &&& bucket.reward_pool * p <= i128::MAX
            &&& spec_gross(pos, current_rate) + reward_of(
                bucket.reward_pool as int,
                p,
                bucket.total_deposits as int,
            ) <= i128::MAX
        }
    }

    /// What a successful withdrawal settles to: the early path pays the gross
    /// amount less all interest; the mature path pays the gross amount plus
    /// the pro-rata bucket reward.
    pub open spec fn withdraw_outcome_spec(
        self,
        deposit_id: u64,
        now: u64,
        current_rate: i128,
    ) -> WithdrawOutcome {
        let pos = self@.positions[deposit_id];
        let gross = spec_gross(pos, current_rate);
        let interest = spec_interest(pos, current_rate);
        let bucket = self@.buckets[pos.lock_period];
        if now < pos.finalization_time {
            WithdrawOutcome {
                amount_to_withdraw: gross as i128,
                amount_to_transfer: (gross - interest) as i128,
                reward: 0,
            }
        } else {
            let reward = reward_of(
                bucket.reward_pool as int,
                pos.principal_amount as int,
                bucket.total_deposits as int,
            );
            WithdrawOutcome {
                amount_to_withdraw: gross as i128,
                amount_to_transfer: (gross + reward) as i128,
                reward: reward as i128,
            }
        }
    }

    /// The pool a successful withdrawal leaves behind: the position is gone;
    /// its bucket's total shrinks by the principal; early, the fee share of
    /// the interest accrues to the protocol and the rest to the bucket's
    /// reward pool; mature, the paid reward leaves the reward pool.
    pub open spec fn withdrawn_model(self, deposit_id: u64, now: u64, current_rate: i128) -> PoolModel {
        let pos = self@.positions[deposit_id];
        let p = pos.principal_amount as int;
        let interest = spec_interest(pos, current_rate);
        let fee = fee_of(interest, self@.fee_bps);
        let bucket = self@.buckets[pos.lock_period];
        if now < pos.finalization_time {
            PoolModel {
                positions: self@.positions.remove(deposit_id),
                buckets: self@.buckets.insert(
                    pos.lock_period,
                    (Period {
                        reward_pool: (bucket.reward_pool + (interest - fee)) as i128,
                        total_deposits: (bucket.total_deposits - p) as i128,
                    }),
                ),
                protocol_fees: self@.protocol_fees + fee,
                ..self@
            }
        } else {
            let reward = reward_of(bucket.reward_pool as int, p, bucket.total_deposits as int);
            PoolModel {
                positions: self@.positions.remove(deposit_id),
                buckets: self@.buckets.insert(
                    pos.lock_period,
                    (Period {
                        reward_pool: (bucket.reward_pool - reward) as i128,
                        total_deposits: (bucket.total_deposits - p) as i128,
                    }),
                ),
                ..self@
            }
        }
    }

    /// Closes a position: the owner withdraws the whole deposit. The gross
    /// amount is pulled back from the venue at the current exchange rate;
    /// before maturity the owner receives it less all interest, which is
    /// split between the protocol fee account and the bucket's reward pool;
    /// at or after maturity the owner receives it plus a pro-rata share of
    /// the bucket's reward pool. The bucket's total shrinks by the principal
    /// and the position is deleted, freeing the identifier. The caller
    /// performs the venue withdrawal and the transfer the outcome describes;
    /// `now` is the current ledger time and `current_rate` the venue's rate.
    pub fn withdraw(
        &mut self,
        caller: u64,
        deposit_id: u64,
        now: u64,
        current_rate: i128,
    ) -> (result: Result<WithdrawOutcome, Error>)
        requires
            old(self).wf(),
            old(self).is_initialized(),
            current_rate > 0,
            old(self)@.positions.dom().contains(deposit_id) && old(
                self,
            )@.positions[deposit_id].owner == caller ==> old(self).withdraw_arith_ok(
                deposit_id,
                now,
                current_rate,
            ),
        ensures
            final(self).wf(),
            final(self).is_initialized(),
            result is Err ==> *final(self) == *old(self),
            !old(self)@.positions.dom().contains(deposit_id) ==> result == Err::<
                WithdrawOutcome,
                Error,
            >(Error::PositionNotFound),
            old(self)@.positions.dom().contains(deposit_id) && old(
                self,
            )@.positions[deposit_id].owner != caller ==> result == Err::<WithdrawOutcome, Error>(
                Error::NotPositionOwner,
            ),
            old(self)@.positions.dom().contains(deposit_id) && old(
                self,
            )@.positions[deposit_id].owner == caller ==> result == Ok::<WithdrawOutcome, Error>(
                old(self).withdraw_outcome_spec(deposit_id, now, current_rate),
            ) && final(self)@ == old(self).withdrawn_model(deposit_id, now, current_rate),
    {
        proof {
            alist::lemma_map_of_contains(self.positions@, deposit_id);
        }
        let pos_idx = match alist::find(&self.positions, deposit_id) {
            Some(i) => i,
            None => {
                return Err(Error::PositionNotFound);
            },
        };
        proof {
            alist::lemma_map_of_index(self.positions@, pos_idx as int);
        }
        let position = self.positions[pos_idx].1;
        if position.owner != caller {
            return Err(Error::NotPositionOwner);
        }
        proof {
            assert(self.position_ok((self.positions@[pos_idx as int]).1));
        }
        let b_tokens = to_yield_units(position.principal_amount, position.entry_exchange_rate);
        let amount_to_withdraw = to_principal_units(b_tokens, current_rate);
        let interest = if amount_to_withdraw - position.principal_amount > 0 {
            amount_to_withdraw - position.principal_amount
        } else {
            0
        };
        proof {
            alist::lemma_map_of_contains(self.periods@, position.lock_period);
        }
        let b_idx = match alist::find(&self.periods, position.lock_period) {
            Some(i) => i,
            None => {
                proof {
                    assert(false);
                }
                return Err(Error::MissingPeriodData);
            },
        };
        proof {
            alist::lemma_map_of_index(self.periods@, b_idx as int);
        }
        let bucket = self.periods[b_idx].1;
        proof {
            assert forall|j: int|
                0 <= j < self.positions@.len() implies (#[trigger] self.positions@[j]).1.principal_amount
                >= 0 by {
                assert(self.position_ok(self.positions@[j].1));
            }
            lemma_contribution_le_period_total(self.positions@, pos_idx as int, position.lock_period);
        }
        let settled: Period;
        let amount_to_transfer: i128;
        let reward: i128;
        if now < position.finalization_time {
            let (fee_amount, remaining_interest) = fee_split(
                interest,
                self.early_withdrawal_fee_bps,
            );
            self.protocol_fees = self.protocol_fees + fee_amount;
            settled = Period {
                reward_pool: bucket.reward_pool + remaining_interest,
                total_deposits: bucket.total_deposits - position.principal_amount,
            };
            amount_to_transfer = amount_to_withdraw - interest;
            reward = 0;
        } else {
            reward = Self::calculate_reward(&bucket, position.principal_amount);
            proof {
                lemma_reward_within_pool(
                    bucket.reward_pool as int,
                    position.principal_amount as int,
                    bucket.total_deposits as int,
                );
            }
            settled = Period {
                reward_pool: bucket.reward_pool - reward,
                total_deposits: bucket.total_deposits - position.principal_amount,
            };
            amount_to_transfer = amount_to_withdraw + reward;
        }
        let lock_period = position.lock_period;
        self.periods[b_idx] = (lock_period, settled);
        self.positions.remove(pos_idx);
        proof {
            alist::lemma_map_of_update(old(self).periods@, b_idx as int, settled);
            alist::lemma_map_of_remove(old(self).positions@, pos_idx as int);
            assert forall|q: u64|
                period_total(self.positions@, q) == period_total(old(self).positions@, q)
                    - contribution(position, q) by {
                lemma_period_total_remove(old(self).positions@, pos_idx as int, q);
            }
            assert forall|j: int|
                0 <= j < self.periods@.len() && j != b_idx implies (#[trigger] self.periods@[j]).0
                != lock_period by {
                assert(alist::unique_keys(old(self).periods@));
            }
            assert forall|k: int| 0 <= k < self.positions@.len() implies self.position_ok(
                (#[trigger] self.positions@[k]).1,
            ) by {
                let j: int = if k < pos_idx as int {
                    k
                } else {
                    k + 1
                };
                assert(self.positions@[k] == old(self).positions@[j]);
                assert(old(self).position_ok(old(self).positions@[j].1));
            }
            assert(self@ =~= old(self).withdrawn_model(deposit_id, now, current_rate));
        }
        Ok(WithdrawOutcome { amount_to_withdraw, amount_to_transfer, reward })
    }

    /// The position under an identifier, if one is active.
    pub fn get_position(&self, deposit_id: u64) -> (r: Option<Position>)
        requires
            self.wf(),
        ensures
            r == self.spec_get_position(deposit_id),
    {
        proof {
            alist::lemma_map_of_contains(self.positions@, deposit_id);
        }
        match alist::find(&self.positions, deposit_id) {
            Some(i) => {
                proof {
                    alist::lemma_map_of_index(self.positions@, i as int);
                }
                Some(self.positions[i].1)
            },
            None => None,
        }
    }

    /// The bucket under a lock period, if one has ever received a deposit or
    /// a reward.
    pub fn get_period_data(&self, period: u64) -> (r: Option<Period>)
        requires
            self.wf(),
        ensures
            r == self.spec_get_period_data(period),
    {
        proof {
            alist::lemma_map_of_contains(self.periods@, period);
        }
        match alist::find(&self.periods, period) {
            Some(i) => {
                proof {
                    alist::lemma_map_of_index(self.periods@, i as int);
                }
                Some(self.periods[i].1)
            },
            None => None,
        }
    }
}

} // verus!
