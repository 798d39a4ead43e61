//! A fixed-period yield pool: deposits are locked for a chosen duration,
//! forwarded to an interest-bearing lending venue, and settled on withdrawal
//! with exchange-rate interest, period-scoped bonus rewards, and an
//! early-withdrawal penalty.

mod alist;
pub mod math;
mod pool;
pub mod laws;

pub use pool::bucket_or_new;
pub use pool::fees_claimed;
pub use pool::lemma_wf_position_bucket;
pub use pool::spec_gross;
pub use pool::spec_interest;
pub use pool::Error;
pub use pool::Period;
pub use pool::PoolModel;
pub use pool::Position;
pub use pool::VaquitaPool;
pub use pool::WithdrawOutcome;
