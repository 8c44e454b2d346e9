//! Simple interest on a validator's stake, net of the validator's commission.
//!
//! Interest accrues with time and is realized lazily: a checkpoint adds what
//! has accrued since the last checkpoint to the validator's rewards, but only
//! once it amounts to a whole token. Less than that stays unrealized and is
//! counted from the old checkpoint the next time.

use crate::decimal::{Decimal, DECIMAL_FRACTIONAL};
use crate::keeper::StakeKeeper;
use crate::ledger::{lemma_scaled_product, ValidatorInfo, ValidatorInfoView};
use crate::types::{BlockInfo, StakingError, StakingInfo, Timestamp, Validator};
use vstd::prelude::*;

verus! {

/// Seconds in a year of 365 days.
pub const SECONDS_PER_YEAR: u64 = 31_536_000;

/// The interest on `stake` at the yearly rate `apr` over `elapsed` seconds:
/// `stake * apr * elapsed / SECONDS_PER_YEAR`, rounded down to eighteen
/// digits. `None` where the stake is too large to be written as a decimal or
/// where the product of stake, rate and time is.
pub open spec fn spec_gross_reward(stake: u128, apr: Decimal, elapsed: int) -> Option<Decimal> {
    if stake * DECIMAL_FRACTIONAL <= u128::MAX && stake * apr.atomics * elapsed <= u128::MAX
        && stake * apr.atomics <= u128::MAX {
        Some(Decimal { atomics: (stake * apr.atomics * elapsed / SECONDS_PER_YEAR as int) as u128 })
    } else {
        None
    }
}

/// What is left of `gross` after the validator took its `commission`: the
/// commission is `gross * commission` rounded down, so the rest is rounded
/// up. `None` where the commission exceeds the whole.
pub open spec fn spec_net_reward(gross: Decimal, commission: Decimal) -> Option<Decimal> {
    let fee = gross.atomics * commission.atomics / DECIMAL_FRACTIONAL as int;
    if fee <= gross.atomics {
        Some(Decimal { atomics: (gross.atomics - fee) as u128 })
    } else {
        None
    }
}

/// The rewards that a validator's delegators earn between `since` and
/// `current_time`.
pub open spec fn spec_calculate_rewards(
    current_time: Timestamp,
    since: Timestamp,
    interest_rate: Decimal,
    validator_commission: Decimal,
    stake: u128,
) -> Option<Decimal> {
    match spec_gross_reward(stake, interest_rate, current_time.spec_seconds_since(since)) {
        Some(gross) => spec_net_reward(gross, validator_commission),
        None => None,
    }
}

/// A validator's state after a checkpoint at `now`.
///
/// Nothing changes unless `now` is later than the last checkpoint and the
/// rewards since then amount to a whole token; then they are added and the
/// checkpoint moves to `now`. `None` where the rewards cannot be computed or
/// added.
pub open spec fn spec_update_rewards(
    now: Timestamp,
    apr: Decimal,
    info: ValidatorInfoView,
    commission: Decimal,
) -> Option<ValidatorInfoView> {
    if info.last_rewards_calculation.nanos >= now.nanos {
        Some(info)
    } else {
        match spec_calculate_rewards(
            now,
            info.last_rewards_calculation,
            apr,
            commission,
            info.stake,
        ) {
            None => None,
            Some(new_rewards) => if new_rewards.atomics < DECIMAL_FRACTIONAL {
                Some(info)
            } else if info.calculated_rewards.atomics + new_rewards.atomics > u128::MAX {
                None
            } else {
                Some(
                    ValidatorInfoView {
                        last_rewards_calculation: now,
                        calculated_rewards: Decimal {
                            atomics: (info.calculated_rewards.atomics
                                + new_rewards.atomics) as u128,
                        },
                        ..info
                    },
                )
            },
        }
    }
}

impl StakeKeeper {
    /// Calculates the rewards that are due since the last calculation.
    pub fn calculate_rewards(
        current_time: Timestamp,
        since: Timestamp,
        interest_rate: Decimal,
        validator_commission: Decimal,
        stake: u128,
    ) -> (r: Option<Decimal>)
        ensures
            r == spec_calculate_rewards(
                current_time,
                since,
                interest_rate,
                validator_commission,
                stake,
            ),
    {
        let time_diff = current_time.seconds_since(&since);
        let ghost elapsed = time_diff as int;
        let ghost rate = interest_rate.atomics as int;
        let principal = match Decimal::from_ratio(stake, 1) {
            Some(d) => d,
            None => {
                return None;
            },
        };
        proof {
            lemma_scaled_product(stake as int, rate, 1);
            lemma_scaled_product(stake as int * rate, elapsed, SECONDS_PER_YEAR as int);
            assert(0 <= stake as int * rate) by (nonlinear_arith)
                requires
                    0 <= stake as int,
                    0 <= rate,
            ;
            assert(stake * rate <= stake * rate * elapsed || elapsed == 0) by (nonlinear_arith)
                requires
                    0 <= stake * rate,
                    0 <= elapsed,
            ;
        }
        let per_year = match principal.checked_mul(interest_rate) {
            Some(d) => d,
            None => {
                return None;
            },
        };
        let span = match Decimal::from_ratio(time_diff as u128, 1) {
            Some(d) => d,
            None => {
                return None;
            },
        };
        proof {
            assert((per_year.atomics as int * (elapsed * DECIMAL_FRACTIONAL as int)) == (stake as int
                * rate * DECIMAL_FRACTIONAL as int) * elapsed) by (nonlinear_arith)
                requires
                    per_year.atomics as int == stake as int * rate,
            ;
            lemma_scaled_product(stake as int * rate, elapsed, 1);
            assert((stake as int * rate * DECIMAL_FRACTIONAL as int) * elapsed == ((stake as int
                * rate) * DECIMAL_FRACTIONAL as int) * elapsed);
        }
        let accrued = match per_year.checked_mul(span) {
            Some(d) => d,
            None => {
                return None;
            },
        };
        let year = match Decimal::from_ratio(SECONDS_PER_YEAR as u128, 1) {
            Some(d) => d,
            None => {
                return None;
            },
        };
        let reward = match accrued.checked_div(year) {
            Some(d) => d,
            None => {
                return None;
            },
        };
        let commission = match reward.checked_mul(validator_commission) {
            Some(d) => d,
            None => {
                return None;
            },
        };
        reward.checked_sub(commission)
    }

    /// Brings the rewards of a validator up to `now`. This changes
    /// `validator_info` and does not store it. It is to be called before a
    /// validator's stake changes.
    ///
    /// On `Err` the state is as it was.
    pub fn update_rewards(
        block: &BlockInfo,
        staking_info: &StakingInfo,
        validator_info: &mut ValidatorInfo,
        validator: &Validator,
    ) -> (r: Result<(), StakingError>)
        ensures
            match spec_update_rewards(
                block.time,
                staking_info.apr,
                old(validator_info)@,
                validator.commission,
            ) {
                Some(info) => r == Ok::<(), StakingError>(()) && final(validator_info)@ == info,
                None => r == Err::<(), StakingError>(StakingError::Fatal) && final(validator_info)@
                    == old(validator_info)@,
            },
    {
        if !validator_info.last_rewards_calculation.is_before(&block.time) {
            return Ok(());
        }
        let new_rewards = match Self::calculate_rewards(
            block.time,
            validator_info.last_rewards_calculation,
            staking_info.apr,
            validator.commission,
            validator_info.stake,
        ) {
            Some(d) => d,
            None => {
                return Err(StakingError::Fatal);
            },
        };
        if new_rewards.atomics() >= DECIMAL_FRACTIONAL {
            match validator_info.calculated_rewards.checked_add(new_rewards) {
                Some(total) => {
                    validator_info.last_rewards_calculation = block.time;
                    validator_info.calculated_rewards = total;
                },
                None => {
                    return Err(StakingError::Fatal);
                },
            }
        }
        Ok(())
    }
}

} // verus!
