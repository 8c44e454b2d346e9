//! The records of the staking module and what each operation does to them.
//!
//! [`StakingStorage`] is the store handle that every operation takes. Its
//! view, [`StorageView`], is the mathematical state: maps keyed by the
//! characters of addresses. The operations of the engine are stated here as
//! functions from one such state to the next; the executable code in
//! [`crate::keeper`] is proved to compute them.

use crate::decimal::{Decimal, DECIMAL_FRACTIONAL};
use crate::ledger::{
    spec_share_of_rewards, spec_shares_for, spec_stake_value, Shares, ValidatorInfo,
    ValidatorInfoView,
};
use crate::rewards::spec_update_rewards;
use crate::table::Table;
use crate::types::{
    default_staking_info, CoinView, StakingError, StakingInfo, StakingInfoView, Timestamp,
    UnbondingEntry, UnbondingView, Validator, ValidatorView, NANOS_PER_SECOND,
};
use std::collections::VecDeque;
use vstd::prelude::*;

verus! {

/// The records of the staking module.
pub struct StakingStorage {
    /// The staking parameters, once they were set.
    pub staking_info: Option<StakingInfo>,
    /// The registered validators in the order of their registration.
    pub validators: Vec<Validator>,
    /// The registered validators by address.
    pub validator_map: Table<String, Validator>,
    /// The running state of each validator, by address.
    pub validator_info: Table<String, ValidatorInfo>,
    /// The shares of each delegator at each validator, by the pair of the
    /// delegator's and the validator's address.
    pub stakes: Table<(String, String), Shares>,
    /// The payouts that wait for the end of their unbonding time, oldest
    /// first.
    pub unbonding_queue: VecDeque<UnbondingEntry>,
}

/// The state of the staking module as a value.
pub struct StorageView {
    pub staking_info: Option<StakingInfoView>,
    pub validators: Seq<ValidatorView>,
    pub validator_map: Map<Seq<char>, ValidatorView>,
    pub validator_info: Map<Seq<char>, ValidatorInfoView>,
    pub stakes: Map<(Seq<char>, Seq<char>), Shares>,
    pub unbonding_queue: Seq<UnbondingView>,
}

impl View for StakingStorage {
    type V = StorageView;

    open spec fn view(&self) -> StorageView {
        StorageView {
            staking_info: match self.staking_info {
                Some(info) => Some(info@),
                None => None,
            },
            validators: self.validators@.map_values(|v: Validator| v@),
            validator_map: self.validator_map@,
            validator_info: self.validator_info@,
            stakes: self.stakes@,
            unbonding_queue: self.unbonding_queue@.map_values(|e: UnbondingEntry| e@),
        }
    }
}

impl StorageView {
    /// The state in which nothing was stored yet.
    pub open spec fn empty() -> StorageView {
        StorageView {
            staking_info: None,
            validators: Seq::empty(),
            validator_map: Map::empty(),
            validator_info: Map::empty(),
            stakes: Map::empty(),
            unbonding_queue: Seq::empty(),
        }
    }

    /// The staking parameters in force: those that were set, else the
    /// defaults.
    pub open spec fn params(self) -> StakingInfoView {
        match self.staking_info {
            Some(info) => info,
            None => default_staking_info(),
        }
    }

    /// The shares that `delegator` holds at `validator`; zero where there is
    /// no entry.
    pub open spec fn shares_of(self, delegator: Seq<char>, validator: Seq<char>) -> Decimal {
        if self.stakes.contains_key((delegator, validator)) {
            self.stakes[(delegator, validator)].0
        } else {
            Decimal { atomics: 0 }
        }
    }

    /// The running state of `validator`; that of a validator first seen at
    /// `now` where there is none.
    pub open spec fn info_or_fresh(self, validator: Seq<char>, now: Timestamp) -> ValidatorInfoView {
        if self.validator_info.contains_key(validator) {
            self.validator_info[validator]
        } else {
            ValidatorInfoView::fresh(now)
        }
    }

    /// Registration of `validator` at `now`.
    pub open spec fn add_validator(self, now: Timestamp, validator: ValidatorView) -> Result<
        StorageView,
        StakingError,
    > {
        if self.validator_map.contains_key(validator.address) {
            Err(StakingError::AlreadyExists)
        } else {
            Ok(
                StorageView {
                    validators: self.validators.push(validator),
                    validator_map: self.validator_map.insert(validator.address, validator),
                    validator_info: self.validator_info.insert(
                        validator.address,
                        ValidatorInfoView::fresh(now),
                    ),
                    ..self
                },
            )
        }
    }

    /// The checks that every coin to be staked or unstaked has to pass: it is
    /// of the bonded denomination, and it is not zero.
    pub open spec fn validate_coin(self, amount: CoinView) -> Result<(), StakingError> {
        if amount.denom != self.params().bonded_denom {
            Err(StakingError::WrongDenom)
        } else if amount.amount == 0 {
            Err(StakingError::ZeroAmount)
        } else {
            Ok(())
        }
    }

    /// The running state of `validator` after a checkpoint at `now`.
    pub open spec fn checkpoint(self, now: Timestamp, validator: Seq<char>) -> Result<
        ValidatorInfoView,
        StakingError,
    > {
        if !self.validator_map.contains_key(validator) {
            Err(StakingError::NotFound)
        } else {
            match spec_update_rewards(
                now,
                self.params().apr,
                self.info_or_fresh(validator, now),
                self.validator_map[validator].commission,
            ) {
                Some(info) => Ok(info),
                None => Err(StakingError::Fatal),
            }
        }
    }

    /// This state with the delegator's shares at the validator set to
    /// `shares` and the validator's state to `info`. A delegator left
    /// without shares loses the entry and leaves the validator's stakers;
    /// any other is among them.
    pub open spec fn with_stake(
        self,
        delegator: Seq<char>,
        validator: Seq<char>,
        shares: Decimal,
        info: ValidatorInfoView,
    ) -> StorageView {
        if shares.atomics == 0 {
            StorageView {
                stakes: self.stakes.remove((delegator, validator)),
                validator_info: self.validator_info.insert(
                    validator,
                    ValidatorInfoView { stakers: info.stakers.remove(delegator), ..info },
                ),
                ..self
            }
        } else {
            StorageView {
                stakes: self.stakes.insert((delegator, validator), Shares(shares)),
                validator_info: self.validator_info.insert(
                    validator,
                    ValidatorInfoView { stakers: info.stakers.insert(delegator), ..info },
                ),
                ..self
            }
        }
    }

    /// A change of `amount` tokens in what `delegator` has staked at
    /// `validator`: taken away where `sub` holds, else added.
    ///
    /// The validator's rewards are brought up to `now` first, so that the
    /// interest up to now is computed on the stake as it was. The amount is
    /// turned into shares at the price of that moment.
    ///
    /// Fails with `NotFound` where the validator is not registered, with
    /// `InsufficientStake` where shares are to be taken that the delegator
    /// does not hold, and with `Fatal` where a total leaves its range.
    pub open spec fn update_stake(
        self,
        now: Timestamp,
        delegator: Seq<char>,
        validator: Seq<char>,
        amount: u128,
        sub: bool,
    ) -> Result<StorageView, StakingError> {
        match self.checkpoint(now, validator) {
            Err(e) => Err(e),
            Ok(info) => match spec_shares_for(info.stake, info.total_shares, amount) {
                None => Err(StakingError::Fatal),
                Some(shares) => {
                    let held = self.shares_of(delegator, validator);
                    if sub {
                        if held.atomics < shares.atomics {
                            Err(StakingError::InsufficientStake)
                        } else if info.stake < amount || info.total_shares.atomics
                            < shares.atomics {
                            Err(StakingError::Fatal)
                        } else {
                            Ok(
                                self.with_stake(
                                    delegator,
                                    validator,
                                    Decimal { atomics: (held.atomics - shares.atomics) as u128 },
                                    ValidatorInfoView {
                                        stake: (info.stake - amount) as u128,
                                        total_shares: Decimal {
                                            atomics: (info.total_shares.atomics
                                                - shares.atomics) as u128,
                                        },
                                        ..info
                                    },
                                ),
                            )
                        }
                    } else {
                        if held.atomics + shares.atomics > u128::MAX || info.stake + amount
                            > u128::MAX || info.total_shares.atomics + shares.atomics
                            > u128::MAX {
                            Err(StakingError::Fatal)
                        } else {
                            Ok(
                                self.with_stake(
                                    delegator,
                                    validator,
                                    Decimal { atomics: (held.atomics + shares.atomics) as u128 },
                                    ValidatorInfoView {
                                        stake: (info.stake + amount) as u128,
                                        total_shares: Decimal {
                                            atomics: (info.total_shares.atomics
                                                + shares.atomics) as u128,
                                        },
                                        ..info
                                    },
                                ),
                            )
                        }
                    }
                },
            },
        }
    }

    /// Staking of `amount` by `delegator` at `validator`.
    pub open spec fn add_stake(
        self,
        now: Timestamp,
        delegator: Seq<char>,
        validator: Seq<char>,
        amount: CoinView,
    ) -> Result<StorageView, StakingError> {
        match self.validate_coin(amount) {
            Err(e) => Err(e),
            Ok(_) => self.update_stake(now, delegator, validator, amount.amount, false),
        }
    }

    /// Unstaking of `amount` by `delegator` at `validator`.
    pub open spec fn remove_stake(
        self,
        now: Timestamp,
        delegator: Seq<char>,
        validator: Seq<char>,
        amount: CoinView,
    ) -> Result<StorageView, StakingError> {
        match self.validate_coin(amount) {
            Err(e) => Err(e),
            Ok(_) => self.update_stake(now, delegator, validator, amount.amount, true),
        }
    }

    /// What `delegator` has staked at `validator`, in tokens at the current
    /// price of a share: nothing where either has no record.
    pub open spec fn get_stake(self, delegator: Seq<char>, validator: Seq<char>) -> Result<
        CoinView,
        StakingError,
    > {
        let amount = if self.stakes.contains_key((delegator, validator))
            && self.validator_info.contains_key(validator) {
            spec_stake_value(
                self.stakes[(delegator, validator)].0,
                self.validator_info[validator].stake,
                self.validator_info[validator].total_shares,
            )
        } else {
            Some(0u128)
        };
        match amount {
            Some(amount) => Ok(CoinView { denom: self.params().bonded_denom, amount }),
            None => Err(StakingError::Fatal),
        }
    }

    /// The rewards of a holder of `shares` at a validator in state `info`
    /// with commission `commission`, as of `now`: the holder's part of what
    /// the validator has accrued once it is checkpointed at `now`, in whole
    /// tokens. The fraction of a token is dropped at the very end and nowhere
    /// before.
    ///
    /// The checkpoint is the one that a change of stake or a withdrawal at
    /// `now` would make, only that it is not stored: interest since the last
    /// checkpoint counts once it amounts to a whole token, and not before.
    pub open spec fn rewards_at(
        self,
        now: Timestamp,
        shares: Decimal,
        commission: Decimal,
        info: ValidatorInfoView,
    ) -> Result<CoinView, StakingError> {
        match spec_update_rewards(now, self.params().apr, info, commission) {
            None => Err(StakingError::Fatal),
            Some(projected) => match spec_share_of_rewards(
                shares,
                projected.total_shares,
                projected.calculated_rewards,
            ) {
                None => Err(StakingError::Fatal),
                Some(part) => Ok(
                    CoinView {
                        denom: self.params().bonded_denom,
                        amount: part.atomics / DECIMAL_FRACTIONAL,
                    },
                ),
            },
        }
    }

    /// The rewards of `delegator` at `validator` as of `now`; `None` where
    /// the delegator holds no shares there.
    pub open spec fn get_rewards(self, now: Timestamp, delegator: Seq<char>, validator: Seq<char>) -> Result<
        Option<CoinView>,
        StakingError,
    > {
        if !self.validator_map.contains_key(validator) {
            Err(StakingError::NotFound)
        } else if !self.stakes.contains_key((delegator, validator)) {
            Ok(None)
        } else if !self.validator_info.contains_key(validator) {
            Err(StakingError::NotFound)
        } else {
            match self.rewards_at(
                now,
                self.stakes[(delegator, validator)].0,
                self.validator_map[validator].commission,
                self.validator_info[validator],
            ) {
                Ok(coin) => Ok(Some(coin)),
                Err(e) => Err(e),
            }
        }
    }

    /// The stake that is left of `stake` after `percentage` of it was
    /// slashed, rounded down.
    pub open spec fn slashed_stake(stake: u128, percentage: Decimal) -> u128 {
        (stake * (DECIMAL_FRACTIONAL - percentage.atomics) / DECIMAL_FRACTIONAL as int) as u128
    }

    /// Slashing of `validator` by `percentage`.
    ///
    /// The validator's stake shrinks and its shares stay, so every share is
    /// worth less. Where no stake is left, the validator's shares are void:
    /// the entries of its stakers go, and it is left without stakers and
    /// shares. The accrued rewards stay as they are.
    pub open spec fn slash(self, validator: Seq<char>, percentage: Decimal) -> Result<
        StorageView,
        StakingError,
    > {
        if percentage.atomics > DECIMAL_FRACTIONAL {
            Err(StakingError::InvalidPercentage)
        } else if !self.validator_info.contains_key(validator) {
            Err(StakingError::NotFound)
        } else {
            let info = self.validator_info[validator];
            let stake = Self::slashed_stake(info.stake, percentage);
            if stake == 0 {
                Ok(
                    StorageView {
                        stakes: self.stakes.remove_keys(
                            Set::new(
                                |k: (Seq<char>, Seq<char>)|
                                    k.1 == validator && info.stakers.contains(k.0),
                            ),
                        ),
                        validator_info: self.validator_info.insert(
                            validator,
                            ValidatorInfoView {
                                stake: 0,
                                stakers: Set::empty(),
                                total_shares: Decimal { atomics: 0 },
                                ..info
                            },
                        ),
                        ..self
                    },
                )
            } else {
                Ok(
                    StorageView {
                        validator_info: self.validator_info.insert(
                            validator,
                            ValidatorInfoView { stake, ..info },
                        ),
                        ..self
                    },
                )
            }
        }
    }

    /// The time at which tokens unbonded at `now` are paid out; `None` where
    /// that is past the last representable time.
    pub open spec fn payout_time(self, now: Timestamp) -> Option<Timestamp> {
        if now.nanos + self.params().unbonding_time * NANOS_PER_SECOND <= u64::MAX {
            Some(
                Timestamp {
                    nanos: (now.nanos + self.params().unbonding_time * NANOS_PER_SECOND) as u64,
                },
            )
        } else {
            None
        }
    }

    /// Unstaking of `amount` by `delegator` at `validator`, the tokens to be
    /// paid out once the unbonding time has passed.
    pub open spec fn undelegate(
        self,
        now: Timestamp,
        delegator: Seq<char>,
        validator: Seq<char>,
        amount: CoinView,
    ) -> Result<StorageView, StakingError> {
        match self.validate_coin(amount) {
            Err(e) => Err(e),
            Ok(_) => match self.payout_time(now) {
                None => Err(StakingError::Fatal),
                Some(payout_at) => match self.update_stake(
                    now,
                    delegator,
                    validator,
                    amount.amount,
                    true,
                ) {
                    Err(e) => Err(e),
                    Ok(next) => Ok(
                        StorageView {
                            unbonding_queue: next.unbonding_queue.push(
                                UnbondingView { delegator, payout_at, amount: amount.amount },
                            ),
                            ..next
                        },
                    ),
                },
            },
        }
    }

    /// The number of payouts at the head of the queue that are due at `now`:
    /// those before the first one that is not.
    pub open spec fn due_count(queue: Seq<UnbondingView>, now: Timestamp) -> nat
        decreases queue.len(),
    {
        if queue.len() > 0 && queue[0].payout_at.nanos <= now.nanos {
            1 + Self::due_count(queue.drop_first(), now)
        } else {
            0
        }
    }

    /// The state after the payouts that are due at `now` have left the
    /// queue.
    pub open spec fn process_queue(self, now: Timestamp) -> StorageView {
        StorageView {
            unbonding_queue: self.unbonding_queue.subrange(
                Self::due_count(self.unbonding_queue, now) as int,
                self.unbonding_queue.len() as int,
            ),
            ..self
        }
    }

    /// The payouts that are due at `now`, in the order in which they were
    /// queued.
    pub open spec fn due_payouts(self, now: Timestamp) -> Seq<UnbondingView> {
        self.unbonding_queue.subrange(0, Self::due_count(self.unbonding_queue, now) as int)
    }

    /// What withdrawing the rewards of `delegator` at `validator` at `now`
    /// leaves and pays: the validator is checkpointed, the delegator's part
    /// of the accrued rewards is taken out of them, and its whole tokens are
    /// paid.
    pub open spec fn withdraw_rewards(self, now: Timestamp, delegator: Seq<char>, validator: Seq<char>) -> Result<
        (StorageView, u128),
        StakingError,
    > {
        if !self.validator_info.contains_key(validator) || !self.validator_map.contains_key(
            validator,
        ) || !self.stakes.contains_key((delegator, validator)) {
            Err(StakingError::NotFound)
        } else {
            match self.checkpoint(now, validator) {
                Err(e) => Err(e),
                Ok(info) => match spec_share_of_rewards(
                    self.stakes[(delegator, validator)].0,
                    info.total_shares,
                    info.calculated_rewards,
                ) {
                    None => Err(StakingError::Fatal),
                    Some(part) => if part.atomics > info.calculated_rewards.atomics {
                        Err(StakingError::Fatal)
                    } else {
                        Ok(
                            (
                                StorageView {
                                    validator_info: self.validator_info.insert(
                                        validator,
                                        ValidatorInfoView {
                                            calculated_rewards: Decimal {
                                                atomics: (info.calculated_rewards.atomics
                                                    - part.atomics) as u128,
                                            },
                                            ..info
                                        },
                                    ),
                                    ..self
                                },
                                part.atomics / DECIMAL_FRACTIONAL,
                            ),
                        )
                    },
                },
            }
        }
    }
}

/// The number of due payouts at the head of a queue is the one position
/// before which all are due and at which the queue ends or a payout is not
/// due.
pub proof fn lemma_due_count(queue: Seq<UnbondingView>, now: Timestamp, n: int)
    requires
        0 <= n <= queue.len(),
        forall|i: int| 0 <= i < n ==> (#[trigger] queue[i]).payout_at.nanos <= now.nanos,
        n < queue.len() ==> queue[n].payout_at.nanos > now.nanos,
    ensures
        StorageView::due_count(queue, now) == n,
    decreases n,
{
    if n > 0 {
        let rest = queue.drop_first();
        assert forall|i: int| 0 <= i < n - 1 implies (#[trigger] rest[i]).payout_at.nanos
            <= now.nanos by {
            assert(rest[i] == queue[i + 1]);
        }
        if n - 1 < rest.len() {
            assert(rest[n - 1] == queue[n]);
        }
        lemma_due_count(rest, now, n - 1);
        assert(queue[0].payout_at.nanos <= now.nanos);
    }
}

impl StakingStorage {
    /// A store in which nothing was stored yet.
    pub fn new() -> (r: Self)
        ensures
            r@ == StorageView::empty(),
            r@.consistent(),
    {
        let r = StakingStorage {
            staking_info: None,
            validators: Vec::new(),
            validator_map: Table::new(),
            validator_info: Table::new(),
            stakes: Table::new(),
            unbonding_queue: VecDeque::new(),
        };
        assert(r@.validators =~= Seq::empty());
        assert(r@.unbonding_queue =~= Seq::empty());
        r
    }
}

} // verus!
