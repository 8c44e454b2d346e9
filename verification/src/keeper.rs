//! The staking keeper: registration of validators and the bookkeeping of
//! what delegators have staked with them.

use crate::decimal::{mul_ratio, Decimal, DECIMAL_FRACTIONAL};
use crate::ledger::{AddrSet, Shares, ValidatorInfo};
use crate::invariants::{
    add_validator_keeps_consistent, setup_keeps_consistent, slash_keeps_consistent,
    update_stake_keeps_consistent,
};
use crate::storage::{StakingStorage, StorageView};
use crate::types::{BlockInfo, Coin, StakingError, StakingInfo, Validator};
use vstd::prelude::*;

verus! {

/// The staking module. It owns the account that holds all staked tokens.
#[derive(Debug)]
pub struct StakeKeeper {
    /// The address of the account that holds the staked tokens.
    pub module_addr: String,
}

impl Default for StakeKeeper {
    fn default() -> (r: Self)
        ensures
            r.module_addr@ == "staking_module"@,
    {
        Self::new()
    }
}

impl StakeKeeper {
    /// The keeper whose tokens lie with the account `staking_module`.
    pub fn new() -> (r: Self)
        ensures
            r.module_addr@ == "staking_module"@,
    {
        StakeKeeper { module_addr: "staking_module".to_owned() }
    }

    /// Sets the staking parameters.
    pub fn setup(&self, storage: &mut StakingStorage, staking_info: StakingInfo) -> (r: Result<
        (),
        StakingError,
    >)
        ensures
            r is Ok,
            final(storage)@ == (StorageView {
                staking_info: Some(staking_info@),
                ..old(storage)@
            }),
            old(storage)@.consistent() ==> final(storage)@.consistent(),
    {
        proof {
            if storage@.consistent() {
                setup_keeps_consistent(storage@, staking_info@);
            }
        }
        storage.staking_info = Some(staking_info);
        Ok(())
    }

    /// The staking parameters in force: those that were set, else the
    /// defaults.
    pub fn get_staking_info(storage: &StakingStorage) -> (r: StakingInfo)
        ensures
            r@ == storage@.params(),
    {
        match &storage.staking_info {
            Some(info) => info.clone(),
            None => StakingInfo {
                bonded_denom: "TOKEN".to_owned(),
                unbonding_time: 60,
                apr: Decimal::percent(10),
            },
        }
    }

    /// Registers a validator, which can then be staked with.
    ///
    /// Fails where a validator with that address is registered already, and
    /// then changes nothing.
    pub fn add_validator(
        &self,
        storage: &mut StakingStorage,
        block: &BlockInfo,
        validator: Validator,
    ) -> (r: Result<(), StakingError>)
        ensures
            match old(storage)@.add_validator(block.time, validator@) {
                Ok(next) => r == Ok::<(), StakingError>(()) && final(storage)@ == next,
                Err(e) => r == Err::<(), StakingError>(e) && final(storage)@ == old(storage)@,
            },
            old(storage)@.consistent() ==> final(storage)@.consistent(),
    {
        if storage.validator_map.contains_key(&validator.address) {
            return Err(StakingError::AlreadyExists);
        }
        let ghost before = storage@;
        proof {
            if before.consistent() {
                add_validator_keeps_consistent(before, block.time, validator@);
            }
        }
        let address = validator.address.clone();
        storage.validator_map.insert(address.clone(), validator.clone());
        storage.validator_info.insert(address, ValidatorInfo::new(block.time));
        storage.validators.push(validator);
        assert(storage@.validators =~= before.validators.push(validator@));
        Ok(())
    }

    /// The validator registered under `address`, if there is one.
    pub fn get_validator(&self, storage: &StakingStorage, address: &String) -> (r: Result<
        Option<Validator>,
        StakingError,
    >)
        ensures
            r is Ok,
            match r->Ok_0 {
                Some(v) => storage@.validator_map.contains_key(address@)
                    && v@ == storage@.validator_map[address@],
                None => !storage@.validator_map.contains_key(address@),
            },
    {
        match storage.validator_map.get(address) {
            Some(v) => Ok(Some(v.clone())),
            None => Ok(None),
        }
    }

    /// All registered validators, in the order of their registration.
    pub fn get_validators(&self, storage: &StakingStorage) -> (r: Result<
        Vec<Validator>,
        StakingError,
    >)
        ensures
            r is Ok,
            r->Ok_0@.map_values(|v: Validator| v@) == storage@.validators,
    {
        let mut out: Vec<Validator> = Vec::new();
        let mut i: usize = 0;
        while i < storage.validators.len()
            invariant
                i <= storage.validators.len(),
                out.len() == i,
                forall|j: int| 0 <= j < i ==> (#[trigger] out[j])@ == storage.validators[j]@,
            decreases storage.validators.len() - i,
        {
            out.push(storage.validators[i].clone());
            i += 1;
        }
        assert(out@.map_values(|v: Validator| v@) =~= storage@.validators);
        Ok(out)
    }

    /// Changes what `delegator` has staked at `validator` by `amount` tokens:
    /// takes them away where `sub` holds, else adds them.
    ///
    /// On `Err` nothing has changed.
    pub fn update_stake(
        &self,
        storage: &mut StakingStorage,
        block: &BlockInfo,
        delegator: &String,
        validator: &String,
        amount: u128,
        sub: bool,
    ) -> (r: Result<(), StakingError>)
        ensures
            match old(storage)@.update_stake(block.time, delegator@, validator@, amount, sub) {
                Ok(next) => r == Ok::<(), StakingError>(()) && final(storage)@ == next,
                Err(e) => r == Err::<(), StakingError>(e) && final(storage)@ == old(storage)@,
            },
            old(storage)@.consistent() ==> final(storage)@.consistent(),
    {
        let ghost before = storage@;
        let mut validator_info = match storage.validator_info.get(validator) {
            Some(info) => info.clone(),
            None => ValidatorInfo::new(block.time),
        };
        let key = (delegator.clone(), validator.clone());
        let held = match storage.stakes.get(&key) {
            Some(shares) => shares.0,
            None => Decimal::zero(),
        };
        let validator_obj = match storage.validator_map.get(validator) {
            Some(v) => v,
            None => {
                return Err(StakingError::NotFound);
            },
        };
        let staking_info = Self::get_staking_info(storage);
        match Self::update_rewards(block, &staking_info, &mut validator_info, validator_obj) {
            Ok(_) => {},
            Err(e) => {
                return Err(e);
            },
        }
        let shares = match validator_info.shares_for(amount) {
            Some(shares) => shares,
            None => {
                return Err(StakingError::Fatal);
            },
        };
        let remaining = if sub {
            let remaining = match held.checked_sub(shares) {
                Some(d) => d,
                None => {
                    return Err(StakingError::InsufficientStake);
                },
            };
            let stake = match validator_info.stake.checked_sub(amount) {
                Some(n) => n,
                None => {
                    return Err(StakingError::Fatal);
                },
            };
            let total_shares = match validator_info.total_shares.checked_sub(shares) {
                Some(d) => d,
                None => {
                    return Err(StakingError::Fatal);
                },
            };
            validator_info.stake = stake;
            validator_info.total_shares = total_shares;
            remaining
        } else {
            let remaining = match held.checked_add(shares) {
                Some(d) => d,
                None => {
                    return Err(StakingError::Fatal);
                },
            };
            let stake = match validator_info.stake.checked_add(amount) {
                Some(n) => n,
                None => {
                    return Err(StakingError::Fatal);
                },
            };
            let total_shares = match validator_info.total_shares.checked_add(shares) {
                Some(d) => d,
                None => {
                    return Err(StakingError::Fatal);
                },
            };
            validator_info.stake = stake;
            validator_info.total_shares = total_shares;
            remaining
        };
        if remaining.is_zero() {
            storage.stakes.remove(&key);
            validator_info.stakers.remove(delegator);
        } else {
            storage.stakes.insert(key, Shares(remaining));
            validator_info.stakers.insert(delegator.clone());
        }
        storage.validator_info.insert(validator.clone(), validator_info);
        proof {
            if before.consistent() {
                update_stake_keeps_consistent(
                    before,
                    block.time,
                    delegator@,
                    validator@,
                    amount,
                    sub,
                );
            }
        }
        Ok(())
    }

    /// Stakes `amount` for `to_address` at `validator`.
    ///
    /// Fails with `WrongDenom` where the coin is not of the bonded
    /// denomination, with `ZeroAmount` where it is zero, with `NotFound`
    /// where the validator is not registered, and with `Fatal` where a total
    /// leaves its range. On `Err` nothing has changed.
    pub fn add_stake(
        &self,
        storage: &mut StakingStorage,
        block: &BlockInfo,
        to_address: &String,
        validator: &String,
        amount: Coin,
    ) -> (r: Result<(), StakingError>)
        ensures
            match old(storage)@.add_stake(block.time, to_address@, validator@, amount@) {
                Ok(next) => r == Ok::<(), StakingError>(()) && final(storage)@ == next,
                Err(e) => r == Err::<(), StakingError>(e) && final(storage)@ == old(storage)@,
            },
            old(storage)@.consistent() ==> final(storage)@.consistent(),
    {
        match self.validate_denom(storage, &amount) {
            Ok(_) => {},
            Err(e) => {
                return Err(e);
            },
        }
        match self.validate_nonzero(&amount) {
            Ok(_) => {},
            Err(e) => {
                return Err(e);
            },
        }
        self.update_stake(storage, block, to_address, validator, amount.amount, false)
    }

    /// Takes `amount` out of what `from_address` has staked at `validator`.
    ///
    /// Fails as [`StakeKeeper::add_stake`] does, and with
    /// `InsufficientStake` where the delegator holds fewer shares than the
    /// amount is worth. On `Err` nothing has changed.
    pub fn remove_stake(
        &self,
        storage: &mut StakingStorage,
        block: &BlockInfo,
        from_address: &String,
        validator: &String,
        amount: Coin,
    ) -> (r: Result<(), StakingError>)
        ensures
            match old(storage)@.remove_stake(block.time, from_address@, validator@, amount@) {
                Ok(next) => r == Ok::<(), StakingError>(()) && final(storage)@ == next,
                Err(e) => r == Err::<(), StakingError>(e) && final(storage)@ == old(storage)@,
            },
            old(storage)@.consistent() ==> final(storage)@.consistent(),
    {
        match self.validate_denom(storage, &amount) {
            Ok(_) => {},
            Err(e) => {
                return Err(e);
            },
        }
        match self.validate_nonzero(&amount) {
            Ok(_) => {},
            Err(e) => {
                return Err(e);
            },
        }
        self.update_stake(storage, block, from_address, validator, amount.amount, true)
    }

    /// Stakes `amount` for `account` at `validator`, as at the start of a
    /// simulation.
    pub fn init_stake(
        &self,
        storage: &mut StakingStorage,
        block: &BlockInfo,
        account: &String,
        validator: &String,
        amount: Coin,
    ) -> (r: Result<(), StakingError>)
        ensures
            match old(storage)@.add_stake(block.time, account@, validator@, amount@) {
                Ok(next) => r == Ok::<(), StakingError>(()) && final(storage)@ == next,
                Err(e) => r == Err::<(), StakingError>(e) && final(storage)@ == old(storage)@,
            },
            old(storage)@.consistent() ==> final(storage)@.consistent(),
    {
        self.add_stake(storage, block, account, validator, amount)
    }

    /// What `account` has staked at `validator`, in tokens.
    pub fn get_stake(&self, storage: &StakingStorage, account: &String, validator: &String) -> (r:
        Result<Coin, StakingError>)
        ensures
            match storage@.get_stake(account@, validator@) {
                Ok(coin) => r is Ok && r->Ok_0@ == coin,
                Err(e) => r == Err::<Coin, StakingError>(e),
            },
    {
        let key = (account.clone(), validator.clone());
        let staking_info = Self::get_staking_info(storage);
        let amount = match storage.stakes.get(&key) {
            Some(shares) => match storage.validator_info.get(validator) {
                Some(info) => match shares.stake(info) {
                    Some(amount) => amount,
                    None => {
                        return Err(StakingError::Fatal);
                    },
                },
                None => 0,
            },
            None => 0,
        };
        Ok(Coin { denom: staking_info.bonded_denom, amount })
    }

    /// The rewards of the holder of `shares` at a validator, as of the
    /// block's time. The validator's state is read and not changed: the
    /// checkpoint at the block's time is made on a copy of it.
    pub fn get_rewards_internal(
        storage: &StakingStorage,
        block: &BlockInfo,
        shares: &Shares,
        validator: &Validator,
        validator_info: &ValidatorInfo,
    ) -> (r: Result<Coin, StakingError>)
        ensures
            match storage@.rewards_at(block.time, shares.0, validator.commission, validator_info@) {
                Ok(coin) => r is Ok && r->Ok_0@ == coin,
                Err(e) => r == Err::<Coin, StakingError>(e),
            },
    {
        let staking_info = Self::get_staking_info(storage);
        let mut projected = validator_info.clone();
        match Self::update_rewards(block, &staking_info, &mut projected, validator) {
            Ok(_) => {},
            Err(e) => {
                return Err(e);
            },
        }
        let delegator_rewards = match shares.rewards(&projected, projected.calculated_rewards) {
            Some(d) => d,
            None => {
                return Err(StakingError::Fatal);
            },
        };
        Ok(Coin { denom: staking_info.bonded_denom, amount: delegator_rewards.to_uint_floor() })
    }

    /// The rewards of `delegator` at `validator` as of the block's time;
    /// `None` where the delegator holds no shares there.
    ///
    /// Fails with `NotFound` where the validator is not registered.
    pub fn get_rewards(
        &self,
        storage: &StakingStorage,
        block: &BlockInfo,
        delegator: &String,
        validator: &String,
    ) -> (r: Result<Option<Coin>, StakingError>)
        ensures
            match storage@.get_rewards(block.time, delegator@, validator@) {
                Ok(Some(coin)) => r is Ok && r->Ok_0 is Some && r->Ok_0->Some_0@ == coin,
                Ok(None) => r is Ok && r->Ok_0 is None,
                Err(e) => r == Err::<Option<Coin>, StakingError>(e),
            },
    {
        let validator_obj = match storage.validator_map.get(validator) {
            Some(v) => v,
            None => {
                return Err(StakingError::NotFound);
            },
        };
        let key = (delegator.clone(), validator.clone());
        let shares = match storage.stakes.get(&key) {
            Some(shares) => shares,
            None => {
                return Ok(None);
            },
        };
        let validator_info = match storage.validator_info.get(validator) {
            Some(info) => info,
            None => {
                return Err(StakingError::NotFound);
            },
        };
        match Self::get_rewards_internal(storage, block, shares, validator_obj, validator_info) {
            Ok(coin) => Ok(Some(coin)),
            Err(e) => Err(e),
        }
    }

    /// Slashes `percentage` of the stake of `validator`.
    ///
    /// Fails with `InvalidPercentage` where the percentage is above one
    /// hundred percent and with `NotFound` where the validator has no state.
    /// On `Err` nothing has changed.
    pub fn slash(&self, storage: &mut StakingStorage, validator: &String, percentage: Decimal) -> (r:
        Result<(), StakingError>)
        ensures
            match old(storage)@.slash(validator@, percentage) {
                Ok(next) => r == Ok::<(), StakingError>(()) && final(storage)@ == next,
                Err(e) => r == Err::<(), StakingError>(e) && final(storage)@ == old(storage)@,
            },
            old(storage)@.consistent() ==> final(storage)@.consistent(),
    {
        match self.validate_percentage(percentage) {
            Ok(_) => {},
            Err(e) => {
                return Err(e);
            },
        }
        let mut validator_info = match storage.validator_info.get(validator) {
            Some(info) => info.clone(),
            None => {
                return Err(StakingError::NotFound);
            },
        };
        let ghost before = storage@;
        let ghost info = validator_info@;
        let remaining_percentage = Decimal::raw(DECIMAL_FRACTIONAL - percentage.atomics());
        proof {
            lemma_slash_fits(validator_info.stake as int, remaining_percentage.atomics as int);
        }
        let stake = match mul_ratio(
            validator_info.stake,
            remaining_percentage.atomics(),
            DECIMAL_FRACTIONAL,
        ) {
            Some(stake) => stake,
            None => {
                return Err(StakingError::Fatal);
            },
        };
        validator_info.stake = stake;
        if stake == 0 {
            let stakers = validator_info.stakers.to_vec();
            let mut i: usize = 0;
            proof {
                let none = Set::new(
                    |k: (Seq<char>, Seq<char>)|
                        k.1 == validator@ && exists|j: int|
                            0 <= j < 0 && (#[trigger] stakers[j])@ == k.0,
                );
                assert(before.stakes.remove_keys(none) =~= before.stakes);
            }
            while i < stakers.len()
                invariant
                    i <= stakers.len(),
                    storage@ == (StorageView {
                        stakes: before.stakes.remove_keys(
                            Set::new(
                                |k: (Seq<char>, Seq<char>)|
                                    k.1 == validator@ && exists|j: int|
                                        0 <= j < i && (#[trigger] stakers[j])@ == k.0,
                            ),
                        ),
                        ..before
                    }),
                decreases stakers.len() - i,
            {
                let key = (stakers[i].clone(), validator.clone());
                let ghost removed = Set::new(
                    |k: (Seq<char>, Seq<char>)|
                        k.1 == validator@ && exists|j: int|
                            0 <= j < i && (#[trigger] stakers[j])@ == k.0,
                );
                let ghost removed_next = Set::new(
                    |k: (Seq<char>, Seq<char>)|
                        k.1 == validator@ && exists|j: int|
                            0 <= j < i + 1 && (#[trigger] stakers[j])@ == k.0,
                );
                storage.stakes.remove(&key);
                proof {
                    assert(stakers[i as int]@ == key@.0);
                    assert(removed_next =~= removed.insert(key@));
                    assert(before.stakes.remove_keys(removed).remove(key@)
                        =~= before.stakes.remove_keys(removed_next));
                }
                i += 1;
            }
            proof {
                let removed = Set::new(
                    |k: (Seq<char>, Seq<char>)|
                        k.1 == validator@ && exists|j: int|
                            0 <= j < i && (#[trigger] stakers[j])@ == k.0,
                );
                let wanted = Set::new(
                    |k: (Seq<char>, Seq<char>)| k.1 == validator@ && info.stakers.contains(k.0),
                );
                assert(removed =~= wanted);
            }
            validator_info.stakers = AddrSet::new();
            validator_info.total_shares = Decimal::zero();
        }
        storage.validator_info.insert(validator.clone(), validator_info);
        proof {
            if before.consistent() {
                slash_keeps_consistent(before, validator@, percentage);
            }
        }
        Ok(())
    }

    /// Checks that `amount` is not zero.
    pub fn validate_nonzero(&self, amount: &Coin) -> (r: Result<(), StakingError>)
        ensures
            r == if amount.amount == 0 {
                Err::<(), StakingError>(StakingError::ZeroAmount)
            } else {
                Ok::<(), StakingError>(())
            },
    {
        if amount.amount == 0 {
            Err(StakingError::ZeroAmount)
        } else {
            Ok(())
        }
    }

    /// Checks that `amount` is of the bonded denomination.
    pub fn validate_denom(&self, storage: &StakingStorage, amount: &Coin) -> (r: Result<
        (),
        StakingError,
    >)
        ensures
            r == if amount.denom@ == storage@.params().bonded_denom {
                Ok::<(), StakingError>(())
            } else {
                Err::<(), StakingError>(StakingError::WrongDenom)
            },
    {
        let staking_info = Self::get_staking_info(storage);
        if amount.denom == staking_info.bonded_denom {
            Ok(())
        } else {
            Err(StakingError::WrongDenom)
        }
    }

    /// Checks that `percentage` is at most one hundred percent.
    pub fn validate_percentage(&self, percentage: Decimal) -> (r: Result<(), StakingError>)
        ensures
            r == if percentage.atomics <= DECIMAL_FRACTIONAL {
                Ok::<(), StakingError>(())
            } else {
                Err::<(), StakingError>(StakingError::InvalidPercentage)
            },
    {
        if percentage.atomics() <= DECIMAL_FRACTIONAL {
            Ok(())
        } else {
            Err(StakingError::InvalidPercentage)
        }
    }
}

/// A part of a stake is no more than the stake.
proof fn lemma_slash_fits(stake: int, remaining: int)
    requires
        0 <= stake,
        0 <= remaining <= DECIMAL_FRACTIONAL,
    ensures
        0 <= stake * remaining / (DECIMAL_FRACTIONAL as int) <= stake,
{
    assert(0 <= stake * remaining <= stake * DECIMAL_FRACTIONAL as int) by (nonlinear_arith)
        requires
            0 <= stake,
            0 <= remaining <= DECIMAL_FRACTIONAL,
    ;
    vstd::arithmetic::div_mod::lemma_div_is_ordered(
        stake * remaining,
        stake * DECIMAL_FRACTIONAL as int,
        DECIMAL_FRACTIONAL as int,
    );
    vstd::arithmetic::div_mod::lemma_div_by_multiple(stake, DECIMAL_FRACTIONAL as int);
    vstd::arithmetic::div_mod::lemma_div_pos_is_pos(stake * remaining, DECIMAL_FRACTIONAL as int);
}

} // verus!
