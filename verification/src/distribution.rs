//! The distribution module: it pays delegators the rewards that their stake
//! has earned.

use crate::keeper::StakeKeeper;
use crate::messages::{
    AppResponse, AppResponseView, BankMsg, BankMsgView, DistributionMsg, Empty, StakingEvent,
    StakingEventView,
};
use crate::invariants::withdraw_rewards_keeps_consistent;
use crate::reward_laws::withdrawal_pays_what_was_shown;
use crate::storage::StakingStorage;
use crate::types::{BlockInfo, Coin, CoinView, StakingError};
use vstd::prelude::*;

verus! {

/// What a successful withdrawal of `amount` tokens of `denom` by `sender` at
/// `validator` answers: the event, and the order to mint the tokens for the
/// sender.
pub open spec fn withdrawal_response(
    sender: Seq<char>,
    validator: Seq<char>,
    denom: Seq<char>,
    amount: u128,
) -> AppResponseView {
    AppResponseView {
        events: seq![
            StakingEventView::WithdrawDelegatorReward {
                validator,
                sender,
                amount: CoinView { denom, amount },
            },
        ],
        messages: seq![
            BankMsgView::Mint { to_address: sender, amount: CoinView { denom, amount } },
        ],
    }
}

/// The distribution module. It keeps no state of its own: rewards are part of
/// the staking module's records.
#[derive(Debug)]
pub struct DistributionKeeper {}

impl Default for DistributionKeeper {
    fn default() -> (r: Self)
        ensures
            r == (DistributionKeeper {  }),
    {
        DistributionKeeper {  }
    }
}

/// The modules that carry out the instructions of the distribution of
/// rewards.
pub trait Distribution {

}

impl Distribution for DistributionKeeper {

}

impl DistributionKeeper {
    /// The distribution module.
    pub fn new() -> (r: Self)
        ensures
            r == (DistributionKeeper {  }),
    {
        DistributionKeeper {  }
    }

    /// Realizes the rewards of `delegator` at `validator`: brings the
    /// validator's rewards up to the block's time, takes the delegator's part
    /// out of them and returns its whole tokens. These are the rewards that
    /// the query of the rewards shows in the same block.
    ///
    /// Fails with `NotFound` where the validator has no record or the
    /// delegator holds no shares of it, and with `Fatal` where the rewards
    /// cannot be computed. On `Err` nothing has changed.
    pub fn withdraw_rewards(
        &self,
        storage: &mut StakingStorage,
        block: &BlockInfo,
        delegator: &String,
        validator: &String,
    ) -> (r: Result<u128, StakingError>)
        ensures
            match old(storage)@.withdraw_rewards(block.time, delegator@, validator@) {
                Ok((next, paid)) => r == Ok::<u128, StakingError>(paid) && final(storage)@ == next,
                Err(e) => r == Err::<u128, StakingError>(e) && final(storage)@ == old(storage)@,
            },
            old(storage)@.consistent() ==> final(storage)@.consistent(),
            r is Ok ==> old(storage)@.get_rewards(block.time, delegator@, validator@) == Ok::<
                Option<CoinView>,
                StakingError,
            >(Some(CoinView { denom: old(storage)@.params().bonded_denom, amount: r->Ok_0 })),
    {
        let ghost before = storage@;
        let staking_info = StakeKeeper::get_staking_info(storage);
        let mut validator_info = match storage.validator_info.get(validator) {
            Some(info) => info.clone(),
            None => {
                return Err(StakingError::NotFound);
            },
        };
        let validator_obj = match storage.validator_map.get(validator) {
            Some(v) => v,
            None => {
                return Err(StakingError::NotFound);
            },
        };
        let key = (delegator.clone(), validator.clone());
        let shares = match storage.stakes.get(&key) {
            Some(shares) => *shares,
            None => {
                return Err(StakingError::NotFound);
            },
        };
        match StakeKeeper::update_rewards(block, &staking_info, &mut validator_info, validator_obj) {
            Ok(_) => {},
            Err(e) => {
                return Err(e);
            },
        }
        let rewards = match shares.rewards(&validator_info, validator_info.calculated_rewards) {
            Some(d) => d,
            None => {
                return Err(StakingError::Fatal);
            },
        };
        let left = match validator_info.calculated_rewards.checked_sub(rewards) {
            Some(d) => d,
            None => {
                return Err(StakingError::Fatal);
            },
        };
        validator_info.calculated_rewards = left;
        storage.validator_info.insert(validator.clone(), validator_info);
        proof {
            if before.consistent() {
                withdraw_rewards_keeps_consistent(before, block.time, delegator@, validator@);
            }
            withdrawal_pays_what_was_shown(before, block.time, delegator@, validator@);
        }
        Ok(rewards.to_uint_floor())
    }

    /// Carries out an instruction of `sender`.
    ///
    /// A withdrawal of rewards answers with the order to mint them for the
    /// sender, which the caller is to carry out. Any other instruction fails
    /// with `Unsupported`. On `Err` nothing has changed.
    pub fn execute(
        &self,
        storage: &mut StakingStorage,
        block: &BlockInfo,
        sender: String,
        msg: DistributionMsg,
    ) -> (r: Result<AppResponse, StakingError>)
        ensures
            match msg {
                DistributionMsg::WithdrawDelegatorReward {
                    validator,
                } => match old(storage)@.withdraw_rewards(block.time, sender@, validator@) {
                    Ok((next, paid)) => {
                        &&& final(storage)@ == next
                        &&& r is Ok
                        &&& r->Ok_0@ == withdrawal_response(
                            sender@,
                            validator@,
                            old(storage)@.params().bonded_denom,
                            paid,
                        )
                    },
                    Err(e) => final(storage)@ == old(storage)@ && r is Err && r->Err_0 == e,
                },
                _ => final(storage)@ == old(storage)@ && r is Err && r->Err_0
                    == StakingError::Unsupported,
            },
            old(storage)@.consistent() ==> final(storage)@.consistent(),
    {
        match msg {
            DistributionMsg::WithdrawDelegatorReward { validator } => {
                let staking_info = StakeKeeper::get_staking_info(storage);
                let rewards = match self.withdraw_rewards(storage, block, &sender, &validator) {
                    Ok(rewards) => rewards,
                    Err(e) => {
                        return Err(e);
                    },
                };
                let events = vec![
                    StakingEvent::WithdrawDelegatorReward {
                        validator,
                        sender: sender.clone(),
                        amount: Coin { denom: staking_info.bonded_denom.clone(), amount: rewards },
                    },
                ];
                let messages = vec![
                    BankMsg::Mint {
                        to_address: sender,
                        amount: Coin { denom: staking_info.bonded_denom, amount: rewards },
                    },
                ];
                let response = AppResponse { events, messages };
                let ghost wanted = withdrawal_response(
                    sender@,
                    validator@,
                    old(storage)@.params().bonded_denom,
                    rewards,
                );
                assert(response@.events =~= wanted.events);
                assert(response@.messages =~= wanted.messages);
                Ok(response)
            },
            _ => Err(StakingError::Unsupported),
        }
    }

    /// The distribution module takes no instructions of the chain.
    pub fn sudo(&self, storage: &mut StakingStorage, block: &BlockInfo, msg: Empty) -> (r: Result<
        AppResponse,
        StakingError,
    >)
        ensures
            r is Err,
            r->Err_0 == StakingError::Unsupported,
            final(storage)@ == old(storage)@,
    {
        Err(StakingError::Unsupported)
    }

    /// The distribution module answers no questions.
    pub fn query(&self, storage: &StakingStorage, block: &BlockInfo, request: Empty) -> (r: Result<
        AppResponse,
        StakingError,
    >)
        ensures
            r is Err,
            r->Err_0 == StakingError::Unsupported,
    {
        Err(StakingError::Unsupported)
    }
}

} // verus!
