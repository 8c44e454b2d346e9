//! The staking module as its callers see it: instructions of delegators,
//! instructions of the chain, and queries.

use crate::invariants::{lemma_queue_is_free, process_queue_keeps_consistent};
use crate::keeper::StakeKeeper;
use crate::ledger::spec_stake_value;
use crate::messages::{
    AppResponse, AppResponseView, BankMsg, BankMsgView, Delegation, DelegationView,
    FullDelegation, FullDelegationView, StakingEvent, StakingEventView, StakingMsg, StakingQuery,
    StakingQueryResponse, StakingQueryResponseView, StakingSudo,
};
use crate::storage::{lemma_due_count, StakingStorage, StorageView};
use crate::types::{
    coin, BlockInfo, Coin, CoinView, StakingError, Timestamp, UnbondingEntry, UnbondingView,
};
use vstd::prelude::*;

verus! {

/// The transfer that pays out a waiting payout: from the module's account to
/// the delegator, in the bonded denomination.
pub open spec fn payout_message(
    module_addr: Seq<char>,
    denom: Seq<char>,
    entry: UnbondingView,
) -> BankMsgView {
    BankMsgView::Send {
        from_address: module_addr,
        to_address: entry.delegator,
        amount: CoinView { denom, amount: entry.amount },
    }
}

/// The state that an instruction of `sender` at `now` leaves, and whether it
/// succeeded.
///
/// A failed instruction leaves the state as it was, with one exception: a
/// redelegation whose second half fails has still taken the stake from the
/// source validator, and it is for the caller to discard that.
pub open spec fn execute_outcome(
    pre: StorageView,
    now: Timestamp,
    sender: Seq<char>,
    msg: StakingMsg,
) -> (StorageView, Result<(), StakingError>) {
    match msg {
        StakingMsg::Delegate { validator, amount } => match pre.add_stake(
            now,
            sender,
            validator@,
            amount@,
        ) {
            Ok(next) => (next, Ok(())),
            Err(e) => (pre, Err(e)),
        },
        StakingMsg::Undelegate { validator, amount } => match pre.undelegate(
            now,
            sender,
            validator@,
            amount@,
        ) {
            Ok(next) => (next, Ok(())),
            Err(e) => (pre, Err(e)),
        },
        StakingMsg::Redelegate { src_validator, dst_validator, amount } => match pre.remove_stake(
            now,
            sender,
            src_validator@,
            amount@,
        ) {
            Err(e) => (pre, Err(e)),
            Ok(mid) => match mid.add_stake(now, sender, dst_validator@, amount@) {
                Ok(next) => (next, Ok(())),
                Err(e) => (mid, Err(e)),
            },
        },
    }
}

/// What a successful instruction of `sender` answers: one event, and for a
/// delegation the transfer of the staked coin to the module's account.
pub open spec fn execute_response(
    module_addr: Seq<char>,
    sender: Seq<char>,
    msg: StakingMsg,
) -> AppResponseView {
    match msg {
        StakingMsg::Delegate { validator, amount } => AppResponseView {
            events: seq![
                StakingEventView::Delegate {
                    validator: validator@,
                    amount: amount@,
                    new_shares: amount.amount,
                },
            ],
            messages: seq![
                BankMsgView::Send {
                    from_address: sender,
                    to_address: module_addr,
                    amount: amount@,
                },
            ],
        },
        StakingMsg::Undelegate { validator, amount } => AppResponseView {
            events: seq![StakingEventView::Unbond { validator: validator@, amount: amount@ }],
            messages: seq![],
        },
        StakingMsg::Redelegate { src_validator, dst_validator, amount } => AppResponseView {
            events: seq![
                StakingEventView::Redelegate {
                    source_validator: src_validator@,
                    destination_validator: dst_validator@,
                    amount: amount@,
                },
            ],
            messages: seq![],
        },
    }
}

/// The answer to a question about the state `s` at `now`.
pub open spec fn query_answer(s: StorageView, now: Timestamp, request: StakingQuery) -> Result<
    StakingQueryResponseView,
    StakingError,
> {
    match request {
        StakingQuery::BondedDenom {  } => Ok(
            StakingQueryResponseView::BondedDenom { denom: s.params().bonded_denom },
        ),
        StakingQuery::AllDelegations { delegator } => if exists|i: int|
            0 <= i < s.validators.len() && s.get_stake(
                delegator@,
                (#[trigger] s.validators[i]).address,
            ) is Err {
            Err(StakingError::Fatal)
        } else {
            Ok(
                StakingQueryResponseView::AllDelegations {
                    delegations: Seq::new(
                        s.validators.len(),
                        |i: int|
                            DelegationView {
                                delegator: delegator@,
                                validator: s.validators[i].address,
                                amount: s.get_stake(delegator@, s.validators[i].address)->Ok_0,
                            },
                    ),
                },
            )
        },
        StakingQuery::Delegation { delegator, validator } => if !s.validator_map.contains_key(
            validator@,
        ) {
            Err(StakingError::NotFound)
        } else if !s.stakes.contains_key((delegator@, validator@)) {
            Ok(StakingQueryResponseView::Delegation { delegation: None })
        } else if !s.validator_info.contains_key(validator@) {
            Err(StakingError::NotFound)
        } else {
            let shares = s.stakes[(delegator@, validator@)].0;
            let info = s.validator_info[validator@];
            match spec_stake_value(shares, info.stake, info.total_shares) {
                None => Err(StakingError::Fatal),
                Some(stake) => match s.rewards_at(
                    now,
                    shares,
                    s.validator_map[validator@].commission,
                    info,
                ) {
                    Err(e) => Err(e),
                    Ok(reward) => Ok(
                        StakingQueryResponseView::Delegation {
                            delegation: Some(
                                FullDelegationView {
                                    delegator: delegator@,
                                    validator: validator@,
                                    amount: CoinView {
                                        denom: s.params().bonded_denom,
                                        amount: stake,
                                    },
                                    can_redelegate: CoinView { denom: "testcoin"@, amount: 0 },
                                    accumulated_rewards: seq![reward],
                                },
                            ),
                        },
                    ),
                },
            }
        },
        StakingQuery::AllValidators {  } => Ok(
            StakingQueryResponseView::AllValidators { validators: s.validators },
        ),
        StakingQuery::Validator { address } => Ok(
            StakingQueryResponseView::Validator {
                validator: if s.validator_map.contains_key(address@) {
                    Some(s.validator_map[address@])
                } else {
                    None
                },
            },
        ),
    }
}

/// The modules that carry out the instructions of staking.
pub trait Staking {

}

impl Staking for StakeKeeper {

}

impl StakeKeeper {
    /// Carries out an instruction of `sender`.
    ///
    /// A delegation answers with the transfer of the staked coin from the
    /// sender to the module's account, which the caller is to carry out.
    pub fn execute(
        &self,
        storage: &mut StakingStorage,
        block: &BlockInfo,
        sender: String,
        msg: StakingMsg,
    ) -> (r: Result<AppResponse, StakingError>)
        ensures
            final(storage)@ == execute_outcome(old(storage)@, block.time, sender@, msg).0,
            old(storage)@.consistent() ==> final(storage)@.consistent(),
            match execute_outcome(old(storage)@, block.time, sender@, msg).1 {
                Ok(_) => r is Ok && r->Ok_0@ == execute_response(self.module_addr@, sender@, msg),
                Err(e) => r is Err && r->Err_0 == e,
            },
    {
        match msg {
            StakingMsg::Delegate { validator, amount } => {
                let events = vec![
                    StakingEvent::Delegate {
                        validator: validator.clone(),
                        amount: amount.clone(),
                        new_shares: amount.amount,
                    },
                ];
                match self.add_stake(storage, block, &sender, &validator, amount.clone()) {
                    Ok(_) => {},
                    Err(e) => {
                        return Err(e);
                    },
                }
                let messages = vec![
                    BankMsg::Send {
                        from_address: sender,
                        to_address: self.module_addr.clone(),
                        amount,
                    },
                ];
                let response = AppResponse { events, messages };
                assert(response@.events =~= execute_response(
                    self.module_addr@,
                    sender@,
                    msg,
                ).events);
                assert(response@.messages =~= execute_response(
                    self.module_addr@,
                    sender@,
                    msg,
                ).messages);
                Ok(response)
            },
            StakingMsg::Undelegate { validator, amount } => {
                let events = vec![
                    StakingEvent::Unbond { validator: validator.clone(), amount: amount.clone() },
                ];
                match self.undelegate(storage, block, &sender, &validator, amount) {
                    Ok(_) => {},
                    Err(e) => {
                        return Err(e);
                    },
                }
                let response = AppResponse { events, messages: Vec::new() };
                assert(response@.events =~= execute_response(
                    self.module_addr@,
                    sender@,
                    msg,
                ).events);
                assert(response@.messages =~= execute_response(
                    self.module_addr@,
                    sender@,
                    msg,
                ).messages);
                Ok(response)
            },
            StakingMsg::Redelegate { src_validator, dst_validator, amount } => {
                let events = vec![
                    StakingEvent::Redelegate {
                        source_validator: src_validator.clone(),
                        destination_validator: dst_validator.clone(),
                        amount: amount.clone(),
                    },
                ];
                match self.remove_stake(storage, block, &sender, &src_validator, amount.clone()) {
                    Ok(_) => {},
                    Err(e) => {
                        return Err(e);
                    },
                }
                match self.add_stake(storage, block, &sender, &dst_validator, amount) {
                    Ok(_) => {},
                    Err(e) => {
                        return Err(e);
                    },
                }
                let response = AppResponse { events, messages: Vec::new() };
                assert(response@.events =~= execute_response(
                    self.module_addr@,
                    sender@,
                    msg,
                ).events);
                assert(response@.messages =~= execute_response(
                    self.module_addr@,
                    sender@,
                    msg,
                ).messages);
                Ok(response)
            },
        }
    }

    /// Carries out an instruction of the chain: a slashing, or the payout of
    /// what is due in the unbonding queue.
    ///
    /// A slashing fails as [`StakeKeeper::slash`] does and answers with
    /// nothing. The processing of the queue never fails and answers with the
    /// transfers that pay what was due.
    pub fn sudo(&self, storage: &mut StakingStorage, block: &BlockInfo, msg: StakingSudo) -> (r:
        Result<AppResponse, StakingError>)
        ensures
            old(storage)@.consistent() ==> final(storage)@.consistent(),
            match msg {
                StakingSudo::Slash { validator, percentage } => match old(storage)@.slash(
                    validator@,
                    percentage,
                ) {
                    Ok(next) => {
                        &&& final(storage)@ == next
                        &&& r is Ok
                        &&& r->Ok_0@ == (AppResponseView { events: seq![], messages: seq![] })
                    },
                    Err(e) => final(storage)@ == old(storage)@ && r is Err && r->Err_0 == e,
                },
                StakingSudo::ProcessQueue {  } => {
                    &&& final(storage)@ == old(storage)@.process_queue(block.time)
                    &&& r is Ok
                    &&& r->Ok_0@ == (AppResponseView {
                        events: seq![],
                        messages: old(storage)@.due_payouts(block.time).map_values(
                            |e: UnbondingView|
                                payout_message(
                                    self.module_addr@,
                                    old(storage)@.params().bonded_denom,
                                    e,
                                ),
                        ),
                    })
                },
            },
    {
        match msg {
            StakingSudo::Slash { validator, percentage } => {
                match self.slash(storage, &validator, percentage) {
                    Ok(_) => {},
                    Err(e) => {
                        return Err(e);
                    },
                }
                let response = AppResponse { events: Vec::new(), messages: Vec::new() };
                assert(response@.events =~= seq![]);
                assert(response@.messages =~= seq![]);
                Ok(response)
            },
            StakingSudo::ProcessQueue {  } => {
                let messages = self.process_queue(storage, block);
                let response = AppResponse { events: Vec::new(), messages };
                assert(response@.events =~= seq![]);
                Ok(response)
            },
        }
    }

    /// Answers a question about the state.
    pub fn query(&self, storage: &StakingStorage, block: &BlockInfo, request: StakingQuery) -> (r:
        Result<StakingQueryResponse, StakingError>)
        ensures
            match query_answer(storage@, block.time, request) {
                Ok(answer) => r is Ok && r->Ok_0@ == answer,
                Err(e) => r is Err && r->Err_0 == e,
            },
    {
        match request {
            StakingQuery::BondedDenom {  } => Ok(
                StakingQueryResponse::BondedDenom {
                    denom: Self::get_staking_info(storage).bonded_denom,
                },
            ),
            StakingQuery::AllDelegations { delegator } => {
                let mut delegations: Vec<Delegation> = Vec::new();
                let mut i: usize = 0;
                while i < storage.validators.len()
                    invariant
                        i <= storage.validators.len(),
                        delegations.len() == i,
                        request == (StakingQuery::AllDelegations { delegator }),
                        forall|j: int|
                            0 <= j < i ==> storage@.get_stake(
                                delegator@,
                                (#[trigger] storage@.validators[j]).address,
                            ) is Ok,
                        forall|j: int|
                            0 <= j < i ==> (#[trigger] delegations[j])@ == (DelegationView {
                                delegator: delegator@,
                                validator: storage@.validators[j].address,
                                amount: storage@.get_stake(
                                    delegator@,
                                    storage@.validators[j].address,
                                )->Ok_0,
                            }),
                    decreases storage.validators.len() - i,
                {
                    let address = storage.validators[i].address.clone();
                    assert(storage@.validators[i as int] == storage.validators[i as int]@);
                    let amount = match self.get_stake(storage, &delegator, &address) {
                        Ok(amount) => amount,
                        Err(e) => {
                            assert(storage@.get_stake(
                                delegator@,
                                storage@.validators[i as int].address,
                            ) is Err);
                            return Err(e);
                        },
                    };
                    delegations.push(
                        Delegation { delegator: delegator.clone(), validator: address, amount },
                    );
                    i += 1;
                }
                let response = StakingQueryResponse::AllDelegations { delegations };
                assert(response@->AllDelegations_delegations =~= query_answer(
                    storage@,
                    block.time,
                    request,
                )->Ok_0->AllDelegations_delegations);
                Ok(response)
            },
            StakingQuery::Delegation { delegator, validator } => {
                let validator_obj = match storage.validator_map.get(&validator) {
                    Some(v) => v,
                    None => {
                        return Err(StakingError::NotFound);
                    },
                };
                let key = (delegator.clone(), validator.clone());
                let shares = match storage.stakes.get(&key) {
                    Some(shares) => shares,
                    None => {
                        return Ok(StakingQueryResponse::Delegation { delegation: None });
                    },
                };
                let validator_info = match storage.validator_info.get(&validator) {
                    Some(info) => info,
                    None => {
                        return Err(StakingError::NotFound);
                    },
                };
                let stakes = match shares.stake(validator_info) {
                    Some(stakes) => stakes,
                    None => {
                        return Err(StakingError::Fatal);
                    },
                };
                let reward = match Self::get_rewards_internal(
                    storage,
                    block,
                    shares,
                    validator_obj,
                    validator_info,
                ) {
                    Ok(reward) => reward,
                    Err(e) => {
                        return Err(e);
                    },
                };
                let staking_info = Self::get_staking_info(storage);
                let accumulated_rewards = vec![reward];
                let full = FullDelegation {
                    delegator,
                    validator,
                    amount: Coin { denom: staking_info.bonded_denom, amount: stakes },
                    can_redelegate: coin(0, "testcoin"),
                    accumulated_rewards,
                };
                assert(full@.accumulated_rewards =~= seq![reward@]);
                Ok(StakingQueryResponse::Delegation { delegation: Some(full) })
            },
            StakingQuery::AllValidators {  } => match self.get_validators(storage) {
                Ok(validators) => Ok(StakingQueryResponse::AllValidators { validators }),
                Err(e) => Err(e),
            },
            StakingQuery::Validator { address } => match self.get_validator(storage, &address) {
                Ok(validator) => Ok(StakingQueryResponse::Validator { validator }),
                Err(e) => Err(e),
            },
        }
    }
}

impl StakeKeeper {
    /// Takes `amount` out of what `delegator` has staked at `validator` and
    /// queues its payout for the end of the unbonding time.
    ///
    /// On `Err` nothing has changed.
    pub fn undelegate(
        &self,
        storage: &mut StakingStorage,
        block: &BlockInfo,
        delegator: &String,
        validator: &String,
        amount: Coin,
    ) -> (r: Result<(), StakingError>)
        ensures
            match old(storage)@.undelegate(block.time, delegator@, validator@, amount@) {
                Ok(next) => r == Ok::<(), StakingError>(()) && final(storage)@ == next,
                Err(e) => r == Err::<(), StakingError>(e) && final(storage)@ == old(storage)@,
            },
            old(storage)@.consistent() ==> final(storage)@.consistent(),
    {
        match self.validate_denom(storage, &amount) {
            Ok(_) => {},
            Err(e) => {
                return Err(e);
            },
        }
        match self.validate_nonzero(&amount) {
            Ok(_) => {},
            Err(e) => {
                return Err(e);
            },
        }
        let staking_info = Self::get_staking_info(storage);
        let payout_at = match block.time.plus_seconds(staking_info.unbonding_time) {
            Some(t) => t,
            None => {
                return Err(StakingError::Fatal);
            },
        };
        let tokens = amount.amount;
        match self.remove_stake(storage, block, delegator, validator, amount) {
            Ok(_) => {},
            Err(e) => {
                return Err(e);
            },
        }
        let ghost mid = storage@;
        storage.unbonding_queue.push_back(
            UnbondingEntry { delegator: delegator.clone(), payout_at, amount: tokens },
        );
        assert(storage@.unbonding_queue =~= mid.unbonding_queue.push(
            UnbondingView { delegator: delegator@, payout_at, amount: tokens },
        ));
        proof {
            if mid.consistent() {
                lemma_queue_is_free(mid, storage@);
            }
        }
        Ok(())
    }

    /// Takes the payouts that are due at the block's time off the head of the
    /// unbonding queue and returns the transfers that pay them, oldest first.
    /// The queue is left with its first payout that is not due at its head.
    pub fn process_queue(&self, storage: &mut StakingStorage, block: &BlockInfo) -> (r: Vec<
        BankMsg,
    >)
        ensures
            final(storage)@ == old(storage)@.process_queue(block.time),
            r@.map_values(|m: BankMsg| m@) == old(storage)@.due_payouts(block.time).map_values(
                |e: UnbondingView|
                    payout_message(self.module_addr@, old(storage)@.params().bonded_denom, e),
            ),
            old(storage)@.consistent() ==> final(storage)@.consistent(),
    {
        let staking_info = Self::get_staking_info(storage);
        let ghost start = *storage;
        let ghost queue = start.unbonding_queue@;
        let ghost denom = start@.params().bonded_denom;
        let mut out: Vec<BankMsg> = Vec::new();
        assert(queue.subrange(0, queue.len() as int) =~= queue);
        loop
            invariant
                out.len() <= queue.len(),
                staking_info.bonded_denom@ == denom,
                storage.staking_info == start.staking_info,
                storage.validators == start.validators,
                storage.validator_map == start.validator_map,
                storage.validator_info == start.validator_info,
                storage.stakes == start.stakes,
                storage.unbonding_queue@ == queue.subrange(out.len() as int, queue.len() as int),
                forall|i: int|
                    0 <= i < out.len() ==> (#[trigger] queue[i]).payout_at.nanos
                        <= block.time.nanos,
                forall|i: int|
                    0 <= i < out.len() ==> (#[trigger] out[i])@ == payout_message(
                        self.module_addr@,
                        denom,
                        queue[i]@,
                    ),
            ensures
                out.len() < queue.len() ==> queue[out.len() as int].payout_at.nanos
                    > block.time.nanos,
            decreases queue.len() - out.len(),
        {
            if storage.unbonding_queue.len() == 0 {
                break ;
            }
            assert(storage.unbonding_queue@[0] == queue[out.len() as int]);
            if !(storage.unbonding_queue[0].payout_at.nanos() <= block.time.nanos()) {
                break ;
            }
            match storage.unbonding_queue.pop_front() {
                Some(entry) => {
                    out.push(
                        BankMsg::Send {
                            from_address: self.module_addr.clone(),
                            to_address: entry.delegator,
                            amount: Coin {
                                denom: staking_info.bonded_denom.clone(),
                                amount: entry.amount,
                            },
                        },
                    );
                    assert(storage.unbonding_queue@ =~= queue.subrange(
                        out.len() as int,
                        queue.len() as int,
                    ));
                },
                None => {
                    break ;
                },
            }
        }
        proof {
            let views = start@.unbonding_queue;
            let n = out.len() as int;
            assert forall|i: int| 0 <= i < n implies (#[trigger] views[i]).payout_at.nanos
                <= block.time.nanos by {
                assert(views[i] == queue[i]@);
            }
            if n < views.len() {
                assert(views[n] == queue[n]@);
            }
            lemma_due_count(views, block.time, n);
            if start@.consistent() {
                process_queue_keeps_consistent(start@, block.time);
            }
            assert(storage@.unbonding_queue =~= views.subrange(n, views.len() as int));
            assert(out@.map_values(|m: BankMsg| m@) =~= start@.due_payouts(block.time).map_values(
                |e: UnbondingView| payout_message(self.module_addr@, denom, e),
            ));
        }
        out
    }
}

} // verus!
