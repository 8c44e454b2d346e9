//! The states that the engine can reach, and what holds of all of them.
//!
//! A reachable state is what a sequence of operations leaves of the empty
//! state. An operation that fails leaves the state as it was.

use crate::decimal::{Decimal, DECIMAL_FRACTIONAL};
use crate::invariants::{
    add_stake_keeps_consistent, add_validator_keeps_consistent, lemma_checkpoint_keeps_pool,
    process_queue_keeps_consistent, remove_stake_keeps_consistent, setup_keeps_consistent,
    slash_keeps_consistent, undelegate_keeps_consistent, withdraw_rewards_keeps_consistent,
};
use crate::ledger::{spec_shares_for, spec_stake_value};
use crate::ledger_laws::{price_stays_at_par_without_slashing, stake_value_is_defined};
use crate::share_laws::shares_are_worth_their_price_at_par;
use crate::storage::StorageView;
use crate::types::{CoinView, StakingInfoView, Timestamp, ValidatorView};
use vstd::prelude::*;

verus! {

/// An operation of the engine with its arguments.
pub enum Operation {
    Setup { staking_info: StakingInfoView },
    AddValidator { now: Timestamp, record: ValidatorView },
    AddStake { now: Timestamp, delegator: Seq<char>, validator: Seq<char>, amount: CoinView },
    RemoveStake { now: Timestamp, delegator: Seq<char>, validator: Seq<char>, amount: CoinView },
    Undelegate { now: Timestamp, delegator: Seq<char>, validator: Seq<char>, amount: CoinView },
    Slash { validator: Seq<char>, percentage: Decimal },
    ProcessQueue { now: Timestamp },
    WithdrawRewards { now: Timestamp, delegator: Seq<char>, validator: Seq<char> },
}

impl StorageView {
    /// The state that `op` leaves of this one: what the operation makes of
    /// it where it succeeds, and this state itself where it fails.
    pub open spec fn after(self, op: Operation) -> StorageView {
        match op {
            Operation::Setup { staking_info } => StorageView {
                staking_info: Some(staking_info),
                ..self
            },
            Operation::AddValidator { now, record } => match self.add_validator(now, record) {
                Ok(next) => next,
                Err(_) => self,
            },
            Operation::AddStake { now, delegator, validator, amount } => match self.add_stake(
                now,
                delegator,
                validator,
                amount,
            ) {
                Ok(next) => next,
                Err(_) => self,
            },
            Operation::RemoveStake {
                now,
                delegator,
                validator,
                amount,
            } => match self.remove_stake(now, delegator, validator, amount) {
                Ok(next) => next,
                Err(_) => self,
            },
            Operation::Undelegate { now, delegator, validator, amount } => match self.undelegate(
                now,
                delegator,
                validator,
                amount,
            ) {
                Ok(next) => next,
                Err(_) => self,
            },
            Operation::Slash { validator, percentage } => match self.slash(
                validator,
                percentage,
            ) {
                Ok(next) => next,
                Err(_) => self,
            },
            Operation::ProcessQueue { now } => self.process_queue(now),
            Operation::WithdrawRewards { now, delegator, validator } => match self.withdraw_rewards(
                now,
                delegator,
                validator,
            ) {
                Ok((next, _)) => next,
                Err(_) => self,
            },
        }
    }

    /// The state that the operations `ops`, carried out one after the other,
    /// leave of this one.
    pub open spec fn after_all(self, ops: Seq<Operation>) -> StorageView
        decreases ops.len(),
    {
        if ops.len() == 0 {
            self
        } else {
            self.after_all(ops.drop_last()).after(ops.last())
        }
    }

    /// Whether every share of every validator is worth exactly one token.
    pub open spec fn at_par(self) -> bool {
        forall|v: Seq<char>| #[trigger]
            self.validator_info.contains_key(v) ==> self.validator_info[v].total_shares.atomics
                == self.validator_info[v].stake * DECIMAL_FRACTIONAL
    }
}

/// An operation keeps a consistent state consistent.
pub proof fn operation_keeps_consistent(s: StorageView, op: Operation)
    requires
        s.consistent(),
    ensures
        s.after(op).consistent(),
{
    match op {
        Operation::Setup { staking_info } => {
            setup_keeps_consistent(s, staking_info);
        },
        Operation::AddValidator { now, record } => {
            if s.add_validator(now, record) is Ok {
                add_validator_keeps_consistent(s, now, record);
            }
        },
        Operation::AddStake { now, delegator, validator, amount } => {
            if s.add_stake(now, delegator, validator, amount) is Ok {
                add_stake_keeps_consistent(s, now, delegator, validator, amount);
            }
        },
        Operation::RemoveStake { now, delegator, validator, amount } => {
            if s.remove_stake(now, delegator, validator, amount) is Ok {
                remove_stake_keeps_consistent(s, now, delegator, validator, amount);
            }
        },
        Operation::Undelegate { now, delegator, validator, amount } => {
            if s.undelegate(now, delegator, validator, amount) is Ok {
                undelegate_keeps_consistent(s, now, delegator, validator, amount);
            }
        },
        Operation::Slash { validator, percentage } => {
            if s.slash(validator, percentage) is Ok {
                slash_keeps_consistent(s, validator, percentage);
            }
        },
        Operation::ProcessQueue { now } => {
            process_queue_keeps_consistent(s, now);
        },
        Operation::WithdrawRewards { now, delegator, validator } => {
            if s.withdraw_rewards(now, delegator, validator) is Ok {
                withdraw_rewards_keeps_consistent(s, now, delegator, validator);
            }
        },
    }
}

/// Every state that the engine reaches from the empty one is consistent: the
/// stakers of a validator are the delegators with an entry for it, the
/// entries add up to its shares, and its stake and its shares are both zero
/// or both positive.
pub proof fn every_reachable_state_is_consistent(ops: Seq<Operation>)
    ensures
        StorageView::empty().after_all(ops).consistent(),
    decreases ops.len(),
{
    if ops.len() > 0 {
        every_reachable_state_is_consistent(ops.drop_last());
        operation_keeps_consistent(StorageView::empty().after_all(ops.drop_last()), ops.last());
    }
}

/// An operation other than a slashing leaves every share worth one token, if
/// every share was worth one.
pub proof fn operation_keeps_par(s: StorageView, op: Operation)
    requires
        s.at_par(),
        !(op is Slash),
    ensures
        s.after(op).at_par(),
{
    let next = s.after(op);
    match op {
        Operation::Setup { staking_info } => {},
        Operation::AddValidator { now, record } => {},
        Operation::AddStake { now, delegator, validator, amount } => {
            if s.add_stake(now, delegator, validator, amount) is Ok {
                lemma_stake_change_keeps_par(s, now, delegator, validator, amount.amount, false);
            }
        },
        Operation::RemoveStake { now, delegator, validator, amount } => {
            if s.remove_stake(now, delegator, validator, amount) is Ok {
                lemma_stake_change_keeps_par(s, now, delegator, validator, amount.amount, true);
            }
        },
        Operation::Undelegate { now, delegator, validator, amount } => {
            if s.undelegate(now, delegator, validator, amount) is Ok {
                lemma_stake_change_keeps_par(s, now, delegator, validator, amount.amount, true);
                let mid = s.update_stake(now, delegator, validator, amount.amount, true)->Ok_0;
                assert(next.validator_info == mid.validator_info);
            }
        },
        Operation::Slash { validator, percentage } => {},
        Operation::ProcessQueue { now } => {},
        Operation::WithdrawRewards { now, delegator, validator } => {
            if s.withdraw_rewards(now, delegator, validator) is Ok {
                lemma_checkpoint_keeps_pool(s, now, validator);
                assert forall|v: Seq<char>| #[trigger]
                    next.validator_info.contains_key(
                        v,
                    ) implies next.validator_info[v].total_shares.atomics
                    == next.validator_info[v].stake * DECIMAL_FRACTIONAL by {
                    assert(s.validator_info.contains_key(v));
                }
            }
        },
    }
}

/// A change of stake leaves every share worth one token, if every share was
/// worth one.
proof fn lemma_stake_change_keeps_par(
    s: StorageView,
    now: Timestamp,
    delegator: Seq<char>,
    validator: Seq<char>,
    amount: u128,
    sub: bool,
)
    requires
        s.at_par(),
        s.update_stake(now, delegator, validator, amount, sub) is Ok,
    ensures
        s.update_stake(now, delegator, validator, amount, sub)->Ok_0.at_par(),
{
    let next = s.update_stake(now, delegator, validator, amount, sub)->Ok_0;
    if s.validator_info.contains_key(validator) {
        assert(s.info_or_fresh(validator, now) == s.validator_info[validator]);
    } else {
        assert(0 * DECIMAL_FRACTIONAL == 0);
    }
    price_stays_at_par_without_slashing(s, now, delegator, validator, amount, sub);
    assert forall|v: Seq<char>| #[trigger]
        next.validator_info.contains_key(v) implies next.validator_info[v].total_shares.atomics
        == next.validator_info[v].stake * DECIMAL_FRACTIONAL by {
        if v != validator {
            assert(s.validator_info.contains_key(v));
        }
    }
}

/// In every state that the engine reaches without a slashing, every share is
/// worth exactly one token.
pub proof fn shares_are_at_par_until_a_slashing(ops: Seq<Operation>)
    requires
        forall|i: int| 0 <= i < ops.len() ==> !(#[trigger] ops[i] is Slash),
    ensures
        StorageView::empty().after_all(ops).at_par(),
    decreases ops.len(),
{
    if ops.len() > 0 {
        let before = ops.drop_last();
        assert forall|i: int| 0 <= i < before.len() implies !(#[trigger] before[i] is Slash) by {
            assert(before[i] == ops[i]);
        }
        shares_are_at_par_until_a_slashing(before);
        assert(!(ops[ops.len() - 1] is Slash));
        operation_keeps_par(StorageView::empty().after_all(before), ops.last());
    }
}

/// In every state that the engine reaches without a slashing, the shares that
/// a validator issues for an amount are worth exactly that amount.
pub proof fn shares_are_worth_what_was_paid_until_a_slashing(
    ops: Seq<Operation>,
    validator: Seq<char>,
    amount: u128,
)
    requires
        forall|i: int| 0 <= i < ops.len() ==> !(#[trigger] ops[i] is Slash),
        StorageView::empty().after_all(ops).validator_info.contains_key(validator),
        StorageView::empty().after_all(ops).validator_info[validator].stake > 0,
        spec_shares_for(
            StorageView::empty().after_all(ops).validator_info[validator].stake,
            StorageView::empty().after_all(ops).validator_info[validator].total_shares,
            amount,
        ) is Some,
    ensures
        ({
            let info = StorageView::empty().after_all(ops).validator_info[validator];
            spec_stake_value(
                spec_shares_for(info.stake, info.total_shares, amount)->Some_0,
                info.stake,
                info.total_shares,
            ) == Some(amount)
        }),
{
    shares_are_at_par_until_a_slashing(ops);
    let info = StorageView::empty().after_all(ops).validator_info[validator];
    shares_are_worth_their_price_at_par(info.stake, info.total_shares, amount);
}

/// In a consistent state in which every share is worth one token, what a
/// delegator's shares at a validator are worth is the whole number of them.
pub proof fn lemma_value_at_par(s: StorageView, delegator: Seq<char>, validator: Seq<char>)
    requires
        s.consistent(),
        s.at_par(),
        s.validator_info.contains_key(validator),
    ensures
        s.values_at(validator)(delegator) == s.shares_of(delegator, validator).atomics
            / DECIMAL_FRACTIONAL,
{
    let info = s.validator_info[validator];
    let sh = s.shares_of(delegator, validator).atomics as int;
    let d = DECIMAL_FRACTIONAL as int;
    stake_value_is_defined(s, delegator, validator);
    if info.total_shares.atomics == 0 {
        assert(sh == 0);
    } else {
        assert(info.stake > 0);
        vstd::arithmetic::div_mod::lemma_div_multiples_vanish_quotient(info.stake as int, sh, d);
        assert(sh * info.stake == info.stake * sh) by (nonlinear_arith);
    }
}

/// A redelegation between two validators whose shares are worth one token
/// each moves the sender's stake and changes nothing else of it: the shares
/// that the sender loses at the source it gains at the destination, the
/// stake of the one validator goes down by the amount and that of the other
/// up, and what the sender holds at the two is worth as much after as
/// before.
pub proof fn redelegation_moves_stake_at_par(
    s: StorageView,
    now: Timestamp,
    sender: Seq<char>,
    src: Seq<char>,
    dst: Seq<char>,
    amount: CoinView,
)
    requires
        s.consistent(),
        s.at_par(),
        src != dst,
        s.remove_stake(now, sender, src, amount) is Ok,
        s.remove_stake(now, sender, src, amount)->Ok_0.add_stake(now, sender, dst, amount) is Ok,
    ensures
        ({
            let mid = s.remove_stake(now, sender, src, amount)->Ok_0;
            let next = mid.add_stake(now, sender, dst, amount)->Ok_0;
            &&& next.consistent()
            &&& next.at_par()
            &&& next.unbonding_queue == s.unbonding_queue
            &&& next.shares_of(sender, src).atomics == s.shares_of(sender, src).atomics
                - amount.amount * DECIMAL_FRACTIONAL
            &&& next.shares_of(sender, dst).atomics == s.shares_of(sender, dst).atomics
                + amount.amount * DECIMAL_FRACTIONAL
            &&& next.validator_info[src].stake == s.validator_info[src].stake - amount.amount
            &&& next.validator_info[dst].stake == s.validator_info[dst].stake + amount.amount
            &&& next.values_at(src)(sender) + next.values_at(dst)(sender) == s.values_at(src)(
                sender,
            ) + s.values_at(dst)(sender)
        }),
{
    let a = amount.amount;
    let d = DECIMAL_FRACTIONAL as int;
    let mid = s.remove_stake(now, sender, src, amount)->Ok_0;
    let next = mid.add_stake(now, sender, dst, amount)->Ok_0;
    remove_stake_keeps_consistent(s, now, sender, src, amount);
    add_stake_keeps_consistent(mid, now, sender, dst, amount);
    lemma_stake_change_keeps_par(s, now, sender, src, a, true);
    lemma_stake_change_keeps_par(mid, now, sender, dst, a, false);
    lemma_checkpoint_keeps_pool(s, now, src);
    lemma_checkpoint_keeps_pool(mid, now, dst);
    assert(s.validator_info.dom().contains(src));
    assert(mid.validator_info.dom().contains(dst));
    assert(s.validator_info.contains_key(dst));
    assert(mid.validator_info[dst] == s.validator_info[dst]);
    price_stays_at_par_without_slashing(s, now, sender, src, a, true);
    price_stays_at_par_without_slashing(mid, now, sender, dst, a, false);
    assert(mid.shares_of(sender, dst) == s.shares_of(sender, dst));
    assert(next.shares_of(sender, src) == mid.shares_of(sender, src));
    assert(next.validator_info[src] == mid.validator_info[src]);
    lemma_value_at_par(s, sender, src);
    lemma_value_at_par(s, sender, dst);
    lemma_value_at_par(next, sender, src);
    lemma_value_at_par(next, sender, dst);
    let x = next.shares_of(sender, src).atomics as int;
    let y = s.shares_of(sender, dst).atomics as int;
    lemma_whole_tokens_shift(x, a as int);
    lemma_whole_tokens_shift(y, a as int);
}

/// Adding whole tokens to a count of atomic units adds them to its whole
/// part.
proof fn lemma_whole_tokens_shift(x: int, a: int)
    requires
        0 <= x,
        0 <= a,
    ensures
        (x + a * DECIMAL_FRACTIONAL) / (DECIMAL_FRACTIONAL as int) == x / (
        DECIMAL_FRACTIONAL as int) + a,
{
    let d = DECIMAL_FRACTIONAL as int;
    vstd::arithmetic::div_mod::lemma_fundamental_div_mod(x, d);
    vstd::arithmetic::div_mod::lemma_mod_pos_bound(x, d);
    let q = x / d;
    vstd::arithmetic::div_mod::lemma_div_multiples_vanish_fancy(q + a, x % d, d);
    assert(d * (q + a) + x % d == x + a * d) by (nonlinear_arith)
        requires
            x == d * q + x % d,
    ;
}

} // verus!
