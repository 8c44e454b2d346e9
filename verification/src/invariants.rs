//! What holds of every state that the engine's operations can reach from the
//! empty one, and the proof that each operation keeps it.

use crate::decimal::{lemma_floor_bounds, Decimal, DECIMAL_FRACTIONAL};
use crate::share_laws::shares_are_worth_their_price;
use crate::ledger::{spec_shares_for, ValidatorInfoView};
use crate::storage::StorageView;
use crate::sums::{lemma_sum_agree, lemma_sum_insert, lemma_sum_remove, sum_over};
use crate::types::{CoinView, StakingInfoView, Timestamp, ValidatorView};
use vstd::prelude::*;

verus! {

impl ValidatorInfoView {
    /// A validator's pool is sound: a share is worth at most one token, and
    /// a pool without stake has issued no shares.
    pub open spec fn sound(self) -> bool {
        &&& self.stakers.finite()
        &&& self.total_shares.atomics >= self.stake * DECIMAL_FRACTIONAL
        &&& (self.stake == 0 ==> self.total_shares.atomics == 0)
    }
}

impl StorageView {
    /// The shares that each delegator holds at `validator`, as a function of
    /// the delegator.
    pub open spec fn shares_at(self, validator: Seq<char>) -> spec_fn(Seq<char>) -> int {
        |d: Seq<char>| self.shares_of(d, validator).atomics as int
    }

    /// The ledger of `validator` is consistent: its pool is sound, its
    /// stakers are exactly the delegators with an entry, no entry is zero,
    /// and the entries add up to the shares that it has issued.
    pub open spec fn ledger_consistent_at(self, validator: Seq<char>) -> bool {
        let info = self.validator_info[validator];
        &&& info.sound()
        &&& forall|d: Seq<char>|
            #![trigger info.stakers.contains(d)]
            #![trigger self.stakes.contains_key((d, validator))]
            info.stakers.contains(d) <==> self.stakes.contains_key((d, validator))
        &&& forall|d: Seq<char>| #[trigger]
            self.stakes.contains_key((d, validator)) ==> self.stakes[(d, validator)].0.atomics > 0
        &&& sum_over(info.stakers, self.shares_at(validator)) == info.total_shares.atomics
    }

    /// The registry is consistent: the validators in the list are those in
    /// the map, each under its own address and none twice, and each has a
    /// running state.
    pub open spec fn registry_consistent(self) -> bool {
        Self::registry_agrees(self.validators, self.validator_map, self.validator_info.dom())
    }

    /// Whether a list of validators, a map of them and the set of addresses
    /// with a running state agree with each other.
    pub open spec fn registry_agrees(
        validators: Seq<ValidatorView>,
        validator_map: Map<Seq<char>, ValidatorView>,
        with_state: Set<Seq<char>>,
    ) -> bool {
        &&& forall|v: Seq<char>|
            #![trigger with_state.contains(v)]
            #![trigger validator_map.contains_key(v)]
            with_state.contains(v) <==> validator_map.contains_key(v)
        &&& forall|i: int|
            0 <= i < validators.len() ==> validator_map.contains_key(
                (#[trigger] validators[i]).address,
            ) && validator_map[validators[i].address] == validators[i]
        &&& forall|v: Seq<char>| #[trigger]
            validator_map.contains_key(v) ==> validator_map[v].address == v && exists|i: int|
                0 <= i < validators.len() && (#[trigger] validators[i]).address == v
        &&& forall|i: int, j: int|
            0 <= i < j < validators.len() ==> (#[trigger] validators[i]).address != (
            #[trigger] validators[j]).address
    }

    /// The state is consistent: the registry is, the ledger of every
    /// validator is, and every entry of the ledger belongs to a validator.
    pub open spec fn consistent(self) -> bool {
        &&& self.registry_consistent()
        &&& forall|v: Seq<char>| #[trigger]
            self.validator_info.contains_key(v) ==> self.ledger_consistent_at(v)
        &&& forall|d: Seq<char>, v: Seq<char>| #[trigger]
            self.stakes.contains_key((d, v)) ==> self.validator_info.contains_key(v)
    }
}

/// The empty state is consistent.
pub proof fn empty_is_consistent()
    ensures
        StorageView::empty().consistent(),
{
}

/// Setting the staking parameters keeps the state consistent.
pub proof fn setup_keeps_consistent(s: StorageView, staking_info: StakingInfoView)
    requires
        s.consistent(),
    ensures
        (StorageView { staking_info: Some(staking_info), ..s }).consistent(),
{
    let next = StorageView { staking_info: Some(staking_info), ..s };
    assert forall|v: Seq<char>| #[trigger] next.validator_info.contains_key(v) implies next.ledger_consistent_at(v) by {
        assert(s.ledger_consistent_at(v));
        lemma_ledger_untouched(s, next, v);
    }
}

/// The ledger of a validator stays consistent while neither its state nor
/// its entries change, whatever else does.
pub proof fn lemma_ledger_untouched(s: StorageView, next: StorageView, validator: Seq<char>)
    requires
        s.ledger_consistent_at(validator),
        next.validator_info[validator].stakers == s.validator_info[validator].stakers,
        next.validator_info[validator].stake == s.validator_info[validator].stake,
        next.validator_info[validator].total_shares == s.validator_info[validator].total_shares,
        forall|d: Seq<char>|
            #![trigger next.stakes.contains_key((d, validator))]
            next.stakes.contains_key((d, validator)) == s.stakes.contains_key((d, validator)),
        forall|d: Seq<char>|
            #![trigger next.stakes[(d, validator)]]
            s.stakes.contains_key((d, validator)) ==> next.stakes[(d, validator)] == s.stakes[(
                d,
                validator,
            )],
    ensures
        next.ledger_consistent_at(validator),
{
    let who = s.validator_info[validator].stakers;
    assert forall|d: Seq<char>| who.contains(d) implies #[trigger] s.shares_at(validator)(d)
        == next.shares_at(validator)(d) by {
        assert(s.stakes.contains_key((d, validator)));
        assert(next.stakes.contains_key((d, validator)));
        assert(next.stakes[(d, validator)] == s.stakes[(d, validator)]);
    }
    lemma_sum_agree(who, s.shares_at(validator), next.shares_at(validator));
    assert forall|d: Seq<char>|
        #![trigger next.validator_info[validator].stakers.contains(d)]
        #![trigger next.stakes.contains_key((d, validator))]
        next.validator_info[validator].stakers.contains(d) <==> next.stakes.contains_key(
            (d, validator),
        ) by {
        assert(s.validator_info[validator].stakers.contains(d) <==> s.stakes.contains_key(
            (d, validator),
        ));
    }
    assert forall|d: Seq<char>| #[trigger]
        next.stakes.contains_key((d, validator)) implies next.stakes[(d, validator)].0.atomics
        > 0 by {
        assert(s.stakes.contains_key((d, validator)));
    }
}

/// Registering a validator keeps the state consistent.
pub proof fn add_validator_keeps_consistent(s: StorageView, now: Timestamp, validator: ValidatorView)
    requires
        s.consistent(),
        s.add_validator(now, validator) is Ok,
    ensures
        s.add_validator(now, validator)->Ok_0.consistent(),
{
    let next = s.add_validator(now, validator)->Ok_0;
    let address = validator.address;
    assert(!s.validator_info.dom().contains(address));
    assert forall|v: Seq<char>| #[trigger] next.validator_info.contains_key(v) implies next.ledger_consistent_at(v) by {
        if v == address {
            assert forall|d: Seq<char>| !next.stakes.contains_key((d, v)) by {
                if s.stakes.contains_key((d, v)) {
                    assert(s.validator_info.contains_key(v));
                }
            }
            assert(next.validator_info[v] == ValidatorInfoView::fresh(now));
            assert(next.validator_info[v].stakers =~= Set::<Seq<char>>::empty());
        } else {
            assert(s.ledger_consistent_at(v));
            lemma_ledger_untouched(s, next, v);
        }
    }
    let n = s.validators.len() as int;
    assert(next.validators[n] == validator);
    assert forall|i: int| 0 <= i < next.validators.len() implies next.validator_map.contains_key(
        (#[trigger] next.validators[i]).address,
    ) && next.validator_map[next.validators[i].address] == next.validators[i] by {
        if i < n {
            assert(next.validators[i] == s.validators[i]);
        }
    }
    assert forall|v: Seq<char>| #[trigger] next.validator_map.contains_key(v) implies next.validator_map[v].address == v
        && exists|i: int|
        0 <= i < next.validators.len() && (#[trigger] next.validators[i]).address == v by {
        if v == address {
            assert(next.validators[n].address == v);
        } else {
            assert(s.validator_map.contains_key(v));
            let i = choose|i: int|
                0 <= i < s.validators.len() && (#[trigger] s.validators[i]).address == v;
            assert(next.validators[i].address == v);
        }
    }
    assert forall|i: int, j: int| 0 <= i < j < next.validators.len() implies (
    #[trigger] next.validators[i]).address != (#[trigger] next.validators[j]).address by {
        assert(next.validators[i] == s.validators[i]);
        if j < n {
            assert(next.validators[j] == s.validators[j]);
        } else {
            assert(s.validator_map.contains_key(s.validators[i].address));
        }
    }
}

/// A checkpoint changes neither the stake of a validator nor its shares nor
/// its stakers.
pub proof fn lemma_checkpoint_keeps_pool(s: StorageView, now: Timestamp, validator: Seq<char>)
    requires
        s.checkpoint(now, validator) is Ok,
    ensures
        s.validator_map.contains_key(validator),
        s.checkpoint(now, validator)->Ok_0.stakers == s.info_or_fresh(validator, now).stakers,
        s.checkpoint(now, validator)->Ok_0.stake == s.info_or_fresh(validator, now).stake,
        s.checkpoint(now, validator)->Ok_0.total_shares == s.info_or_fresh(
            validator,
            now,
        ).total_shares,
{
}

/// A sound pool is sound after tokens were added for the shares that they
/// buy.
pub proof fn lemma_pool_after_add(stake: u128, total_shares: Decimal, amount: u128)
    requires
        total_shares.atomics >= stake * DECIMAL_FRACTIONAL,
        stake == 0 ==> total_shares.atomics == 0,
        spec_shares_for(stake, total_shares, amount) is Some,
    ensures
        total_shares.atomics + spec_shares_for(stake, total_shares, amount)->Some_0.atomics >= (
        stake + amount) * DECIMAL_FRACTIONAL,
        stake + amount == 0 ==> total_shares.atomics + spec_shares_for(
            stake,
            total_shares,
            amount,
        )->Some_0.atomics == 0,
{
    let d = DECIMAL_FRACTIONAL as int;
    if stake == 0 {
        assert((amount * d) / 1 == amount * d);
    } else {
        shares_are_worth_their_price(stake, total_shares, amount);
    }
    assert((stake + amount) * d == stake * d + amount * d) by (nonlinear_arith);
}

/// A sound pool is sound after tokens were taken out with the shares that
/// they are worth, and a pool that is left without tokens is left without
/// shares.
pub proof fn lemma_pool_after_remove(stake: u128, total_shares: Decimal, amount: u128)
    requires
        total_shares.atomics >= stake * DECIMAL_FRACTIONAL,
        stake == 0 ==> total_shares.atomics == 0,
        amount <= stake,
        spec_shares_for(stake, total_shares, amount) is Some,
        spec_shares_for(stake, total_shares, amount)->Some_0.atomics <= total_shares.atomics,
    ensures
        total_shares.atomics - spec_shares_for(stake, total_shares, amount)->Some_0.atomics >= (
        stake - amount) * DECIMAL_FRACTIONAL,
        stake - amount == 0 ==> total_shares.atomics - spec_shares_for(
            stake,
            total_shares,
            amount,
        )->Some_0.atomics == 0,
{
    let d = DECIMAL_FRACTIONAL as int;
    let s = stake as int;
    let a = amount as int;
    let ts = total_shares.atomics as int;
    if stake == 0 {
        assert((a * d) / 1 == a * d);
    } else {
        let sh = a * ts / s;
        assert(0 <= a * ts) by (nonlinear_arith)
            requires
                0 <= a,
                0 <= ts,
        ;
        lemma_floor_bounds(a * ts, s);
        // (ts - sh) * s >= ts * s - a * ts = ts * (s - a) >= s * d * (s - a)
        assert((ts - sh) * s >= (s - a) * d * s) by (nonlinear_arith)
            requires
                sh * s <= a * ts,
                ts >= s * d,
                0 <= a <= s,
                0 < s,
        ;
        assert(ts - sh >= (s - a) * d) by (nonlinear_arith)
            requires
                (ts - sh) * s >= (s - a) * d * s,
                0 < s,
        ;
        if a == s {
            assert(a * ts == ts * s) by (nonlinear_arith)
                requires
                    a == s,
            ;
            vstd::arithmetic::div_mod::lemma_div_by_multiple(ts, s);
        }
    }
}

/// The entries of a validator add up to its shares after one delegator's
/// entry was set: to the old shares less what the delegator held plus what
/// it holds now.
pub proof fn lemma_sum_after_change(
    s: StorageView,
    validator: Seq<char>,
    delegator: Seq<char>,
    shares: Decimal,
    info: ValidatorInfoView,
)
    requires
        s.validator_info.contains_key(validator),
        s.ledger_consistent_at(validator),
        info.stakers == s.validator_info[validator].stakers,
    ensures
        ({
            let next = s.with_stake(delegator, validator, shares, info);
            sum_over(next.validator_info[validator].stakers, next.shares_at(validator))
                == s.validator_info[validator].total_shares.atomics - s.shares_of(
                delegator,
                validator,
            ).atomics + shares.atomics
        }),
{
    let next = s.with_stake(delegator, validator, shares, info);
    let who = s.validator_info[validator].stakers;
    let f = s.shares_at(validator);
    let g = next.shares_at(validator);
    let rest = who.remove(delegator);
    assert forall|x: Seq<char>| rest.contains(x) implies #[trigger] f(x) == g(x) by {
        assert(x != delegator);
    }
    lemma_sum_agree(rest, f, g);
    if who.contains(delegator) {
        lemma_sum_remove(who, f, delegator);
        assert(s.stakes.contains_key((delegator, validator)));
    } else {
        assert(rest =~= who);
        assert(!s.stakes.contains_key((delegator, validator)));
    }
    if shares.atomics == 0 {
        assert(next.validator_info[validator].stakers =~= rest);
    } else {
        assert(next.validator_info[validator].stakers =~= rest.insert(delegator));
        lemma_sum_insert(rest, g, delegator);
        assert(g(delegator) == shares.atomics);
    }
}

/// A change of stake keeps the state consistent.
pub proof fn update_stake_keeps_consistent(
    s: StorageView,
    now: Timestamp,
    delegator: Seq<char>,
    validator: Seq<char>,
    amount: u128,
    sub: bool,
)
    requires
        s.consistent(),
        s.update_stake(now, delegator, validator, amount, sub) is Ok,
    ensures
        s.update_stake(now, delegator, validator, amount, sub)->Ok_0.consistent(),
{
    let next = s.update_stake(now, delegator, validator, amount, sub)->Ok_0;
    lemma_checkpoint_keeps_pool(s, now, validator);
    let before = s.validator_info[validator];
    let info = s.checkpoint(now, validator)->Ok_0;
    assert(s.validator_info.dom().contains(validator));
    assert(s.ledger_consistent_at(validator));
    let shares = spec_shares_for(info.stake, info.total_shares, amount)->Some_0;
    let held = s.shares_of(delegator, validator);
    let after = next.validator_info[validator];
    let left = next.shares_of(delegator, validator);
    let changed = ValidatorInfoView { stake: after.stake, total_shares: after.total_shares, ..info };
    assert(next == s.with_stake(delegator, validator, left, changed));
    lemma_sum_after_change(s, validator, delegator, left, changed);
    if sub {
        lemma_pool_after_remove(info.stake, info.total_shares, amount);
    } else {
        lemma_pool_after_add(info.stake, info.total_shares, amount);
    }
    assert(next.ledger_consistent_at(validator)) by {
        assert(after.sound());
        assert forall|d: Seq<char>|
            #![trigger after.stakers.contains(d)]
            #![trigger next.stakes.contains_key((d, validator))]
            after.stakers.contains(d) <==> next.stakes.contains_key((d, validator)) by {
            assert(before.stakers.contains(d) <==> s.stakes.contains_key((d, validator)));
        }
        assert forall|d: Seq<char>| #[trigger]
            next.stakes.contains_key((d, validator)) implies next.stakes[(
            d,
            validator,
        )].0.atomics > 0 by {
            if d != delegator {
                assert(s.stakes.contains_key((d, validator)));
            }
        }
    }
    assert forall|v: Seq<char>| #[trigger] next.validator_info.contains_key(v) implies next.ledger_consistent_at(v) by {
        if v != validator {
            assert(s.validator_info.contains_key(v));
            assert(s.ledger_consistent_at(v));
            lemma_ledger_untouched(s, next, v);
        }
    }
    assert(next.validator_info.dom() =~= s.validator_info.dom());
    assert forall|d: Seq<char>, v: Seq<char>| #[trigger]
        next.stakes.contains_key((d, v)) implies next.validator_info.contains_key(v) by {
        if (d, v) != (delegator, validator) {
            assert(s.stakes.contains_key((d, v)));
        }
    }
}

/// Staking keeps the state consistent.
pub proof fn add_stake_keeps_consistent(
    s: StorageView,
    now: Timestamp,
    delegator: Seq<char>,
    validator: Seq<char>,
    amount: CoinView,
)
    requires
        s.consistent(),
        s.add_stake(now, delegator, validator, amount) is Ok,
    ensures
        s.add_stake(now, delegator, validator, amount)->Ok_0.consistent(),
{
    update_stake_keeps_consistent(s, now, delegator, validator, amount.amount, false);
}

/// Unstaking keeps the state consistent.
pub proof fn remove_stake_keeps_consistent(
    s: StorageView,
    now: Timestamp,
    delegator: Seq<char>,
    validator: Seq<char>,
    amount: CoinView,
)
    requires
        s.consistent(),
        s.remove_stake(now, delegator, validator, amount) is Ok,
    ensures
        s.remove_stake(now, delegator, validator, amount)->Ok_0.consistent(),
{
    update_stake_keeps_consistent(s, now, delegator, validator, amount.amount, true);
}

/// The consistency of a state does not depend on its unbonding queue.
pub proof fn lemma_queue_is_free(s: StorageView, next: StorageView)
    requires
        s.consistent(),
        next == (StorageView { unbonding_queue: next.unbonding_queue, ..s }),
    ensures
        next.consistent(),
{
    assert forall|v: Seq<char>| #[trigger] next.validator_info.contains_key(v) implies next.ledger_consistent_at(v) by {
        assert(s.ledger_consistent_at(v));
        lemma_ledger_untouched(s, next, v);
    }
}

/// Unbonding keeps the state consistent.
pub proof fn undelegate_keeps_consistent(
    s: StorageView,
    now: Timestamp,
    delegator: Seq<char>,
    validator: Seq<char>,
    amount: CoinView,
)
    requires
        s.consistent(),
        s.undelegate(now, delegator, validator, amount) is Ok,
    ensures
        s.undelegate(now, delegator, validator, amount)->Ok_0.consistent(),
{
    update_stake_keeps_consistent(s, now, delegator, validator, amount.amount, true);
    let mid = s.update_stake(now, delegator, validator, amount.amount, true)->Ok_0;
    lemma_queue_is_free(mid, s.undelegate(now, delegator, validator, amount)->Ok_0);
}

/// The payout of what is due keeps the state consistent.
pub proof fn process_queue_keeps_consistent(s: StorageView, now: Timestamp)
    requires
        s.consistent(),
    ensures
        s.process_queue(now).consistent(),
{
    lemma_queue_is_free(s, s.process_queue(now));
}

/// Slashing keeps the state consistent.
pub proof fn slash_keeps_consistent(s: StorageView, validator: Seq<char>, percentage: Decimal)
    requires
        s.consistent(),
        s.slash(validator, percentage) is Ok,
    ensures
        s.slash(validator, percentage)->Ok_0.consistent(),
{
    let next = s.slash(validator, percentage)->Ok_0;
    let info = s.validator_info[validator];
    let stake = StorageView::slashed_stake(info.stake, percentage);
    assert(s.ledger_consistent_at(validator));
    assert(stake <= info.stake) by {
        let d = DECIMAL_FRACTIONAL as int;
        let rest = d - percentage.atomics;
        assert(0 <= info.stake * rest <= info.stake * d) by (nonlinear_arith)
            requires
                0 <= rest <= d,
                0 <= info.stake,
        ;
        vstd::arithmetic::div_mod::lemma_div_is_ordered(info.stake * rest, info.stake * d, d);
        vstd::arithmetic::div_mod::lemma_div_by_multiple(info.stake as int, d);
        vstd::arithmetic::div_mod::lemma_div_pos_is_pos(info.stake * rest, d);
    }
    assert(next.validator_info.dom() =~= s.validator_info.dom());
    if stake == 0 {
        assert forall|d: Seq<char>| !next.stakes.contains_key((d, validator)) by {
            if s.stakes.contains_key((d, validator)) {
                assert(info.stakers.contains(d));
            }
        }
        assert(next.ledger_consistent_at(validator));
    } else {
        assert(next.validator_info[validator].total_shares.atomics >= stake
            * DECIMAL_FRACTIONAL) by (nonlinear_arith)
            requires
                next.validator_info[validator].total_shares.atomics >= info.stake
                    * DECIMAL_FRACTIONAL,
                stake <= info.stake,
        ;
        assert(next.ledger_consistent_at(validator)) by {
            lemma_sum_agree(info.stakers, s.shares_at(validator), next.shares_at(validator));
            assert forall|d: Seq<char>|
                #![trigger next.validator_info[validator].stakers.contains(d)]
                #![trigger next.stakes.contains_key((d, validator))]
                next.validator_info[validator].stakers.contains(d) <==> next.stakes.contains_key(
                    (d, validator),
                ) by {
                assert(info.stakers.contains(d) <==> s.stakes.contains_key((d, validator)));
            }
        }
    }
    assert forall|v: Seq<char>| #[trigger] next.validator_info.contains_key(v) implies next.ledger_consistent_at(v) by {
        if v != validator {
            assert(s.validator_info.contains_key(v));
            assert(s.ledger_consistent_at(v));
            lemma_ledger_untouched(s, next, v);
        }
    }
    assert forall|d: Seq<char>, v: Seq<char>| #[trigger]
        next.stakes.contains_key((d, v)) implies next.validator_info.contains_key(v) by {
        assert(s.stakes.contains_key((d, v)));
    }
}

/// The withdrawal of rewards keeps the state consistent.
pub proof fn withdraw_rewards_keeps_consistent(
    s: StorageView,
    now: Timestamp,
    delegator: Seq<char>,
    validator: Seq<char>,
)
    requires
        s.consistent(),
        s.withdraw_rewards(now, delegator, validator) is Ok,
    ensures
        s.withdraw_rewards(now, delegator, validator)->Ok_0.0.consistent(),
{
    let next = s.withdraw_rewards(now, delegator, validator)->Ok_0.0;
    lemma_checkpoint_keeps_pool(s, now, validator);
    assert(next.validator_info.dom() =~= s.validator_info.dom());
    assert forall|v: Seq<char>| #[trigger] next.validator_info.contains_key(v) implies next.ledger_consistent_at(v) by {
        assert(s.validator_info.contains_key(v));
        assert(s.ledger_consistent_at(v));
        lemma_ledger_untouched(s, next, v);
    }
}

} // verus!
