//! Laws of the ledger as a whole: what the delegators of a validator hold
//! together, and what slashing does to them.

use crate::decimal::{lemma_floor_bounds, Decimal, DECIMAL_FRACTIONAL};
use crate::invariants::lemma_checkpoint_keeps_pool;
use crate::ledger::spec_stake_value;
use crate::storage::StorageView;
use crate::sums::{lemma_sum_bounds, sum_over};
use crate::types::Timestamp;
use vstd::prelude::*;

verus! {

impl StorageView {
    /// The tokens that the shares of each delegator at `validator` are
    /// worth, as a function of the delegator.
    pub open spec fn values_at(self, validator: Seq<char>) -> spec_fn(Seq<char>) -> int {
        |d: Seq<char>|
            if self.validator_info[validator].total_shares.atomics == 0 {
                0
            } else {
                self.shares_of(d, validator).atomics * self.validator_info[validator].stake
                    / self.validator_info[validator].total_shares.atomics as int
            }
    }
}

/// In a consistent state no delegator holds more shares of a validator than
/// the validator has issued, so the value of its shares is defined and is at
/// most the validator's stake.
pub proof fn stake_value_is_defined(s: StorageView, delegator: Seq<char>, validator: Seq<char>)
    requires
        s.consistent(),
        s.validator_info.contains_key(validator),
    ensures
        s.shares_of(delegator, validator).atomics
            <= s.validator_info[validator].total_shares.atomics,
        spec_stake_value(
            s.shares_of(delegator, validator),
            s.validator_info[validator].stake,
            s.validator_info[validator].total_shares,
        ) == Some(s.values_at(validator)(delegator) as u128),
        0 <= s.values_at(validator)(delegator) <= s.validator_info[validator].stake,
{
    let info = s.validator_info[validator];
    assert(s.ledger_consistent_at(validator));
    let f = s.shares_at(validator);
    assert forall|x: Seq<char>| info.stakers.contains(x) implies 0 <= #[trigger] f(x) by {}
    lemma_sum_bounds(info.stakers, f, delegator);
    let sh = s.shares_of(delegator, validator).atomics as int;
    let ts = info.total_shares.atomics as int;
    let stake = info.stake as int;
    if !info.stakers.contains(delegator) {
        assert(!s.stakes.contains_key((delegator, validator)));
    }
    assert(sh <= ts);
    if ts > 0 {
        assert(0 <= sh * stake <= ts * stake) by (nonlinear_arith)
            requires
                0 <= sh <= ts,
                0 <= stake,
        ;
        vstd::arithmetic::div_mod::lemma_div_is_ordered(sh * stake, ts * stake, ts);
        assert(ts * stake == stake * ts) by (nonlinear_arith);
        vstd::arithmetic::div_mod::lemma_div_by_multiple(stake, ts);
        vstd::arithmetic::div_mod::lemma_div_pos_is_pos(sh * stake, ts);
    }
}

/// In a consistent state the stake and the shares of a validator are both
/// zero or both positive.
pub proof fn stake_and_shares_vanish_together(s: StorageView, validator: Seq<char>)
    requires
        s.consistent(),
        s.validator_info.contains_key(validator),
    ensures
        (s.validator_info[validator].stake == 0) == (
        s.validator_info[validator].total_shares.atomics == 0),
{
    let info = s.validator_info[validator];
    assert(s.ledger_consistent_at(validator));
    if info.stake > 0 {
        assert(info.stake * DECIMAL_FRACTIONAL > 0) by (nonlinear_arith)
            requires
                info.stake > 0,
        ;
    }
}

/// In a consistent state the stake of a delegator at a validator can always
/// be told: no value leaves the range of its type.
pub proof fn stake_can_always_be_told(s: StorageView, delegator: Seq<char>, validator: Seq<char>)
    requires
        s.consistent(),
    ensures
        s.get_stake(delegator, validator) is Ok,
        s.get_stake(delegator, validator)->Ok_0.denom == s.params().bonded_denom,
        s.validator_info.contains_key(validator) ==> s.get_stake(
            delegator,
            validator,
        )->Ok_0.amount == s.values_at(validator)(delegator),
{
    if s.validator_info.contains_key(validator) {
        stake_value_is_defined(s, delegator, validator);
        if !s.stakes.contains_key((delegator, validator)) {
            assert(s.shares_of(delegator, validator).atomics == 0);
            let ts = s.validator_info[validator].total_shares.atomics as int;
            if ts != 0 {
                assert(0 * s.validator_info[validator].stake == 0);
                assert(0int / ts == 0) by (nonlinear_arith)
                    requires
                        ts > 0,
                ;
            }
        }
    } else {
        assert(!s.stakes.contains_key((delegator, validator)));
    }
}

/// The values of the shares of a set of delegators, taken together, are no
/// more than their part of the stake, and fall short of it by less than one
/// token for each of them.
proof fn lemma_values_against_shares(s: StorageView, validator: Seq<char>, who: Set<Seq<char>>)
    requires
        who.finite(),
        s.validator_info[validator].total_shares.atomics > 0,
    ensures
        sum_over(who, s.values_at(validator)) * s.validator_info[validator].total_shares.atomics
            <= s.validator_info[validator].stake * sum_over(who, s.shares_at(validator)),
        s.validator_info[validator].stake * sum_over(who, s.shares_at(validator)) + who.len() <= (
        sum_over(who, s.values_at(validator)) + who.len())
            * s.validator_info[validator].total_shares.atomics,
    decreases who.len(),
{
    let ts = s.validator_info[validator].total_shares.atomics as int;
    let stake = s.validator_info[validator].stake as int;
    if who.is_empty() {
        assert(who.len() == 0);
        assert(0 * ts == 0);
        assert(stake * 0 == 0);
    } else {
        let c = who.choose();
        let rest = who.remove(c);
        lemma_values_against_shares(s, validator, rest);
        let sh = s.shares_at(validator)(c);
        let val = s.values_at(validator)(c);
        assert(0 <= sh * stake) by (nonlinear_arith)
            requires
                0 <= sh,
                0 <= stake,
        ;
        lemma_floor_bounds(sh * stake, ts);
        let vals = sum_over(rest, s.values_at(validator));
        let shs = sum_over(rest, s.shares_at(validator));
        let n = rest.len() as int;
        assert(who.len() == n + 1);
        assert((val + vals) * ts <= stake * (sh + shs)) by (nonlinear_arith)
            requires
                val * ts <= sh * stake,
                vals * ts <= stake * shs,
        ;
        assert(stake * (sh + shs) + (n + 1) <= (val + vals + (n + 1)) * ts) by (nonlinear_arith)
            requires
                sh * stake < (val + 1) * ts,
                stake * shs + n <= (vals + n) * ts,
        ;
    }
}

/// What the delegators of a validator hold is worth, taken together, no more
/// than the validator's stake, and falls short of it by no more than one
/// token for each delegator.
pub proof fn stake_values_add_up_to_the_stake(s: StorageView, validator: Seq<char>)
    requires
        s.consistent(),
        s.validator_info.contains_key(validator),
    ensures
        sum_over(s.validator_info[validator].stakers, s.values_at(validator))
            <= s.validator_info[validator].stake,
        s.validator_info[validator].stake - s.validator_info[validator].stakers.len() <= sum_over(
            s.validator_info[validator].stakers,
            s.values_at(validator),
        ),
{
    let info = s.validator_info[validator];
    let ts = info.total_shares.atomics as int;
    let stake = info.stake as int;
    let who = info.stakers;
    let total = sum_over(who, s.values_at(validator));
    let n = who.len() as int;
    assert(s.ledger_consistent_at(validator));
    if ts > 0 {
        lemma_values_against_shares(s, validator, who);
        assert(total <= stake) by (nonlinear_arith)
            requires
                total * ts <= stake * ts,
                0 < ts,
        ;
        assert(stake - n <= total) by (nonlinear_arith)
            requires
                stake * ts + n <= (total + n) * ts,
                0 < ts,
                0 <= n,
        ;
    } else {
        assert forall|d: Seq<char>| !who.contains(d) by {
            if who.contains(d) {
                assert(s.stakes.contains_key((d, validator)));
                let f = s.shares_at(validator);
                assert forall|x: Seq<char>| who.contains(x) implies 0 <= #[trigger] f(x) by {}
                lemma_sum_bounds(who, f, d);
            }
        }
        assert(who =~= Set::<Seq<char>>::empty());
    }
}

/// While shares are worth exactly one token each, a change of stake leaves
/// them worth exactly one token each, and changes the delegator's shares by
/// one for each token. So it is in every state that staking and unstaking
/// reach without a slashing.
pub proof fn price_stays_at_par_without_slashing(
    s: StorageView,
    now: Timestamp,
    delegator: Seq<char>,
    validator: Seq<char>,
    amount: u128,
    sub: bool,
)
    requires
        s.update_stake(now, delegator, validator, amount, sub) is Ok,
        s.info_or_fresh(validator, now).total_shares.atomics == s.info_or_fresh(
            validator,
            now,
        ).stake * DECIMAL_FRACTIONAL,
    ensures
        ({
            let next = s.update_stake(now, delegator, validator, amount, sub)->Ok_0;
            &&& next.validator_info.contains_key(validator)
            &&& next.validator_info[validator].total_shares.atomics
                == next.validator_info[validator].stake * DECIMAL_FRACTIONAL
            &&& next.shares_of(delegator, validator).atomics == if sub {
                s.shares_of(delegator, validator).atomics - amount * DECIMAL_FRACTIONAL
            } else {
                s.shares_of(delegator, validator).atomics + amount * DECIMAL_FRACTIONAL
            }
        }),
{
    lemma_checkpoint_keeps_pool(s, now, validator);
    let info = s.checkpoint(now, validator)->Ok_0;
    let d = DECIMAL_FRACTIONAL as int;
    if info.stake == 0 {
        assert((amount * d) / 1 == amount * d);
    } else {
        crate::share_laws::shares_are_worth_their_price_at_par(info.stake, info.total_shares, amount);
    }
    assert((info.stake + amount) * d == info.stake * d + amount * d) by (nonlinear_arith);
    assert((info.stake - amount) * d == info.stake * d - amount * d) by (nonlinear_arith);
}

/// A slashing that leaves a validator without stake, as one by a hundred
/// percent does, leaves it without stakers and without shares, and leaves no
/// delegator with an entry for it. The entries for other validators stay.
pub proof fn full_slash_clears_the_ledger(s: StorageView, validator: Seq<char>, percentage: Decimal)
    requires
        s.consistent(),
        s.slash(validator, percentage) is Ok,
        percentage.atomics == DECIMAL_FRACTIONAL || StorageView::slashed_stake(
            s.validator_info[validator].stake,
            percentage,
        ) == 0,
    ensures
        ({
            let next = s.slash(validator, percentage)->Ok_0;
            &&& next.validator_info[validator].stake == 0
            &&& next.validator_info[validator].total_shares.atomics == 0
            &&& next.validator_info[validator].stakers == Set::<Seq<char>>::empty()
            &&& forall|d: Seq<char>| !next.stakes.contains_key((d, validator))
            &&& forall|d: Seq<char>, v: Seq<char>|
                v != validator ==> next.stakes.contains_key((d, v)) == s.stakes.contains_key(
                    (d, v),
                ) && (s.stakes.contains_key((d, v)) ==> #[trigger] next.stakes[(d, v)]
                    == s.stakes[(d, v)])
        }),
{
    let next = s.slash(validator, percentage)->Ok_0;
    let info = s.validator_info[validator];
    if percentage.atomics == DECIMAL_FRACTIONAL {
        assert(info.stake * 0 == 0);
        assert(0int / (DECIMAL_FRACTIONAL as int) == 0);
    }
    assert(s.ledger_consistent_at(validator));
    assert forall|d: Seq<char>| !next.stakes.contains_key((d, validator)) by {
        if s.stakes.contains_key((d, validator)) {
            assert(info.stakers.contains(d));
        }
    }
}

/// A slashing that leaves a validator with stake changes no delegator's
/// shares, and lowers the value of each delegator's shares in proportion, up
/// to rounding: the new value is within two tokens of the old value times the
/// part that was not slashed, and never above the old value.
pub proof fn slash_is_proportional(
    s: StorageView,
    validator: Seq<char>,
    percentage: Decimal,
    delegator: Seq<char>,
)
    requires
        s.consistent(),
        s.slash(validator, percentage) is Ok,
        s.slash(validator, percentage)->Ok_0.validator_info[validator].stake != 0,
    ensures
        ({
            let next = s.slash(validator, percentage)->Ok_0;
            let before = s.values_at(validator)(delegator);
            let after = next.values_at(validator)(delegator);
            let kept = DECIMAL_FRACTIONAL - percentage.atomics;
            &&& next.stakes == s.stakes
            &&& next.validator_info[validator].total_shares
                == s.validator_info[validator].total_shares
            &&& next.validator_info[validator].stakers == s.validator_info[validator].stakers
            &&& next.validator_info[validator].stake == StorageView::slashed_stake(
                s.validator_info[validator].stake,
                percentage,
            )
            &&& 0 <= after <= before
            &&& after * DECIMAL_FRACTIONAL <= (before + 1) * kept
            &&& before * kept < (after + 2) * DECIMAL_FRACTIONAL
        }),
{
    let next = s.slash(validator, percentage)->Ok_0;
    let info = s.validator_info[validator];
    let d = DECIMAL_FRACTIONAL as int;
    let r = d - percentage.atomics;
    let stake = info.stake as int;
    let left = StorageView::slashed_stake(info.stake, percentage) as int;
    let ts = info.total_shares.atomics as int;
    let sh = s.shares_of(delegator, validator).atomics as int;
    let before = s.values_at(validator)(delegator);
    let after = next.values_at(validator)(delegator);
    stake_value_is_defined(s, delegator, validator);
    assert(s.ledger_consistent_at(validator));
    assert(0 <= stake * r <= stake * d) by (nonlinear_arith)
        requires
            0 <= r <= d,
            0 <= stake,
    ;
    lemma_floor_bounds(stake * r, d);
    vstd::arithmetic::div_mod::lemma_div_is_ordered(stake * r, stake * d, d);
    vstd::arithmetic::div_mod::lemma_div_by_multiple(stake, d);
    assert(left == stake * r / d);
    assert(left <= stake);
    assert(left > 0);
    assert(stake > 0);
    assert(ts > 0) by (nonlinear_arith)
        requires
            ts >= stake * d,
            stake > 0,
            d > 0,
    ;
    assert(next.shares_of(delegator, validator) == s.shares_of(delegator, validator));
    assert(0 <= sh * stake) by (nonlinear_arith)
        requires
            0 <= sh,
            0 <= stake,
    ;
    assert(0 <= sh * left <= sh * stake) by (nonlinear_arith)
        requires
            0 <= sh,
            0 <= left <= stake,
    ;
    lemma_floor_bounds(sh * stake, ts);
    lemma_floor_bounds(sh * left, ts);
    vstd::arithmetic::div_mod::lemma_div_is_ordered(sh * left, sh * stake, ts);
    assert(before == sh * stake / ts);
    assert(after == sh * left / ts);
    // after * ts * d <= sh * left * d <= sh * stake * r < (before + 1) * ts * r
    assert(after * d <= (before + 1) * r) by (nonlinear_arith)
        requires
            after * ts <= sh * left,
            left * d <= stake * r,
            sh * stake < (before + 1) * ts,
            0 <= sh,
            0 <= r,
            0 < d,
            0 < ts,
            0 <= after,
            0 <= before,
    ;
    // before * ts * r <= sh * stake * r < sh * (left + 1) * d <= (after + 2) * ts * d
    assert(before * r < (after + 2) * d) by (nonlinear_arith)
        requires
            before * ts <= sh * stake,
            stake * r < (left + 1) * d,
            sh * left < (after + 1) * ts,
            0 <= sh <= ts,
            0 <= r,
            0 < d,
            0 < ts,
            0 <= after,
            0 <= before,
    ;
}

} // verus!
