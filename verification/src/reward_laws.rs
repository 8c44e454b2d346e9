//! Laws of reward accrual and of the withdrawal of rewards.

use crate::decimal::{lemma_floor_bounds, Decimal, DECIMAL_FRACTIONAL};
use crate::invariants::lemma_checkpoint_keeps_pool;
use crate::ledger::{spec_share_of_rewards, ValidatorInfoView};
use crate::ledger_laws::stake_value_is_defined;
use crate::rewards::{
    spec_calculate_rewards, spec_gross_reward, spec_net_reward, spec_update_rewards,
    SECONDS_PER_YEAR,
};
use crate::storage::StorageView;
use crate::types::{CoinView, StakingError, Timestamp, NANOS_PER_SECOND};
use vstd::arithmetic::div_mod::lemma_div_is_ordered;
use vstd::prelude::*;

verus! {

/// The seconds since a fixed time do not shrink as time goes on.
pub proof fn lemma_elapsed_grows(t1: Timestamp, t2: Timestamp, since: Timestamp)
    requires
        t1.nanos <= t2.nanos,
    ensures
        0 <= t1.spec_seconds_since(since) <= t2.spec_seconds_since(since),
{
    lemma_div_is_ordered(t1.nanos as int, t2.nanos as int, NANOS_PER_SECOND as int);
}

/// The interest on a stake does not shrink as the time grows over which it
/// is earned.
pub proof fn lemma_gross_grows(stake: u128, apr: Decimal, e1: int, e2: int)
    requires
        0 <= e1 <= e2,
        spec_gross_reward(stake, apr, e1) is Some,
        spec_gross_reward(stake, apr, e2) is Some,
    ensures
        spec_gross_reward(stake, apr, e1)->Some_0.atomics <= spec_gross_reward(
            stake,
            apr,
            e2,
        )->Some_0.atomics,
{
    let p = stake * apr.atomics;
    assert(0 <= p) by (nonlinear_arith)
        requires
            p == stake * apr.atomics,
    ;
    assert(p * e1 <= p * e2) by (nonlinear_arith)
        requires
            0 <= p,
            e1 <= e2,
    ;
    lemma_div_is_ordered(p * e1, p * e2, SECONDS_PER_YEAR as int);
}

/// What is left after the commission does not shrink as the whole grows.
pub proof fn lemma_net_grows(g1: Decimal, g2: Decimal, commission: Decimal)
    requires
        g1.atomics <= g2.atomics,
        spec_net_reward(g1, commission) is Some,
        spec_net_reward(g2, commission) is Some,
    ensures
        spec_net_reward(g1, commission)->Some_0.atomics <= spec_net_reward(
            g2,
            commission,
        )->Some_0.atomics,
{
    let d = DECIMAL_FRACTIONAL as int;
    let c = commission.atomics as int;
    let a = g1.atomics as int;
    let b = g2.atomics as int;
    let fa = a * c / d;
    let fb = b * c / d;
    assert(0 <= a * c && 0 <= b * c) by (nonlinear_arith)
        requires
            0 <= a,
            0 <= b,
            0 <= c,
    ;
    lemma_floor_bounds(a * c, d);
    lemma_floor_bounds(b * c, d);
    if c <= d {
        // b * c <= a * c + (b - a) * d, so fb <= fa + (b - a)
        assert(fb * d < (fa + 1 + (b - a)) * d) by (nonlinear_arith)
            requires
                fb * d <= b * c,
                a * c < (fa + 1) * d,
                0 <= c <= d,
                a <= b,
        ;
        assert(fb < fa + 1 + (b - a)) by (nonlinear_arith)
            requires
                fb * d < (fa + 1 + (b - a)) * d,
                0 < d,
        ;
    } else {
        // the commission takes all of either: fa >= a and fb >= b
        assert(a * d <= a * c) by (nonlinear_arith)
            requires
                0 <= a,
                d < c,
        ;
        assert(a < fa + 1) by (nonlinear_arith)
            requires
                a * d <= a * c,
                a * c < (fa + 1) * d,
                0 < d,
        ;
        assert(b * d <= b * c) by (nonlinear_arith)
            requires
                0 <= b,
                d < c,
        ;
        assert(b < fb + 1) by (nonlinear_arith)
            requires
                b * d <= b * c,
                b * c < (fb + 1) * d,
                0 < d,
        ;
    }
}

/// A delegator's part of the rewards does not shrink as the rewards grow.
pub proof fn lemma_share_grows(shares: Decimal, total_shares: Decimal, r1: Decimal, r2: Decimal)
    requires
        r1.atomics <= r2.atomics,
        spec_share_of_rewards(shares, total_shares, r1) is Some,
        spec_share_of_rewards(shares, total_shares, r2) is Some,
    ensures
        spec_share_of_rewards(shares, total_shares, r1)->Some_0.atomics <= spec_share_of_rewards(
            shares,
            total_shares,
            r2,
        )->Some_0.atomics,
{
    let d = DECIMAL_FRACTIONAL as int;
    let sh = shares.atomics as int;
    let ts = total_shares.atomics as int;
    assert(0 <= sh * r1.atomics <= sh * r2.atomics) by (nonlinear_arith)
        requires
            0 <= sh,
            0 <= r1.atomics <= r2.atomics,
    ;
    lemma_div_is_ordered(sh * r1.atomics, sh * r2.atomics, d);
    let x1 = sh * r1.atomics / d;
    let x2 = sh * r2.atomics / d;
    assert(x1 * d <= x2 * d) by (nonlinear_arith)
        requires
            x1 <= x2,
            0 < d,
    ;
    lemma_div_is_ordered(x1 * d, x2 * d, ts);
}

/// A checkpoint adds to the accrued rewards of a validator or leaves them,
/// and a later checkpoint of the same state leaves no less accrued than an
/// earlier one. Neither changes the stake or the shares.
pub proof fn lemma_checkpoint_grows(
    t1: Timestamp,
    t2: Timestamp,
    apr: Decimal,
    info: ValidatorInfoView,
    commission: Decimal,
)
    requires
        t1.nanos <= t2.nanos,
        spec_update_rewards(t1, apr, info, commission) is Some,
        spec_update_rewards(t2, apr, info, commission) is Some,
    ensures
        ({
            let p1 = spec_update_rewards(t1, apr, info, commission)->Some_0;
            let p2 = spec_update_rewards(t2, apr, info, commission)->Some_0;
            &&& p1.total_shares == info.total_shares
            &&& p2.total_shares == info.total_shares
            &&& p1.stake == info.stake
            &&& p2.stake == info.stake
            &&& info.calculated_rewards.atomics <= p1.calculated_rewards.atomics
            &&& p1.calculated_rewards.atomics <= p2.calculated_rewards.atomics
        }),
{
    let since = info.last_rewards_calculation;
    if since.nanos < t1.nanos {
        lemma_elapsed_grows(t1, t2, since);
        let e1 = t1.spec_seconds_since(since);
        let e2 = t2.spec_seconds_since(since);
        lemma_gross_grows(info.stake, apr, e1, e2);
        let g1 = spec_gross_reward(info.stake, apr, e1)->Some_0;
        let g2 = spec_gross_reward(info.stake, apr, e2)->Some_0;
        lemma_net_grows(g1, g2, commission);
    }
}

/// A checkpoint at a time at which the state was checkpointed already
/// changes nothing, whatever became of the accrued rewards in between.
pub proof fn lemma_checkpoint_is_idempotent(
    now: Timestamp,
    apr: Decimal,
    info: ValidatorInfoView,
    commission: Decimal,
    left: Decimal,
)
    requires
        spec_update_rewards(now, apr, info, commission) is Some,
    ensures
        ({
            let after = ValidatorInfoView {
                calculated_rewards: left,
                ..spec_update_rewards(now, apr, info, commission)->Some_0
            };
            spec_update_rewards(now, apr, after, commission) == Some(after)
        }),
{
}

/// In a state that does not change, the rewards of a delegator at a
/// validator do not shrink as time goes on.
pub proof fn rewards_grow_with_time(
    s: StorageView,
    t1: Timestamp,
    t2: Timestamp,
    delegator: Seq<char>,
    validator: Seq<char>,
)
    requires
        t1.nanos <= t2.nanos,
        s.get_rewards(t1, delegator, validator) is Ok,
        s.get_rewards(t2, delegator, validator) is Ok,
    ensures
        s.get_rewards(t1, delegator, validator)->Ok_0 is Some == s.get_rewards(
            t2,
            delegator,
            validator,
        )->Ok_0 is Some,
        s.get_rewards(t1, delegator, validator)->Ok_0 is Some ==> s.get_rewards(
            t1,
            delegator,
            validator,
        )->Ok_0->Some_0.amount <= s.get_rewards(t2, delegator, validator)->Ok_0->Some_0.amount,
{
    if s.get_rewards(t1, delegator, validator)->Ok_0 is Some {
        let shares = s.stakes[(delegator, validator)].0;
        let info = s.validator_info[validator];
        let commission = s.validator_map[validator].commission;
        let apr = s.params().apr;
        lemma_checkpoint_grows(t1, t2, apr, info, commission);
        let p1 = spec_update_rewards(t1, apr, info, commission)->Some_0;
        let p2 = spec_update_rewards(t2, apr, info, commission)->Some_0;
        lemma_share_grows(
            shares,
            info.total_shares,
            p1.calculated_rewards,
            p2.calculated_rewards,
        );
        let part1 = spec_share_of_rewards(shares, info.total_shares, p1.calculated_rewards)->Some_0;
        let part2 = spec_share_of_rewards(shares, info.total_shares, p2.calculated_rewards)->Some_0;
        lemma_div_is_ordered(
            part1.atomics as int,
            part2.atomics as int,
            DECIMAL_FRACTIONAL as int,
        );
    }
}

/// Where a delegator's part of some rewards can be told, its part of less
/// can be told as well.
pub proof fn lemma_share_of_less(shares: Decimal, total_shares: Decimal, r1: Decimal, r2: Decimal)
    requires
        r1.atomics <= r2.atomics,
        spec_share_of_rewards(shares, total_shares, r2) is Some,
    ensures
        spec_share_of_rewards(shares, total_shares, r1) is Some,
{
    let d = DECIMAL_FRACTIONAL as int;
    let sh = shares.atomics as int;
    let ts = total_shares.atomics as int;
    assert(0 <= sh * r1.atomics <= sh * r2.atomics) by (nonlinear_arith)
        requires
            0 <= sh,
            0 <= r1.atomics <= r2.atomics,
    ;
    lemma_div_is_ordered(sh * r1.atomics, sh * r2.atomics, d);
    vstd::arithmetic::div_mod::lemma_div_pos_is_pos(sh * r1.atomics, d);
    let x1 = sh * r1.atomics / d;
    let x2 = sh * r2.atomics / d;
    assert(0 <= x1 * d <= x2 * d) by (nonlinear_arith)
        requires
            0 <= x1 <= x2,
            0 < d,
    ;
    lemma_div_is_ordered(x1 * d, x2 * d, ts);
    vstd::arithmetic::div_mod::lemma_div_pos_is_pos(x1 * d, ts);
}

/// The part of the rewards that falls to the holder of all shares is all of
/// them but, at most, one atomic unit that is lost to rounding.
pub proof fn lemma_sole_holder_takes_all(total_shares: Decimal, rewards: Decimal)
    requires
        total_shares.atomics >= DECIMAL_FRACTIONAL,
        spec_share_of_rewards(total_shares, total_shares, rewards) is Some,
    ensures
        rewards.atomics - 1 <= spec_share_of_rewards(
            total_shares,
            total_shares,
            rewards,
        )->Some_0.atomics <= rewards.atomics,
{
    let d = DECIMAL_FRACTIONAL as int;
    let ts = total_shares.atomics as int;
    let r = rewards.atomics as int;
    assert(0 <= ts * r) by (nonlinear_arith)
        requires
            0 <= ts,
            0 <= r,
    ;
    lemma_floor_bounds(ts * r, d);
    let x = ts * r / d;
    assert(0 <= x * d) by (nonlinear_arith)
        requires
            0 <= x,
            0 < d,
    ;
    lemma_floor_bounds(x * d, ts);
    let part = x * d / ts;
    assert(part <= r) by (nonlinear_arith)
        requires
            part * ts <= x * d,
            x * d <= ts * r,
            0 < ts,
    ;
    assert(r < part + 2) by (nonlinear_arith)
        requires
            ts * r < (x + 1) * d,
            x * d < (part + 1) * ts,
            d <= ts,
            0 < ts,
    ;
}

/// A delegator's part of the rewards is no more than the rewards, whatever
/// the delegator's shares, as long as they are no more than all shares.
pub proof fn lemma_share_is_a_part(shares: Decimal, total_shares: Decimal, rewards: Decimal)
    requires
        shares.atomics <= total_shares.atomics,
        spec_share_of_rewards(shares, total_shares, rewards) is Some,
    ensures
        spec_share_of_rewards(shares, total_shares, rewards)->Some_0.atomics <= rewards.atomics,
{
    let d = DECIMAL_FRACTIONAL as int;
    let sh = shares.atomics as int;
    let ts = total_shares.atomics as int;
    let r = rewards.atomics as int;
    assert(0 <= sh * r <= ts * r) by (nonlinear_arith)
        requires
            0 <= sh <= ts,
            0 <= r,
    ;
    lemma_floor_bounds(sh * r, d);
    let x = sh * r / d;
    assert(0 <= x * d) by (nonlinear_arith)
        requires
            0 <= x,
            0 < d,
    ;
    lemma_floor_bounds(x * d, ts);
    let part = x * d / ts;
    assert(part <= r) by (nonlinear_arith)
        requires
            part * ts <= x * d,
            x * d <= sh * r,
            sh * r <= ts * r,
            0 < ts,
    ;
}

/// What a withdrawal pays is what the query of the rewards showed in the
/// same block.
pub proof fn withdrawal_pays_what_was_shown(
    s: StorageView,
    now: Timestamp,
    delegator: Seq<char>,
    validator: Seq<char>,
)
    requires
        s.withdraw_rewards(now, delegator, validator) is Ok,
    ensures
        s.get_rewards(now, delegator, validator) == Ok::<Option<CoinView>, StakingError>(
            Some(
                CoinView {
                    denom: s.params().bonded_denom,
                    amount: s.withdraw_rewards(now, delegator, validator)->Ok_0.1,
                },
            ),
        ),
{
}

/// In a consistent state, the rewards that the query shows a delegator can
/// be withdrawn in the same block, and the withdrawal pays them.
pub proof fn shown_rewards_can_be_withdrawn(
    s: StorageView,
    now: Timestamp,
    delegator: Seq<char>,
    validator: Seq<char>,
)
    requires
        s.consistent(),
        s.get_rewards(now, delegator, validator) is Ok,
        s.get_rewards(now, delegator, validator)->Ok_0 is Some,
    ensures
        s.withdraw_rewards(now, delegator, validator) is Ok,
        s.withdraw_rewards(now, delegator, validator)->Ok_0.1 == s.get_rewards(
            now,
            delegator,
            validator,
        )->Ok_0->Some_0.amount,
{
    let info = s.validator_info[validator];
    let projected = spec_update_rewards(
        now,
        s.params().apr,
        info,
        s.validator_map[validator].commission,
    )->Some_0;
    stake_value_is_defined(s, delegator, validator);
    lemma_share_is_a_part(
        s.stakes[(delegator, validator)].0,
        projected.total_shares,
        projected.calculated_rewards,
    );
}

/// A withdrawal takes the delegator's part out of the accrued rewards of the
/// validator and does not move its checkpoint back. Right after it, in the
/// same block, the delegator is shown its part of what stayed, and nothing
/// of what it has withdrawn.
pub proof fn rewards_right_after_withdrawal(
    s: StorageView,
    now: Timestamp,
    delegator: Seq<char>,
    validator: Seq<char>,
)
    requires
        s.withdraw_rewards(now, delegator, validator) is Ok,
    ensures
        ({
            let next = s.withdraw_rewards(now, delegator, validator)->Ok_0.0;
            let before = s.checkpoint(now, validator)->Ok_0;
            let after = next.validator_info[validator];
            let shares = s.stakes[(delegator, validator)].0;
            let paid = spec_share_of_rewards(
                shares,
                before.total_shares,
                before.calculated_rewards,
            )->Some_0;
            let shown = spec_share_of_rewards(
                shares,
                after.total_shares,
                after.calculated_rewards,
            );
            &&& after.calculated_rewards.atomics + paid.atomics
                == before.calculated_rewards.atomics
            &&& after.last_rewards_calculation.nanos
                >= s.validator_info[validator].last_rewards_calculation.nanos
            &&& after.total_shares == before.total_shares
            &&& next.stakes == s.stakes
            &&& shown is Some
            &&& next.get_rewards(now, delegator, validator) == Ok::<
                Option<CoinView>,
                StakingError,
            >(
                Some(
                    CoinView {
                        denom: s.params().bonded_denom,
                        amount: shown->Some_0.atomics / DECIMAL_FRACTIONAL,
                    },
                ),
            )
        }),
{
    let next = s.withdraw_rewards(now, delegator, validator)->Ok_0.0;
    let info = s.validator_info[validator];
    let apr = s.params().apr;
    let commission = s.validator_map[validator].commission;
    let before = s.checkpoint(now, validator)->Ok_0;
    let after = next.validator_info[validator];
    let shares = s.stakes[(delegator, validator)].0;
    assert(before == spec_update_rewards(now, apr, info, commission)->Some_0);
    lemma_checkpoint_is_idempotent(now, apr, info, commission, after.calculated_rewards);
    assert(after == (ValidatorInfoView {
        calculated_rewards: after.calculated_rewards,
        ..before
    }));
    lemma_share_of_less(
        shares,
        before.total_shares,
        after.calculated_rewards,
        before.calculated_rewards,
    );
}

/// Right after the only delegator of a validator has withdrawn its rewards,
/// it is shown no rewards.
pub proof fn rewards_are_zero_right_after_withdrawal(
    s: StorageView,
    now: Timestamp,
    delegator: Seq<char>,
    validator: Seq<char>,
)
    requires
        s.consistent(),
        s.withdraw_rewards(now, delegator, validator) is Ok,
        s.shares_of(delegator, validator) == s.validator_info[validator].total_shares,
    ensures
        s.withdraw_rewards(now, delegator, validator)->Ok_0.0.validator_info[validator].calculated_rewards.atomics
            <= 1,
        s.withdraw_rewards(now, delegator, validator)->Ok_0.0.get_rewards(
            now,
            delegator,
            validator,
        ) == Ok::<Option<CoinView>, StakingError>(
            Some(CoinView { denom: s.params().bonded_denom, amount: 0 }),
        ),
{
    let next = s.withdraw_rewards(now, delegator, validator)->Ok_0.0;
    rewards_right_after_withdrawal(s, now, delegator, validator);
    lemma_checkpoint_keeps_pool(s, now, validator);
    let before = s.checkpoint(now, validator)->Ok_0;
    let after = next.validator_info[validator];
    let ts = after.total_shares;
    let d = DECIMAL_FRACTIONAL as int;
    assert(s.ledger_consistent_at(validator));
    assert(ts.atomics > 0);
    assert(ts.atomics >= d) by (nonlinear_arith)
        requires
            ts.atomics >= after.stake * d,
            after.stake >= 1,
            d > 0,
    ;
    lemma_sole_holder_takes_all(ts, before.calculated_rewards);
    lemma_share_is_a_part(ts, ts, after.calculated_rewards);
    let shown = spec_share_of_rewards(ts, ts, after.calculated_rewards)->Some_0;
    assert(shown.atomics as int / d == 0);
}

/// Once the only delegator of a validator has withdrawn its rewards, the
/// rewards that it is shown at any later time are covered by the interest
/// that the validator has earned since its last checkpoint. Nothing of what
/// was withdrawn is counted again; at most one atomic unit that the
/// withdrawal lost to rounding is.
///
/// This is stated of a validator with one delegator only. Where there are
/// several, the rewards that stay with the validator are shared by all of
/// them, also by the one that has withdrawn:
/// [`rewards_right_after_withdrawal`] says what each is shown.
pub proof fn withdrawn_rewards_are_not_counted_again(
    s: StorageView,
    now: Timestamp,
    later: Timestamp,
    delegator: Seq<char>,
    validator: Seq<char>,
)
    requires
        s.consistent(),
        s.withdraw_rewards(now, delegator, validator) is Ok,
        s.shares_of(delegator, validator) == s.validator_info[validator].total_shares,
        s.withdraw_rewards(now, delegator, validator)->Ok_0.0.get_rewards(
            later,
            delegator,
            validator,
        ) is Ok,
    ensures
        ({
            let next = s.withdraw_rewards(now, delegator, validator)->Ok_0.0;
            let info = next.validator_info[validator];
            let interest = spec_calculate_rewards(
                later,
                info.last_rewards_calculation,
                next.params().apr,
                next.validator_map[validator].commission,
                info.stake,
            );
            let pending = if info.last_rewards_calculation.nanos < later.nanos
                && interest is Some {
                interest->Some_0.atomics as int
            } else {
                0
            };
            let shown = next.get_rewards(later, delegator, validator)->Ok_0;
            &&& info.calculated_rewards.atomics <= 1
            &&& shown is Some
            &&& shown->Some_0.amount * DECIMAL_FRACTIONAL <= pending + 1
        }),
{
    let next = s.withdraw_rewards(now, delegator, validator)->Ok_0.0;
    rewards_are_zero_right_after_withdrawal(s, now, delegator, validator);
    let info = next.validator_info[validator];
    let ts = info.total_shares;
    let d = DECIMAL_FRACTIONAL as int;
    let projected = spec_update_rewards(
        later,
        next.params().apr,
        info,
        next.validator_map[validator].commission,
    )->Some_0;
    lemma_share_is_a_part(ts, ts, projected.calculated_rewards);
    let part = spec_share_of_rewards(ts, ts, projected.calculated_rewards)->Some_0;
    lemma_floor_bounds(part.atomics as int, d);
}

} // verus!
