//! Laws of the price of a share: what the shares that an amount buys are
//! worth.

use crate::decimal::{lemma_floor_bounds, Decimal, DECIMAL_FRACTIONAL};
use crate::ledger::{spec_shares_for, spec_stake_value};
use vstd::prelude::*;

verus! {

/// A pool without stake issues exactly one share per token, and in the pool
/// that this makes the shares are worth the tokens that were paid for them.
pub proof fn first_staker_gets_one_share_per_token(total_shares: Decimal, amount: u128)
    requires
        amount * DECIMAL_FRACTIONAL <= u128::MAX,
    ensures
        spec_shares_for(0, total_shares, amount) == Some(
            Decimal { atomics: (amount * DECIMAL_FRACTIONAL) as u128 },
        ),
        spec_stake_value(
            Decimal { atomics: (amount * DECIMAL_FRACTIONAL) as u128 },
            amount,
            Decimal { atomics: (amount * DECIMAL_FRACTIONAL) as u128 },
        ) == Some(amount),
{
    let d = DECIMAL_FRACTIONAL as int;
    let a = amount as int;
    assert((a * d) / 1 == a * d);
    if amount > 0 {
        assert(0 < a * d) by (nonlinear_arith)
            requires
                0 < a,
                0 < d,
        ;
        assert(((a * d) * a) == a * (a * d)) by (nonlinear_arith);
        vstd::arithmetic::div_mod::lemma_div_by_multiple(a, a * d);
    }
}

/// While a share is worth exactly one token, the shares issued for an amount
/// are that amount of shares, and they are worth that amount.
pub proof fn shares_are_worth_their_price_at_par(
    total_stake: u128,
    total_shares: Decimal,
    amount: u128,
)
    requires
        total_stake > 0,
        total_shares.atomics == total_stake * DECIMAL_FRACTIONAL,
        spec_shares_for(total_stake, total_shares, amount) is Some,
    ensures
        amount * DECIMAL_FRACTIONAL <= u128::MAX,
        spec_shares_for(total_stake, total_shares, amount) == Some(
            Decimal { atomics: (amount * DECIMAL_FRACTIONAL) as u128 },
        ),
        spec_stake_value(
            spec_shares_for(total_stake, total_shares, amount)->Some_0,
            total_stake,
            total_shares,
        ) == Some(amount),
{
    let d = DECIMAL_FRACTIONAL as int;
    let a = amount as int;
    let s = total_stake as int;
    let ts = total_shares.atomics as int;
    assert(a * ts == (a * d) * s) by (nonlinear_arith)
        requires
            ts == s * d,
    ;
    assert(0 <= a * d) by (nonlinear_arith)
        requires
            0 <= a,
            0 < d,
    ;
    vstd::arithmetic::div_mod::lemma_div_by_multiple(a * d, s);
    assert((a * d) * s == a * ts) by (nonlinear_arith)
        requires
            ts == s * d,
    ;
    assert(0 < ts) by (nonlinear_arith)
        requires
            ts == s * d,
            0 < s,
            0 < d,
    ;
    vstd::arithmetic::div_mod::lemma_div_by_multiple(a, ts);
}

/// While a share is worth at most one token, the shares issued for an amount
/// are worth that amount or one token less, never more, and there is at
/// least one of them for each token.
pub proof fn shares_are_worth_their_price(total_stake: u128, total_shares: Decimal, amount: u128)
    requires
        total_stake > 0,
        total_shares.atomics >= total_stake * DECIMAL_FRACTIONAL,
        spec_shares_for(total_stake, total_shares, amount) is Some,
    ensures
        spec_stake_value(
            spec_shares_for(total_stake, total_shares, amount)->Some_0,
            total_stake,
            total_shares,
        ) is Some,
        amount - 1 <= spec_stake_value(
            spec_shares_for(total_stake, total_shares, amount)->Some_0,
            total_stake,
            total_shares,
        )->Some_0 <= amount,
        spec_shares_for(total_stake, total_shares, amount)->Some_0.atomics >= amount
            * DECIMAL_FRACTIONAL,
{
    let d = DECIMAL_FRACTIONAL as int;
    let a = amount as int;
    let s = total_stake as int;
    let ts = total_shares.atomics as int;
    let sh = a * ts / s;
    assert(0 <= a * ts) by (nonlinear_arith)
        requires
            0 <= a,
            0 <= ts,
    ;
    lemma_floor_bounds(a * ts, s);
    assert(0 <= sh * s) by (nonlinear_arith)
        requires
            0 <= sh,
            0 < s,
    ;
    assert(ts >= 1) by (nonlinear_arith)
        requires
            ts >= s * d,
            s >= 1,
            d >= 1,
    ;
    lemma_floor_bounds(sh * s, ts);
    let v = sh * s / ts;
    // v * ts <= sh * s <= a * ts, so v <= a
    assert(v <= a) by (nonlinear_arith)
        requires
            v * ts <= sh * s,
            sh * s <= a * ts,
            0 < ts,
    ;
    // a * ts < (sh + 1) * s and sh * s < (v + 1) * ts and s <= ts give a < v + 2
    assert(a - 1 <= v) by (nonlinear_arith)
        requires
            a * ts < (sh + 1) * s,
            sh * s < (v + 1) * ts,
            s <= ts,
            0 < s,
    ;
    assert(s <= ts) by (nonlinear_arith)
        requires
            ts >= s * d,
            s >= 1,
            d >= 1,
    ;
    // the shares are at least a * d
    assert((a * d) * s <= a * ts) by (nonlinear_arith)
        requires
            ts >= s * d,
            0 <= a,
    ;
    assert(a * d <= sh) by (nonlinear_arith)
        requires
            (a * d) * s <= a * ts,
            a * ts < (sh + 1) * s,
            0 < s,
    ;
}

} // verus!
