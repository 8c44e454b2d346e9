//! The share-price ledger of one validator.
//!
//! A delegator owns shares of a validator's pool, not tokens. The pool's
//! price is its stake divided by the shares it has issued; slashing lowers
//! the stake and with it the value of every share, and no delegator's record
//! has to be touched.

use crate::decimal::{floor_ratio, mul_ratio, Decimal, DECIMAL_FRACTIONAL};
use crate::types::Timestamp;
use vstd::arithmetic::div_mod::{lemma_div_by_multiple, lemma_div_denominator};
use vstd::prelude::*;

verus! {

/// A set of account addresses. No address is held twice.
#[derive(Debug)]
pub struct AddrSet {
    items: Vec<String>,
}

impl View for AddrSet {
    type V = Set<Seq<char>>;

    closed spec fn view(&self) -> Set<Seq<char>> {
        Self::set_of(self.items@)
    }
}

impl AddrSet {
    /// The addresses that occur in `items`.
    pub closed spec fn set_of(items: Seq<String>) -> Set<Seq<char>> {
        Set::new(|a: Seq<char>| exists|i: int| 0 <= i < items.len() && (#[trigger] items[i])@ == a)
    }

    /// Whether no address occurs twice in `items`.
    pub open spec fn distinct(items: Seq<String>) -> bool {
        forall|i: int, j: int|
            0 <= i < j < items.len() ==> (#[trigger] items[i])@ != (#[trigger] items[j])@
    }

    #[verifier::type_invariant]
    spec fn no_address_twice(&self) -> bool {
        Self::distinct(self.items@)
    }

    /// The empty set.
    pub fn new() -> (r: Self)
        ensures
            r@ == Set::<Seq<char>>::empty(),
    {
        let r = AddrSet { items: Vec::new() };
        assert(r@ =~= Set::<Seq<char>>::empty());
        r
    }

    /// Whether `addr` is in the set.
    pub fn contains(&self, addr: &String) -> (r: bool)
        ensures
            r == self@.contains(addr@),
    {
        let mut i: usize = 0;
        while i < self.items.len()
            invariant
                i <= self.items.len(),
                forall|j: int| 0 <= j < i ==> (#[trigger] self.items[j])@ != addr@,
            decreases self.items.len() - i,
        {
            if self.items[i] == *addr {
                return true;
            }
            i += 1;
        }
        false
    }

    /// A copy of the addresses as they are held.
    fn copy_items(&self) -> (r: Vec<String>)
        ensures
            r.len() == self.items.len(),
            forall|j: int| 0 <= j < r.len() ==> (#[trigger] r[j])@ == self.items[j]@,
    {
        let mut out: Vec<String> = Vec::new();
        let mut i: usize = 0;
        while i < self.items.len()
            invariant
                i <= self.items.len(),
                out.len() == i,
                forall|j: int| 0 <= j < i ==> (#[trigger] out[j])@ == self.items[j]@,
            decreases self.items.len() - i,
        {
            out.push(self.items[i].clone());
            i += 1;
        }
        out
    }

    /// Adds `addr` to the set.
    pub fn insert(&mut self, addr: String)
        ensures
            final(self)@ == old(self)@.insert(addr@),
    {
        proof {
            use_type_invariant(&*self);
        }
        let ghost before = self.items@;
        if !self.contains(&addr) {
            let mut items = self.copy_items();
            items.push(addr);
            proof {
                let after = items@;
                let n = before.len() as int;
                assert(after[n]@ == addr@);
                assert forall|i: int, j: int| 0 <= i < j < after.len() implies (
                #[trigger] after[i])@ != (#[trigger] after[j])@ by {
                    assert(after[i]@ == before[i]@);
                    if j < n {
                        assert(after[j]@ == before[j]@);
                    } else {
                        assert(!Self::set_of(before).contains(addr@));
                    }
                }
                assert forall|a: Seq<char>| Self::set_of(before).insert(addr@).contains(a)
                    implies Self::set_of(after).contains(a) by {
                    if a != addr@ {
                        let i = choose|i: int| 0 <= i < before.len() && (#[trigger] before[i])@ == a;
                        assert(after[i]@ == a);
                    }
                }
                assert forall|a: Seq<char>| Self::set_of(after).contains(a)
                    implies Self::set_of(before).insert(addr@).contains(a) by {
                    let i = choose|i: int| 0 <= i < after.len() && (#[trigger] after[i])@ == a;
                    if i < n {
                        assert(before[i]@ == a);
                    }
                }
                assert(Self::set_of(after) =~= Self::set_of(before).insert(addr@));
            }
            self.items = items;
        } else {
            assert(Self::set_of(before) =~= Self::set_of(before).insert(addr@));
        }
    }

    /// Takes `addr` out of the set.
    pub fn remove(&mut self, addr: &String)
        ensures
            final(self)@ == old(self)@.remove(addr@),
    {
        proof {
            use_type_invariant(&*self);
        }
        let ghost before = self.items@;
        let mut kept: Vec<String> = Vec::new();
        let mut i: usize = 0;
        while i < self.items.len()
            invariant
                i <= self.items.len(),
                self.items@ == before,
                Self::distinct(before),
                Self::distinct(kept@),
                forall|w: int|
                    0 <= w < kept.len() ==> exists|j: int|
                        0 <= j < i && (#[trigger] before[j])@ == (#[trigger] kept[w])@,
                Self::set_of(kept@) == Self::set_of(before.subrange(0, i as int)).remove(addr@),
            decreases self.items.len() - i,
        {
            let ghost kept_before = kept@;
            let ghost seen = before.subrange(0, i as int);
            let ghost seen_next = before.subrange(0, i as int + 1);
            let different = !(self.items[i] == *addr);
            if different {
                kept.push(self.items[i].clone());
            }
            proof {
                let item = before[i as int]@;
                assert(seen_next[i as int]@ == item);
                assert forall|w: int| 0 <= w < kept.len() implies exists|j: int|
                    0 <= j < i + 1 && (#[trigger] before[j])@ == (#[trigger] kept[w])@ by {
                    if w < kept_before.len() {
                        assert(kept[w] == kept_before[w]);
                        let j = choose|j: int|
                            0 <= j < i && (#[trigger] before[j])@ == (#[trigger] kept_before[w])@;
                        assert(before[j]@ == kept[w]@);
                    } else {
                        assert(before[i as int]@ == kept[w]@);
                    }
                }
                assert forall|x: int, y: int| 0 <= x < y < kept.len() implies (
                #[trigger] kept[x])@ != (#[trigger] kept[y])@ by {
                    assert(kept[x] == kept_before[x]);
                    if y < kept_before.len() {
                        assert(kept[y] == kept_before[y]);
                    } else {
                        let j = choose|j: int|
                            0 <= j < i && (#[trigger] before[j])@ == (#[trigger] kept_before[x])@;
                        assert(before[j]@ != before[i as int]@);
                    }
                }
                assert forall|a: Seq<char>| Self::set_of(seen_next).remove(addr@).contains(a)
                    implies Self::set_of(kept@).contains(a) by {
                    let j = choose|j: int| 0 <= j < seen_next.len() && (#[trigger] seen_next[j])@ == a;
                    if j < i {
                        assert(seen[j]@ == a);
                        assert(Self::set_of(seen).remove(addr@).contains(a));
                        let w = choose|w: int|
                            0 <= w < kept_before.len() && (#[trigger] kept_before[w])@ == a;
                        assert(kept@[w]@ == a);
                    } else {
                        assert(kept@[kept_before.len() as int]@ == a);
                    }
                }
                assert forall|a: Seq<char>| Self::set_of(kept@).contains(a)
                    implies Self::set_of(seen_next).remove(addr@).contains(a) by {
                    let w = choose|w: int| 0 <= w < kept@.len() && (#[trigger] kept@[w])@ == a;
                    if w < kept_before.len() {
                        assert(kept_before[w]@ == a);
                        assert(Self::set_of(seen).remove(addr@).contains(a));
                        let j = choose|j: int| 0 <= j < seen.len() && (#[trigger] seen[j])@ == a;
                        assert(seen_next[j]@ == a);
                    } else {
                        assert(seen_next[i as int]@ == a);
                    }
                }
                assert(Self::set_of(kept@) =~= Self::set_of(seen_next).remove(addr@));
            }
            i += 1;
        }
        assert(before.subrange(0, i as int) =~= before);
        self.items = kept;
    }

    /// The members of the set, one after the other, each of them once.
    pub fn to_vec(&self) -> (r: Vec<String>)
        ensures
            forall|i: int| 0 <= i < r.len() ==> self@.contains((#[trigger] r[i])@),
            forall|a: Seq<char>|
                self@.contains(a) ==> exists|i: int| 0 <= i < r.len() && (#[trigger] r[i])@ == a,
            Self::distinct(r@),
    {
        proof {
            use_type_invariant(self);
        }
        let out = self.copy_items();
        proof {
            assert forall|j: int| 0 <= j < out.len() implies self@.contains((#[trigger] out[j])@) by {
                assert(self.items[j]@ == out[j]@);
            }
            assert forall|a: Seq<char>| self@.contains(a) implies exists|j: int|
                0 <= j < out.len() && (#[trigger] out[j])@ == a by {
                let w = choose|w: int| 0 <= w < self.items.len() && (#[trigger] self.items[w])@ == a;
                assert(out[w]@ == a);
            }
            assert forall|i: int, j: int| 0 <= i < j < out.len() implies (#[trigger] out[i])@ != (
            #[trigger] out[j])@ by {
                assert(out[i]@ == self.items[i]@);
                assert(out[j]@ == self.items[j]@);
            }
        }
        out
    }
}

impl Clone for AddrSet {
    fn clone(&self) -> (r: Self)
        ensures
            r@ == self@,
    {
        let items = self.to_vec();
        let r = AddrSet { items };
        assert(r@ =~= self@);
        r
    }
}

/// The shares of a validator's pool issued for `amount` tokens while the
/// pool holds `total_stake` tokens against `total_shares` shares.
///
/// An empty pool issues one share per token. Otherwise the shares are
/// `amount * total_shares / total_stake`, rounded toward zero. The result is
/// `None` only where that many shares cannot be written as a decimal.
pub open spec fn spec_shares_for(total_stake: u128, total_shares: Decimal, amount: u128) -> Option<
    Decimal,
> {
    if total_stake == 0 {
        Decimal::lift(floor_ratio(amount as nat * DECIMAL_FRACTIONAL as nat, 1))
    } else {
        Decimal::lift(floor_ratio(amount as nat * total_shares.atomics as nat, total_stake as nat))
    }
}

/// The tokens that `shares` are worth in a pool of `total_stake` tokens and
/// `total_shares` shares: `shares * total_stake / total_shares`, rounded
/// toward zero, and zero in a pool without shares. `None` where the value
/// does not fit in 128 bits.
pub open spec fn spec_stake_value(shares: Decimal, total_stake: u128, total_shares: Decimal) -> Option<
    u128,
> {
    if total_shares.atomics == 0 {
        Some(0u128)
    } else {
        floor_ratio(shares.atomics as nat * total_stake as nat, total_shares.atomics as nat)
    }
}

/// The part of `rewards` that falls to `shares` out of `total_shares`:
/// the product of shares and rewards, rounded down to eighteen digits, then
/// divided by the total and rounded down again. `None` in a pool without
/// shares and where a step does not fit.
pub open spec fn spec_share_of_rewards(shares: Decimal, total_shares: Decimal, rewards: Decimal) -> Option<
    Decimal,
> {
    match floor_ratio(shares.atomics as nat * rewards.atomics as nat, DECIMAL_FRACTIONAL as nat) {
        Some(product) => Decimal::lift(
            floor_ratio(product as nat * DECIMAL_FRACTIONAL as nat, total_shares.atomics as nat),
        ),
        None => None,
    }
}

/// The number of shares of a validator that a delegator holds. Shares can be
/// fractional.
#[derive(Clone, Copy, Debug, PartialEq, Eq, Structural)]
pub struct Shares(pub Decimal);

impl View for Shares {
    type V = Shares;

    open spec fn view(&self) -> Shares {
        *self
    }
}

impl Shares {
    /// The stake that these shares are worth at `validator`.
    pub fn stake(&self, validator: &ValidatorInfo) -> (r: Option<u128>)
        ensures
            r == spec_stake_value(self.0, validator.stake, validator.total_shares),
    {
        if validator.total_shares.is_zero() {
            Some(0)
        } else {
            mul_ratio(self.0.atomics(), validator.stake, validator.total_shares.atomics())
        }
    }

    /// The part of `rewards` that falls to these shares at `validator`.
    pub fn rewards(&self, validator: &ValidatorInfo, rewards: Decimal) -> (r: Option<Decimal>)
        ensures
            r == spec_share_of_rewards(self.0, validator.total_shares, rewards),
    {
        match self.0.checked_mul(rewards) {
            Some(product) => product.checked_div(validator.total_shares),
            None => None,
        }
    }
}

/// The running state of one validator.
#[derive(Debug)]
pub struct ValidatorInfo {
    /// The delegators that hold shares of this validator.
    pub stakers: AddrSet,
    /// The whole stake of all delegators.
    pub stake: u128,
    /// The time up to which rewards have been added to `calculated_rewards`.
    pub last_rewards_calculation: Timestamp,
    /// The shares that this validator has issued.
    pub total_shares: Decimal,
    /// The rewards that have accrued and were not withdrawn.
    pub calculated_rewards: Decimal,
}

/// The running state of one validator as a value.
pub struct ValidatorInfoView {
    pub stakers: Set<Seq<char>>,
    pub stake: u128,
    pub last_rewards_calculation: Timestamp,
    pub total_shares: Decimal,
    pub calculated_rewards: Decimal,
}

impl View for ValidatorInfo {
    type V = ValidatorInfoView;

    open spec fn view(&self) -> ValidatorInfoView {
        ValidatorInfoView {
            stakers: self.stakers@,
            stake: self.stake,
            last_rewards_calculation: self.last_rewards_calculation,
            total_shares: self.total_shares,
            calculated_rewards: self.calculated_rewards,
        }
    }
}

impl Clone for ValidatorInfo {
    fn clone(&self) -> (r: Self)
        ensures
            r@ == self@,
    {
        ValidatorInfo {
            stakers: self.stakers.clone(),
            stake: self.stake,
            last_rewards_calculation: self.last_rewards_calculation,
            total_shares: self.total_shares,
            calculated_rewards: self.calculated_rewards,
        }
    }
}

impl ValidatorInfoView {
    /// The state of a validator to which nobody has delegated yet.
    pub open spec fn fresh(block_time: Timestamp) -> ValidatorInfoView {
        ValidatorInfoView {
            stakers: Set::empty(),
            stake: 0,
            last_rewards_calculation: block_time,
            total_shares: Decimal { atomics: 0 },
            calculated_rewards: Decimal { atomics: 0 },
        }
    }
}

impl ValidatorInfo {
    /// The state of a validator at `block_time`, before any delegation.
    pub fn new(block_time: Timestamp) -> (r: Self)
        ensures
            r@ == ValidatorInfoView::fresh(block_time),
    {
        ValidatorInfo {
            stakers: AddrSet::new(),
            stake: 0,
            last_rewards_calculation: block_time,
            total_shares: Decimal::zero(),
            calculated_rewards: Decimal::zero(),
        }
    }

    /// The shares that a delegator gets for staking `stake` tokens now. This
    /// is one share per token unless the validator was slashed.
    pub fn shares_for(&self, stake: u128) -> (r: Option<Decimal>)
        ensures
            r == spec_shares_for(self.stake, self.total_shares, stake),
    {
        if self.stake == 0 {
            Decimal::from_ratio(stake, 1)
        } else {
            match mul_ratio(stake, self.total_shares.atomics(), self.stake) {
                Some(atomics) => Some(Decimal::raw(atomics)),
                None => None,
            }
        }
    }
}

/// Scaling a whole number to a decimal and multiplying it by a decimal gives
/// the plain product of the number and the decimal's atomic count; dividing
/// that by a scaled divisor divides by the divisor.
pub proof fn lemma_scaled_product(amount: int, shares: int, stake: int)
    requires
        0 <= amount,
        0 <= shares,
        0 < stake,
    ensures
        ((amount * DECIMAL_FRACTIONAL as int) * shares) / (DECIMAL_FRACTIONAL as int) == amount
            * shares,
        ((amount * shares) * DECIMAL_FRACTIONAL as int) / (stake * DECIMAL_FRACTIONAL as int) == (
        amount * shares) / stake,
        (amount * shares) / stake <= amount * shares,
{
    let d = DECIMAL_FRACTIONAL as int;
    assert((amount * d) * shares == (amount * shares) * d) by (nonlinear_arith);
    assert(0 <= amount * shares) by (nonlinear_arith)
        requires
            0 <= amount,
            0 <= shares,
    ;
    lemma_div_by_multiple(amount * shares, d);
    lemma_div_denominator((amount * shares) * d, d, stake);
    assert(d * stake == stake * d) by (nonlinear_arith);
    assert((amount * shares) / stake <= amount * shares) by (nonlinear_arith)
        requires
            0 <= amount * shares,
            0 < stake,
    ;
}

} // verus!
