//! The plain records that the engine reads and returns: points in time,
//! coins, validators, staking parameters and errors.

use crate::decimal::Decimal;
use vstd::prelude::*;

verus! {

/// Nanoseconds in one second.
pub const NANOS_PER_SECOND: u64 = 1_000_000_000;

/// A point in time, in nanoseconds since the epoch.
#[derive(Clone, Copy, Debug, PartialEq, Eq, Structural)]
pub struct Timestamp {
    pub nanos: u64,
}

impl View for Timestamp {
    type V = Timestamp;

    open spec fn view(&self) -> Timestamp {
        *self
    }
}

impl Timestamp {
    /// The whole seconds since the epoch.
    pub open spec fn spec_seconds(self) -> int {
        self.nanos as int / NANOS_PER_SECOND as int
    }

    /// The whole seconds that lie between `earlier` and this time; zero where
    /// this time is the earlier one.
    pub open spec fn spec_seconds_since(self, earlier: Timestamp) -> int {
        if self.spec_seconds() >= earlier.spec_seconds() {
            self.spec_seconds() - earlier.spec_seconds()
        } else {
            0
        }
    }

    /// The time `nanos` nanoseconds after the epoch.
    pub fn from_nanos(nanos: u64) -> (r: Timestamp)
        ensures
            r.nanos == nanos,
    {
        Timestamp { nanos }
    }

    /// Nanoseconds since the epoch.
    pub fn nanos(&self) -> (r: u64)
        ensures
            r == self.nanos,
    {
        self.nanos
    }

    /// Whole seconds since the epoch.
    pub fn seconds(&self) -> (r: u64)
        ensures
            r == self.spec_seconds(),
    {
        self.nanos / NANOS_PER_SECOND
    }

    /// This time moved `seconds` into the future, or `None` where that is
    /// past the last representable time.
    pub fn plus_seconds(&self, seconds: u64) -> (r: Option<Timestamp>)
        ensures
            self.nanos + seconds * NANOS_PER_SECOND <= u64::MAX ==> r == Some(
                Timestamp { nanos: (self.nanos + seconds * NANOS_PER_SECOND) as u64 },
            ),
            self.nanos + seconds * NANOS_PER_SECOND > u64::MAX ==> r.is_none(),
    {
        match seconds.checked_mul(NANOS_PER_SECOND) {
            Some(span) => match self.nanos.checked_add(span) {
                Some(nanos) => Some(Timestamp { nanos }),
                None => None,
            },
            None => None,
        }
    }

    /// The whole seconds that have passed since `earlier`; zero where this
    /// time is the earlier one.
    pub fn seconds_since(&self, earlier: &Timestamp) -> (r: u64)
        ensures
            r == self.spec_seconds_since(*earlier),
    {
        let now = self.seconds();
        let then = earlier.seconds();
        if now >= then {
            now - then
        } else {
            0
        }
    }

    /// Whether this time is strictly before `other`.
    pub fn is_before(&self, other: &Timestamp) -> (r: bool)
        ensures
            r == (self.nanos < other.nanos),
    {
        self.nanos < other.nanos
    }
}

/// What the engine reads of the block in which a call is made.
#[derive(Debug, PartialEq, Eq)]
pub struct BlockInfo {
    pub height: u64,
    pub time: Timestamp,
    pub chain_id: String,
}

/// The ways in which an operation of the engine fails.
#[derive(Clone, Copy, Debug, PartialEq, Eq, Structural)]
pub enum StakingError {
    /// A validator or a delegation that the operation needs is absent.
    NotFound,
    /// A validator with that address is already registered.
    AlreadyExists,
    /// The coin is not of the bonded denomination.
    WrongDenom,
    /// The coin's amount is zero.
    ZeroAmount,
    /// The delegator holds fewer shares than the operation would take.
    InsufficientStake,
    /// A slashing percentage above one hundred percent.
    InvalidPercentage,
    /// An instruction that the module does not implement.
    Unsupported,
    /// A total would leave the range of its type: the ledger is broken or
    /// the amounts are beyond what it can hold.
    Fatal,
}

/// An amount of one denomination.
#[derive(Debug, PartialEq, Eq)]
pub struct Coin {
    pub denom: String,
    pub amount: u128,
}

/// A coin as a value: its denomination's characters and its amount.
pub struct CoinView {
    pub denom: Seq<char>,
    pub amount: u128,
}

impl View for Coin {
    type V = CoinView;

    open spec fn view(&self) -> CoinView {
        CoinView { denom: self.denom@, amount: self.amount }
    }
}

impl Clone for Coin {
    fn clone(&self) -> (r: Self)
        ensures
            r@ == self@,
    {
        Coin { denom: self.denom.clone(), amount: self.amount }
    }
}

/// The coin of `amount` units of `denom`.
pub fn coin(amount: u128, denom: &str) -> (r: Coin)
    ensures
        r@ == (CoinView { denom: denom@, amount }),
{
    Coin { denom: denom.to_owned(), amount }
}

/// A validator as registered: its address and its commission terms.
#[derive(Debug, PartialEq, Eq)]
pub struct Validator {
    pub address: String,
    pub commission: Decimal,
    pub max_commission: Decimal,
    /// The most by which the commission may change in a day.
    pub max_change_rate: Decimal,
}

/// A validator record as a value.
pub struct ValidatorView {
    pub address: Seq<char>,
    pub commission: Decimal,
    pub max_commission: Decimal,
    pub max_change_rate: Decimal,
}

impl View for Validator {
    type V = ValidatorView;

    open spec fn view(&self) -> ValidatorView {
        ValidatorView {
            address: self.address@,
            commission: self.commission,
            max_commission: self.max_commission,
            max_change_rate: self.max_change_rate,
        }
    }
}

impl Clone for Validator {
    fn clone(&self) -> (r: Self)
        ensures
            r@ == self@,
    {
        Validator {
            address: self.address.clone(),
            commission: self.commission,
            max_commission: self.max_commission,
            max_change_rate: self.max_change_rate,
        }
    }
}

/// The parameters of the staking module.
#[derive(Debug, PartialEq, Eq)]
pub struct StakingInfo {
    /// The denomination of the staking token.
    pub bonded_denom: String,
    /// Seconds between unbonding and receiving the tokens.
    pub unbonding_time: u64,
    /// Interest per year of 365 days.
    pub apr: Decimal,
}

/// The staking parameters as a value.
pub struct StakingInfoView {
    pub bonded_denom: Seq<char>,
    pub unbonding_time: u64,
    pub apr: Decimal,
}

impl View for StakingInfo {
    type V = StakingInfoView;

    open spec fn view(&self) -> StakingInfoView {
        StakingInfoView {
            bonded_denom: self.bonded_denom@,
            unbonding_time: self.unbonding_time,
            apr: self.apr,
        }
    }
}

impl Clone for StakingInfo {
    fn clone(&self) -> (r: Self)
        ensures
            r@ == self@,
    {
        StakingInfo {
            bonded_denom: self.bonded_denom.clone(),
            unbonding_time: self.unbonding_time,
            apr: self.apr,
        }
    }
}

/// The parameters that hold while none were set: the denomination `TOKEN`,
/// sixty seconds of unbonding and ten percent interest per year.
pub open spec fn default_staking_info() -> StakingInfoView {
    StakingInfoView {
        bonded_denom: "TOKEN"@,
        unbonding_time: 60,
        apr: Decimal { atomics: 100_000_000_000_000_000 },
    }
}

/// A payout that waits in the unbonding queue.
#[derive(Debug, PartialEq, Eq)]
pub struct UnbondingEntry {
    pub delegator: String,
    pub payout_at: Timestamp,
    pub amount: u128,
}

/// A waiting payout as a value.
pub struct UnbondingView {
    pub delegator: Seq<char>,
    pub payout_at: Timestamp,
    pub amount: u128,
}

impl View for UnbondingEntry {
    type V = UnbondingView;

    open spec fn view(&self) -> UnbondingView {
        UnbondingView { delegator: self.delegator@, payout_at: self.payout_at, amount: self.amount }
    }
}

} // verus!
