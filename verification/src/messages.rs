//! The instructions that the staking and distribution modules take, and what
//! they answer: events for the caller's log, and the movements of funds that
//! the caller is asked to carry out.

use crate::decimal::Decimal;
use crate::types::{Coin, CoinView, Validator, ValidatorView};
use vstd::prelude::*;

verus! {

/// An instruction of a delegator to the staking module.
#[derive(Debug, PartialEq, Eq)]
pub enum StakingMsg {
    /// Stake `amount` with `validator`.
    Delegate { validator: String, amount: Coin },
    /// Take `amount` out of the stake with `validator`; the tokens are paid
    /// out after the unbonding time.
    Undelegate { validator: String, amount: Coin },
    /// Move `amount` of stake from one validator to another.
    Redelegate { src_validator: String, dst_validator: String, amount: Coin },
}

/// An instruction of the chain itself to the staking module.
#[derive(Debug, PartialEq, Eq)]
pub enum StakingSudo {
    /// Slashes the given percentage of the validator's stake.
    Slash { validator: String, percentage: Decimal },
    /// Pays out what is due in the unbonding queue. Nothing does this by
    /// itself: the engine knows no time but that of the call.
    ProcessQueue {  },
}

/// A question to the staking module.
#[derive(Debug, PartialEq, Eq)]
pub enum StakingQuery {
    /// The denomination that can be staked.
    BondedDenom {  },
    /// What a delegator has staked, validator by validator.
    AllDelegations { delegator: String },
    /// What a delegator has staked with one validator, with the rewards.
    Delegation { delegator: String, validator: String },
    /// All registered validators.
    AllValidators {  },
    /// The validator at an address.
    Validator { address: String },
}

/// An instruction of a delegator to the distribution module.
#[derive(Debug, PartialEq, Eq)]
pub enum DistributionMsg {
    /// Redirect rewards to another address. Not implemented.
    SetWithdrawAddress { address: String },
    /// Pay out the sender's rewards at `validator`.
    WithdrawDelegatorReward { validator: String },
}

/// The message without content, for the instructions that a module does not
/// have.
#[derive(Debug, PartialEq, Eq)]
pub struct Empty {}

/// A movement of funds that the engine asks its caller to carry out.
#[derive(Debug, PartialEq, Eq)]
pub enum BankMsg {
    /// Move `amount` from one account to another.
    Send { from_address: String, to_address: String, amount: Coin },
    /// Create `amount` in an account.
    Mint { to_address: String, amount: Coin },
}

/// A movement of funds as a value.
pub enum BankMsgView {
    Send { from_address: Seq<char>, to_address: Seq<char>, amount: CoinView },
    Mint { to_address: Seq<char>, amount: CoinView },
}

impl View for BankMsg {
    type V = BankMsgView;

    open spec fn view(&self) -> BankMsgView {
        match self {
            BankMsg::Send { from_address, to_address, amount } => BankMsgView::Send {
                from_address: from_address@,
                to_address: to_address@,
                amount: amount@,
            },
            BankMsg::Mint { to_address, amount } => BankMsgView::Mint {
                to_address: to_address@,
                amount: amount@,
            },
        }
    }
}

/// What happened in a successful instruction, for the caller's log.
#[derive(Debug, PartialEq, Eq)]
pub enum StakingEvent {
    Delegate { validator: String, amount: Coin, new_shares: u128 },
    Unbond { validator: String, amount: Coin },
    Redelegate { source_validator: String, destination_validator: String, amount: Coin },
    WithdrawDelegatorReward { validator: String, sender: String, amount: Coin },
}

/// An event as a value.
pub enum StakingEventView {
    Delegate { validator: Seq<char>, amount: CoinView, new_shares: u128 },
    Unbond { validator: Seq<char>, amount: CoinView },
    Redelegate { source_validator: Seq<char>, destination_validator: Seq<char>, amount: CoinView },
    WithdrawDelegatorReward { validator: Seq<char>, sender: Seq<char>, amount: CoinView },
}

impl View for StakingEvent {
    type V = StakingEventView;

    open spec fn view(&self) -> StakingEventView {
        match self {
            StakingEvent::Delegate { validator, amount, new_shares } => StakingEventView::Delegate {
                validator: validator@,
                amount: amount@,
                new_shares: *new_shares,
            },
            StakingEvent::Unbond { validator, amount } => StakingEventView::Unbond {
                validator: validator@,
                amount: amount@,
            },
            StakingEvent::Redelegate {
                source_validator,
                destination_validator,
                amount,
            } => StakingEventView::Redelegate {
                source_validator: source_validator@,
                destination_validator: destination_validator@,
                amount: amount@,
            },
            StakingEvent::WithdrawDelegatorReward {
                validator,
                sender,
                amount,
            } => StakingEventView::WithdrawDelegatorReward {
                validator: validator@,
                sender: sender@,
                amount: amount@,
            },
        }
    }
}

/// The answer to a successful instruction.
#[derive(Debug, PartialEq, Eq)]
pub struct AppResponse {
    /// What happened, for the caller's log.
    pub events: Vec<StakingEvent>,
    /// The movements of funds that the caller is to carry out, in order.
    pub messages: Vec<BankMsg>,
}

/// The answer to an instruction as a value.
pub struct AppResponseView {
    pub events: Seq<StakingEventView>,
    pub messages: Seq<BankMsgView>,
}

impl View for AppResponse {
    type V = AppResponseView;

    open spec fn view(&self) -> AppResponseView {
        AppResponseView {
            events: self.events@.map_values(|e: StakingEvent| e@),
            messages: self.messages@.map_values(|m: BankMsg| m@),
        }
    }
}

/// What a delegator has staked with one validator.
#[derive(Debug, PartialEq, Eq)]
pub struct Delegation {
    pub delegator: String,
    pub validator: String,
    pub amount: Coin,
}

/// A delegation as a value.
pub struct DelegationView {
    pub delegator: Seq<char>,
    pub validator: Seq<char>,
    pub amount: CoinView,
}

impl View for Delegation {
    type V = DelegationView;

    open spec fn view(&self) -> DelegationView {
        DelegationView {
            delegator: self.delegator@,
            validator: self.validator@,
            amount: self.amount@,
        }
    }
}

/// What a delegator has staked with one validator, and what came of it.
#[derive(Debug, PartialEq, Eq)]
pub struct FullDelegation {
    pub delegator: String,
    pub validator: String,
    /// The stake at the current price of a share.
    pub amount: Coin,
    /// How much of the stake can be moved to another validator now.
    pub can_redelegate: Coin,
    /// The rewards that can be withdrawn.
    pub accumulated_rewards: Vec<Coin>,
}

/// A full delegation as a value.
pub struct FullDelegationView {
    pub delegator: Seq<char>,
    pub validator: Seq<char>,
    pub amount: CoinView,
    pub can_redelegate: CoinView,
    pub accumulated_rewards: Seq<CoinView>,
}

impl View for FullDelegation {
    type V = FullDelegationView;

    open spec fn view(&self) -> FullDelegationView {
        FullDelegationView {
            delegator: self.delegator@,
            validator: self.validator@,
            amount: self.amount@,
            can_redelegate: self.can_redelegate@,
            accumulated_rewards: self.accumulated_rewards@.map_values(|c: Coin| c@),
        }
    }
}

/// The answer to a [`StakingQuery`], one variant for each question.
#[derive(Debug, PartialEq, Eq)]
pub enum StakingQueryResponse {
    BondedDenom { denom: String },
    AllDelegations { delegations: Vec<Delegation> },
    Delegation { delegation: Option<FullDelegation> },
    AllValidators { validators: Vec<Validator> },
    Validator { validator: Option<Validator> },
}

/// The answer to a query as a value.
pub enum StakingQueryResponseView {
    BondedDenom { denom: Seq<char> },
    AllDelegations { delegations: Seq<DelegationView> },
    Delegation { delegation: Option<FullDelegationView> },
    AllValidators { validators: Seq<ValidatorView> },
    Validator { validator: Option<ValidatorView> },
}

impl View for StakingQueryResponse {
    type V = StakingQueryResponseView;

    open spec fn view(&self) -> StakingQueryResponseView {
        match self {
            StakingQueryResponse::BondedDenom { denom } => StakingQueryResponseView::BondedDenom {
                denom: denom@,
            },
            StakingQueryResponse::AllDelegations {
                delegations,
            } => StakingQueryResponseView::AllDelegations {
                delegations: delegations@.map_values(|d: Delegation| d@),
            },
            StakingQueryResponse::Delegation { delegation } => StakingQueryResponseView::Delegation {
                delegation: match delegation {
                    Some(d) => Some(d@),
                    None => None,
                },
            },
            StakingQueryResponse::AllValidators {
                validators,
            } => StakingQueryResponseView::AllValidators {
                validators: validators@.map_values(|v: Validator| v@),
            },
            StakingQueryResponse::Validator { validator } => StakingQueryResponseView::Validator {
                validator: match validator {
                    Some(v) => Some(v@),
                    None => None,
                },
            },
        }
    }
}

} // verus!
