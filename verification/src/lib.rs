//! A deterministic engine for proof-of-stake bookkeeping: validator
//! registration, share-priced delegation, lazily accrued rewards, slashing,
//! delayed unbonding and reward withdrawal.
//!
//! Every operation works on an explicit [`storage::StakingStorage`] handle and
//! reports the movements of funds it asks for as plain values; nothing here
//! performs I/O, and the engine knows no time but that of the call.
//!
//! The executable code is in [`decimal`], [`table`], [`types`], [`ledger`],
//! [`rewards`], [`keeper`], [`staking_module`] and [`distribution`]. What
//! each operation does is stated in [`storage`] as a function from state to
//! state. The laws that follow from those statements are proved in
//! [`share_laws`], [`ledger_laws`], [`reward_laws`], [`queue_laws`],
//! [`invariants`] and [`reachable`].

pub mod decimal;
pub mod table;
pub mod types;
pub mod messages;
pub mod ledger;
pub mod rewards;
pub mod storage;
pub mod keeper;
pub mod staking_module;
pub mod distribution;
pub mod sums;
pub mod share_laws;
pub mod invariants;
pub mod ledger_laws;
pub mod reward_laws;
pub mod queue_laws;
pub mod reachable;
