//! A vesting ledger: a deterministic state machine over per-address vested
//! balances, each split into a fixed number of equal schedule slices that
//! move one way through Frozen, Liquid, Requested and Transferred.
//!
//! The ledger itself is the verified core. Caller identity, which a hosting
//! environment would supply implicitly, is an explicit parameter of every
//! operation, and the event such an environment would emit is the returned
//! value of every mutating operation.

pub mod account;
pub mod events;
pub mod model;
pub mod transition;
pub mod ledger;
pub mod laws;

pub use ledger::{Vesting, VestedBalance, VestedBalanceSchedule};

pub use account::AccountId;
pub use events::{Error, Success, VestingStatus, VestingEvent};
