use vstd::prelude::*;
use crate::account::AccountId;

verus! {

/// Business-rule failures. None of them is a fault: an operation that hits
/// one completes normally and reports the failure in its returned event.
#[derive(Clone, Copy, PartialEq, Eq, Structural, Debug)]
pub enum Error {
    /// The caller of a privileged operation is not the ledger owner.
    BadOrigin,
    /// There is already a vested balance for that address.
    VestedBalanceAlreadyExist,
    /// No vested balance exists for the given address.
    VestedBalanceNotFound,
    /// The balance has no slice with the given schedule number.
    VestedBalanceScheduleNotFound,
    /// The slice is not in the Liquid state, so it cannot be requested.
    VestedBalanceScheduleNotLiquid,
    /// The slice is not in the Requested state, so it cannot be approved.
    VestedBalanceScheduleNotRequested,
}

/// Successful outcomes, one per mutating operation.
#[derive(Clone, Copy, PartialEq, Eq, Structural, Debug)]
pub enum Success {
    /// The ledger was reconfigured and its balances discarded.
    VestingSetupSuccess,
    /// A vested balance was created.
    VestedBalanceAdded,
    /// A vested balance was removed.
    VestedBalanceRemoved,
    /// Frozen slices with the given schedule number were thawed.
    VestedBalanceScheduleThawed,
    /// A liquid slice was marked as requested for transfer.
    VestedBalanceScheduleRequested,
    /// A requested slice was marked as transferred.
    VestedBalanceScheduleApproved,
}

/// The outcome of one operation: success, or the business rule it broke.
#[derive(Clone, Copy, PartialEq, Eq, Structural, Debug)]
pub enum VestingStatus {
    EmitSuccess(Success),
    EmitError(Error),
}

/// The observable record of one operation: who performed it and how it went.
///
/// A hosting environment would surface outcomes through an event side
/// channel while every call returns a bare success marker. This ledger
/// returns the event directly instead: one discriminated outcome per call,
/// carrying the operator and the success or error variant. A host that
/// wants the side channel may still forward the returned event to it.
#[derive(Clone, Copy, PartialEq, Eq, Structural, Debug)]
pub struct VestingEvent {
    pub operator: AccountId,
    pub status: VestingStatus,
}

} // verus!
