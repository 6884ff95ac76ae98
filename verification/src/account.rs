use vstd::prelude::*;

verus! {

/// An opaque, equality-comparable identity for a caller or beneficiary.
///
/// The hosting environment chooses the identities; the ledger never inspects
/// one beyond comparing it for equality, so a fixed-width scalar is enough.
#[derive(Clone, Copy, PartialEq, Eq, Structural, Debug)]
pub struct AccountId {
    pub id: u128,
}

} // verus!
