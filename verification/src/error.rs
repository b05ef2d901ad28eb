use vstd::prelude::*;

verus! {

/// Every failure a validated wallet operation can surface. All are returned
/// synchronously to the caller of the failing operation; a rejected operation
/// never leaves the configuration aggregate or an operation record partially
/// updated.
#[derive(Clone, Copy, Debug, PartialEq, Eq, Structural)]
pub enum WalletError {
    /// The initiator or approver is not an authenticated signer.
    InvalidSignature,
    /// The signer is authenticated but is neither the assistant nor an
    /// enabled approver for the relevant scope.
    UnauthorizedInitiator,
    /// An insert targeted a slot that is already occupied.
    SlotCollision,
    /// A remove, disable, or enable was supplied a value that does not match
    /// what the slot holds.
    SlotMismatch,
    /// A signer or address-book entry is still referenced by an enabled role
    /// and cannot be removed.
    InUseCannotRemove,
    /// A required-approvals count is zero or exceeds the number of enabled
    /// approvers for its scope.
    ThresholdInvalid,
    /// An approval timeout lies outside the configured bounds.
    TimeoutOutOfRange,
    /// A second policy-update lock was attempted while one is pending.
    ConcurrentPolicyUpdateNotAllowed,
    /// A referenced balance account or address-book entry is absent.
    EntityNotFound,
    /// Supplied parameters do not hash to the value captured at proposal time.
    ParamsHashMismatch,
    /// A finalize was attempted past expiry for an operation still lacking
    /// quorum.
    Expired,
    /// A stored byte region violates its fixed layout.
    MalformedRecord,
}

} // verus!
