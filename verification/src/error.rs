use vstd::prelude::*;

verus! {

/// The error taxonomy of the marketplace. Errors are categorical: every
/// rejected precondition surfaces exactly one of these entries, and no
/// operation that returns one of them changes any state.
#[derive(Clone, Copy, PartialEq, Eq, Structural, Debug)]
pub enum BountyError {
    /// An amount or commit total that must be positive was zero, or a share
    /// assignment would push a bounty's total over the full pool.
    InvalidAmount,
    /// A bounty with the same `(repo_id, issue_number)` key already exists.
    DuplicateBounty,
    /// The handle is already bound to a wallet, a claim for this
    /// `(bounty, handle)` pair already exists, or a contributor list names
    /// the same handle twice.
    DuplicateBinding,
    /// No record with the given key exists.
    NotFound,
    /// Only the bounty's creator may deposit, cancel, or reclaim on timeout.
    NotCreator,
    /// Only the claim's own claimant may withdraw its share.
    NotClaimant,
    /// Only the treasury's designated release authority may release, and a
    /// claim may only be made by the wallet bound to the claimed handle.
    NotAuthorized,
    /// The operation is not available in the bounty's current lifecycle state.
    WrongState,
    /// The claim's share has already been paid out (or terminally settled).
    AlreadyWithdrawn,
    /// The claim never received a non-zero share at release.
    NoShareAssigned,
    /// Withdrawal is only possible once the bounty has been released.
    BountyNotReleased,
    /// The 30-day refund deadline has not passed yet.
    TimeoutNotReached,
    /// The ownership proof did not verify against the wallet.
    InvalidSignature,
    /// A fee, share or balance computation would overflow; the operation
    /// fails closed and changes nothing.
    ArithmeticOverflow,
}

} // verus!
