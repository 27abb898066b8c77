use vstd::prelude::*;

verus! {

/// Lifecycle state of a bounty. Transitions are monotonic:
/// `Open -> Funded -> (Released | Closed)` and `Open -> Closed`;
/// `Released` and `Closed` are terminal.
#[derive(Clone, Copy, PartialEq, Eq, Structural, Debug)]
pub enum BountyStatus {
    /// Created, nothing deposited yet.
    Open,
    /// Holds a positive escrowed amount.
    Funded,
    /// Cancelled or reclaimed; the escrow went back to the creator.
    Closed,
    /// The external authority attested the work; claimants may withdraw.
    Released,
}

/// A bounty record, keyed by `(repo_id, issue_number)`. Wallets and token
/// mints are opaque identifiers assigned by the host ledger.
#[derive(Clone, Copy, PartialEq, Eq, Structural, Debug)]
pub struct BountyAccount {
    pub repo_id: u64,
    pub issue_number: u64,
    /// The only wallet ever permitted to deposit, cancel, or reclaim.
    pub creator: u64,
    /// Cumulative deposited amount; zeroed when the escrow is returned.
    pub amount: u64,
    /// The single denomination this bounty accepts, fixed at creation.
    pub token_mint: u64,
    pub status: BountyStatus,
    pub created_at: i64,
}

/// A claim record, keyed by `(repo_id, issue_number, github_handle)`:
/// one claim per identity per bounty.
#[derive(Debug)]
pub struct ClaimAccount {
    pub repo_id: u64,
    pub issue_number: u64,
    /// The wallet that was bound to `github_handle` when the claim was made.
    pub claimant: u64,
    pub github_handle: String,
    /// Commit count reported by the oracle; informational until release.
    pub commits: u32,
    /// Basis points of the post-fee payout pool; zero until release, and
    /// immutable once non-zero.
    pub share_bps: u32,
    /// Set exactly once; withdrawal is refused thereafter.
    pub withdrawn: bool,
}

/// An identity binding: one external handle bound to one controlling wallet
/// for the binding's lifetime, with the ownership-proof artifact attached.
#[derive(Debug)]
pub struct AgentAccount {
    pub github_handle: String,
    pub wallet: u64,
    /// The ownership proof, stored as attached evidence.
    pub signature: [u8; 64],
    pub registered_at: i64,
}

/// The singleton fee-collecting record: the whitelisted release authority
/// and the platform fee rate.
#[derive(Clone, Copy, PartialEq, Eq, Structural, Debug)]
pub struct TreasuryAccount {
    pub authority: u64,
    pub fee_bps: u64,
}

/// One entry of the contributor list supplied by the external oracle to a
/// release: an external handle and its measured commit count.
#[derive(Debug)]
pub struct ContributorInfo {
    pub github_handle: String,
    pub commits: u32,
}

} // verus!
