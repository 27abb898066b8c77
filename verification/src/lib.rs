//! An escrow-based bounty marketplace.
//!
//! A creator funds a reward tied to an issue in a code repository; a worker
//! binds an external identity to a wallet, claims the bounty, and — once an
//! external authority attests the work is merged — the escrowed funds are
//! split among contributors in proportion to their measured contribution,
//! minus a platform fee.
//!
//! The core of the crate is the bounty/escrow/claim lifecycle state machine:
//! the rules governing when funds may move, who may move them, how they are
//! split, and how the system degrades when the external attester never acts.
//! Persistence, transport, identity authentication and the actual movement of
//! tokens belong to the host ledger; this crate models them as a store of
//! keyed records mutated by atomic, all-or-nothing transitions, and every
//! transition is verified against a specification-level transition function.

use vstd::prelude::*;

pub mod agent;
pub mod bounty;
pub mod claim;
pub mod error;
pub mod escrow;
pub mod laws;
pub mod marketplace;
pub mod state;

verus! {

/// Shares and fee rates are expressed in basis points: hundredths of a percent.
pub const BPS_DENOMINATOR: u64 = 10000;

/// The mint identifier that stands for the network's native currency.
/// Bounties denominated in it pay no platform fee.
pub const NATIVE_MINT: u64 = 0;

/// How long a funded bounty must sit unreleased before its creator may
/// reclaim the escrowed funds: 30 days, in seconds.
pub const REFUND_TIMEOUT_SECONDS: i64 = 30 * 24 * 60 * 60;

} // verus!
