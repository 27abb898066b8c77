use vstd::prelude::*;

use crate::error::BountyError;
use crate::escrow::EscrowVault;
use crate::marketplace::{
    bounty_has_key, bounty_index, bounty_ok, claim_ok, find_bounty, has_bounty,
    lemma_wf_bounty_update, wf, Marketplace, MarketState,
};
use crate::state::{BountyAccount, BountyStatus};
use crate::REFUND_TIMEOUT_SECONDS;

verus! {

/// The transition of `create_bounty`: a new `Open` bounty under the key
/// `(repo_id, issue_number)`, together with its own empty escrow vault.
/// Nothing is deposited yet; `amount` only signals the intended reward and
/// must be positive.
pub open spec fn create_bounty_t(
    s: MarketState,
    repo_id: u64,
    issue_number: u64,
    creator: u64,
    amount: u64,
    token_mint: u64,
    now: i64,
) -> (MarketState, Result<(), BountyError>) {
    if amount == 0 {
        (s, Err(BountyError::InvalidAmount))
    } else if has_bounty(s.bounties, repo_id, issue_number) {
        (s, Err(BountyError::DuplicateBounty))
    } else {
        let b = BountyAccount {
            repo_id,
            issue_number,
            creator,
            amount: 0,
            token_mint,
            status: BountyStatus::Open,
            created_at: now,
        };
        let s1 = MarketState {
            bounties: s.bounties.push(b),
            vaults: s.vaults.push(EscrowVault { balance: 0 }),
            ..s
        };
        (s1, Ok(()))
    }
}

/// The transition of `deposit`: moves `amount` units of the bounty's
/// denomination from the creator into the escrow vault and accumulates it on
/// the bounty, which becomes (or stays) `Funded`.
pub open spec fn deposit_t(
    s: MarketState,
    repo_id: u64,
    issue_number: u64,
    caller: u64,
    amount: u64,
) -> (MarketState, Result<(), BountyError>) {
    if !has_bounty(s.bounties, repo_id, issue_number) {
        (s, Err(BountyError::NotFound))
    } else {
        let i = bounty_index(s.bounties, repo_id, issue_number);
        let b = s.bounties[i];
        if amount == 0 {
            (s, Err(BountyError::InvalidAmount))
        } else if caller != b.creator {
            (s, Err(BountyError::NotCreator))
        } else if b.status != BountyStatus::Open && b.status != BountyStatus::Funded {
            (s, Err(BountyError::WrongState))
        } else if b.amount + amount > u64::MAX {
            (s, Err(BountyError::ArithmeticOverflow))
        } else {
            let b2 = BountyAccount {
                amount: (b.amount + amount) as u64,
                status: BountyStatus::Funded,
                ..b
            };
            let v2 = EscrowVault { balance: (s.vaults[i].balance + amount) as u64 };
            let s1 = MarketState {
                bounties: s.bounties.update(i, b2),
                vaults: s.vaults.update(i, v2),
                ..s
            };
            (s1, Ok(()))
        }
    }
}

/// The transition of `cancel_bounty`: closes an `Open` or `Funded` bounty
/// and returns the whole vault balance to the creator in the same atomic
/// step. The `Ok` value is the amount returned.
pub open spec fn cancel_bounty_t(s: MarketState, repo_id: u64, issue_number: u64, caller: u64) -> (
    MarketState,
    Result<u64, BountyError>,
) {
    if !has_bounty(s.bounties, repo_id, issue_number) {
        (s, Err(BountyError::NotFound))
    } else {
        let i = bounty_index(s.bounties, repo_id, issue_number);
        let b = s.bounties[i];
        if caller != b.creator {
            (s, Err(BountyError::NotCreator))
        } else if b.status != BountyStatus::Open && b.status != BountyStatus::Funded {
            (s, Err(BountyError::WrongState))
        } else {
            let b2 = BountyAccount { amount: 0, status: BountyStatus::Closed, ..b };
            let s1 = MarketState {
                bounties: s.bounties.update(i, b2),
                vaults: s.vaults.update(i, EscrowVault { balance: 0 }),
                ..s
            };
            (s1, Ok(s.vaults[i].balance))
        }
    }
}

/// The transition of `refund_timeout`: once a funded bounty has sat
/// unreleased for the full timeout, its creator reclaims the whole vault
/// balance and the bounty closes, in the same atomic step.
pub open spec fn refund_timeout_t(
    s: MarketState,
    repo_id: u64,
    issue_number: u64,
    caller: u64,
    now: i64,
) -> (MarketState, Result<u64, BountyError>) {
    if !has_bounty(s.bounties, repo_id, issue_number) {
        (s, Err(BountyError::NotFound))
    } else {
        let i = bounty_index(s.bounties, repo_id, issue_number);
        let b = s.bounties[i];
        if caller != b.creator {
            (s, Err(BountyError::NotCreator))
        } else if b.status != BountyStatus::Funded {
            (s, Err(BountyError::WrongState))
        } else if (now as int) < b.created_at as int + REFUND_TIMEOUT_SECONDS as int {
            (s, Err(BountyError::TimeoutNotReached))
        } else {
            let b2 = BountyAccount { amount: 0, status: BountyStatus::Closed, ..b };
            let s1 = MarketState {
                bounties: s.bounties.update(i, b2),
                vaults: s.vaults.update(i, EscrowVault { balance: 0 }),
                ..s
            };
            (s1, Ok(s.vaults[i].balance))
        }
    }
}

impl Marketplace {
    /// Creates a bounty keyed `(repo_id, issue_number)` with its escrow
    /// vault. The caller becomes the creator: the only identity ever
    /// permitted to deposit into, cancel, or reclaim this bounty. Duplicate
    /// keys are refused.
    pub fn create_bounty(
        &mut self,
        repo_id: u64,
        issue_number: u64,
        creator: u64,
        amount: u64,
        token_mint: u64,
        now: i64,
    ) -> (r: Result<(), BountyError>)
        requires
            wf(old(self)@),
        ensures
            wf(final(self)@),
            (final(self)@, r) == create_bounty_t(
                old(self)@,
                repo_id,
                issue_number,
                creator,
                amount,
                token_mint,
                now,
            ),
    {
        if amount == 0 {
            return Err(BountyError::InvalidAmount);
        }
        if find_bounty(&self.bounties, repo_id, issue_number).is_some() {
            return Err(BountyError::DuplicateBounty);
        }
        let ghost s0 = self@;
        self.bounties.push(
            BountyAccount {
                repo_id,
                issue_number,
                creator,
                amount: 0,
                token_mint,
                status: BountyStatus::Open,
                created_at: now,
            },
        );
        self.vaults.push(EscrowVault { balance: 0 });
        proof {
            let s1 = self@;
            let n = s0.bounties.len() as int;
            assert forall|p: int, q: int| 0 <= p < q < s1.bounties.len() implies !(
            #[trigger] bounty_has_key(
                s1.bounties[q],
                s1.bounties[p].repo_id,
                s1.bounties[p].issue_number,
            )) by {
                if q < n {
                    assert(!bounty_has_key(
                        s0.bounties[q],
                        s0.bounties[p].repo_id,
                        s0.bounties[p].issue_number,
                    ));
                } else {
                    assert(!bounty_has_key(s0.bounties[p], repo_id, issue_number));
                }
            }
            assert forall|j: int| 0 <= j < s1.bounties.len() implies #[trigger] bounty_ok(
                s1,
                j,
            ) by {
                if j < n {
                    assert(bounty_ok(s0, j));
                }
            }
            assert forall|k: int| 0 <= k < s1.claims.len() implies #[trigger] claim_ok(s1, k) by {
                assert(claim_ok(s0, k));
                let c = s1.claims[k];
                let w = choose|m: int|
                    0 <= m < s0.bounties.len() && #[trigger] bounty_has_key(
                        s0.bounties[m],
                        c.repo_id,
                        c.issue_number,
                    );
                assert(bounty_has_key(s1.bounties[w], c.repo_id, c.issue_number));
                assert forall|m: int|
                    0 <= m < s1.bounties.len() && #[trigger] bounty_has_key(
                        s1.bounties[m],
                        c.repo_id,
                        c.issue_number,
                    ) && s1.bounties[m].status != BountyStatus::Released implies c.share_bps == 0
                    && !c.withdrawn by {
                    if m < n {
                        assert(bounty_has_key(s0.bounties[m], c.repo_id, c.issue_number));
                    } else {
                        // The new bounty cannot carry a pre-existing claim's
                        // key: that key's bounty already existed.
                        assert(bounty_has_key(s0.bounties[w], repo_id, issue_number));
                    }
                }
            }
        }
        Ok(())
    }

    /// Deposits `amount` units into the bounty's escrow vault. Only the
    /// creator may fund, only while the bounty is `Open` or `Funded`, and
    /// only with a positive amount; deposits accumulate.
    pub fn deposit(&mut self, repo_id: u64, issue_number: u64, caller: u64, amount: u64) -> (r:
        Result<(), BountyError>)
        requires
            wf(old(self)@),
        ensures
            wf(final(self)@),
            (final(self)@, r) == deposit_t(old(self)@, repo_id, issue_number, caller, amount),
    {
        let i = match find_bounty(&self.bounties, repo_id, issue_number) {
            None => {
                return Err(BountyError::NotFound);
            },
            Some(i) => i,
        };
        if amount == 0 {
            return Err(BountyError::InvalidAmount);
        }
        let b = self.bounties[i];
        if caller != b.creator {
            return Err(BountyError::NotCreator);
        }
        if b.status != BountyStatus::Open && b.status != BountyStatus::Funded {
            return Err(BountyError::WrongState);
        }
        let total = match b.amount.checked_add(amount) {
            None => {
                return Err(BountyError::ArithmeticOverflow);
            },
            Some(t) => t,
        };
        let ghost s0 = self@;
        proof {
            assert(bounty_ok(s0, i as int));
        }
        let vault_total = self.vaults[i].balance + amount;
        self.bounties[i] = BountyAccount { amount: total, status: BountyStatus::Funded, ..b };
        self.vaults[i] = EscrowVault { balance: vault_total };
        proof {
            assert(bounty_ok(self@, i as int));
            lemma_wf_bounty_update(s0, self@, i as int);
        }
        Ok(())
    }

    /// Cancels an `Open` or `Funded` bounty: the whole vault balance goes
    /// back to the creator — the returned amount — and the status change and
    /// the refund succeed together or not at all. Only the creator may
    /// cancel, and never after release.
    pub fn cancel_bounty(&mut self, repo_id: u64, issue_number: u64, caller: u64) -> (r: Result<
        u64,
        BountyError,
    >)
        requires
            wf(old(self)@),
        ensures
            wf(final(self)@),
            (final(self)@, r) == cancel_bounty_t(old(self)@, repo_id, issue_number, caller),
    {
        let i = match find_bounty(&self.bounties, repo_id, issue_number) {
            None => {
                return Err(BountyError::NotFound);
            },
            Some(i) => i,
        };
        let b = self.bounties[i];
        if caller != b.creator {
            return Err(BountyError::NotCreator);
        }
        if b.status != BountyStatus::Open && b.status != BountyStatus::Funded {
            return Err(BountyError::WrongState);
        }
        let ghost s0 = self@;
        let refund = self.vaults[i].balance;
        self.bounties[i] = BountyAccount { amount: 0, status: BountyStatus::Closed, ..b };
        self.vaults[i] = EscrowVault { balance: 0 };
        proof {
            assert(bounty_ok(self@, i as int));
            lemma_wf_bounty_update(s0, self@, i as int);
        }
        Ok(refund)
    }

    /// Returns the escrow to the creator of a `Funded` bounty that was never
    /// released, once `now` has reached the 30-day deadline after creation,
    /// and closes the bounty in the same atomic step. Before the deadline it
    /// fails with `TimeoutNotReached` and moves nothing.
    pub fn refund_timeout(&mut self, repo_id: u64, issue_number: u64, caller: u64, now: i64) -> (r:
        Result<u64, BountyError>)
        requires
            wf(old(self)@),
        ensures
            wf(final(self)@),
            (final(self)@, r) == refund_timeout_t(old(self)@, repo_id, issue_number, caller, now),
    {
        let i = match find_bounty(&self.bounties, repo_id, issue_number) {
            None => {
                return Err(BountyError::NotFound);
            },
            Some(i) => i,
        };
        let b = self.bounties[i];
        if caller != b.creator {
            return Err(BountyError::NotCreator);
        }
        if b.status != BountyStatus::Funded {
            return Err(BountyError::WrongState);
        }
        if (now as i128) < (b.created_at as i128) + (REFUND_TIMEOUT_SECONDS as i128) {
            return Err(BountyError::TimeoutNotReached);
        }
        let ghost s0 = self@;
        let refund = self.vaults[i].balance;
        self.bounties[i] = BountyAccount { amount: 0, status: BountyStatus::Closed, ..b };
        self.vaults[i] = EscrowVault { balance: 0 };
        proof {
            assert(bounty_ok(self@, i as int));
            lemma_wf_bounty_update(s0, self@, i as int);
        }
        Ok(refund)
    }
}

} // verus!
