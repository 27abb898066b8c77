use vstd::arithmetic::div_mod::{
    lemma_div_is_ordered, lemma_div_multiples_vanish, lemma_div_pos_is_pos,
    lemma_fundamental_div_mod, lemma_hoist_over_denominator,
};
use vstd::arithmetic::mul::{
    lemma_mul_inequality, lemma_mul_is_distributive_add, lemma_mul_nonnegative,
};
use vstd::prelude::*;

use crate::error::BountyError;
use crate::marketplace::{
    balance_has_key, balance_index, balance_of, balances_unique, bounty_ok, claim_ok, has_balance,
    wf, Marketplace, MarketState,
};
use crate::state::{BountyStatus, ClaimAccount, TreasuryAccount};
use crate::{BPS_DENOMINATOR, NATIVE_MINT};

verus! {

/// A custodial balance tied 1:1 to a bounty. Its sole transfer authority is
/// the owning bounty's own transition logic: no operation of this crate
/// debits a vault except as a side effect of a sanctioned lifecycle
/// transition.
#[derive(Clone, Copy, PartialEq, Eq, Structural, Debug)]
pub struct EscrowVault {
    pub balance: u64,
}

/// The treasury's collected fees in one denomination.
#[derive(Clone, Copy, PartialEq, Eq, Structural, Debug)]
pub struct TreasuryBalance {
    pub mint: u64,
    pub amount: u64,
}

/// The platform fee taken at release from a bounty of `amount` units:
/// `amount * fee_bps / 10000`, except that bounties denominated in the
/// network's native currency pay no fee at all.
pub open spec fn fee_of(amount: u64, fee_bps: u64, token_mint: u64) -> int {
    if token_mint == NATIVE_MINT {
        0
    } else {
        (amount as int) * (fee_bps as int) / (BPS_DENOMINATOR as int)
    }
}

/// What is left for claimants after the platform fee.
pub open spec fn pool_of(amount: u64, fee_bps: u64, token_mint: u64) -> int {
    amount - fee_of(amount, fee_bps, token_mint)
}

/// The payout a claim with `share_bps` is entitled to, out of a post-fee
/// pool: `pool * share_bps / 10000`, rounded down. The rounding remainder
/// stays in the vault, unclaimed.
pub open spec fn entitlement(pool: int, share_bps: u32) -> int {
    pool * (share_bps as int) / (BPS_DENOMINATOR as int)
}

/// The contribution of one claim record to the total still owed from the
/// vault of the bounty keyed `(repo_id, issue_number)`.
pub open spec fn owed_term(c: ClaimAccount, repo_id: u64, issue_number: u64, pool: int) -> int {
    if c.repo_id == repo_id && c.issue_number == issue_number && !c.withdrawn {
        entitlement(pool, c.share_bps)
    } else {
        0
    }
}

/// The sum of the unwithdrawn entitlements against one bounty's vault.
/// The escrow's central invariant is that a released bounty's vault balance
/// never falls below this sum.
pub open spec fn owed(claims: Seq<ClaimAccount>, repo_id: u64, issue_number: u64, pool: int) -> int
    decreases claims.len(),
{
    if claims.len() == 0 {
        0
    } else {
        owed(claims.drop_last(), repo_id, issue_number, pool)
            + owed_term(claims.last(), repo_id, issue_number, pool)
    }
}

// ---------------------------------------------------------------------------
// Arithmetic facts about fees and entitlements.

/// Rounding down twice never beats rounding down once:
/// `x/d + y/d <= (x + y)/d` for non-negative numerators.
pub proof fn lemma_floor_div_add(x: int, y: int, d: int)
    requires
        x >= 0,
        y >= 0,
        d > 0,
    ensures
        x / d + y / d <= (x + y) / d,
{
    lemma_fundamental_div_mod(x, d);
    lemma_fundamental_div_mod(y, d);
    let q = x / d + y / d;
    let r = x % d + y % d;
    lemma_mul_is_distributive_add(d, x / d, y / d);
    assert(d * q == q * d) by (nonlinear_arith);
    assert(x + y == r + q * d);
    lemma_hoist_over_denominator(r, q, d as nat);
    lemma_div_pos_is_pos(r, d);
}

/// An entitlement out of a non-negative pool is never negative.
pub proof fn lemma_entitlement_nonneg(pool: int, share_bps: u32)
    requires
        pool >= 0,
    ensures
        entitlement(pool, share_bps) >= 0,
{
    lemma_mul_nonnegative(pool, share_bps as int);
    lemma_div_pos_is_pos(pool * (share_bps as int), BPS_DENOMINATOR as int);
}

/// At most the full pool is ever entitled: `pool * bps / 10000 <= pool`
/// whenever `bps` does not exceed the full 10000 basis points.
pub proof fn lemma_frac_le_pool(pool: int, bps: int)
    requires
        pool >= 0,
        0 <= bps <= BPS_DENOMINATOR,
    ensures
        pool * bps / (BPS_DENOMINATOR as int) <= pool,
{
    let d = BPS_DENOMINATOR as int;
    lemma_mul_inequality(bps, d, pool);
    assert(bps * pool == pool * bps) by (nonlinear_arith);
    assert(d * pool == pool * d) by (nonlinear_arith);
    lemma_div_is_ordered(pool * bps, pool * d, d);
    lemma_div_multiples_vanish(pool, d);
    assert(d * pool / d == pool);
}

// ---------------------------------------------------------------------------
// Facts about the owed sum.

/// A term of the owed sum is never negative when the pool is not.
pub proof fn lemma_owed_term_nonneg(c: ClaimAccount, repo_id: u64, issue_number: u64, pool: int)
    requires
        pool >= 0,
    ensures
        owed_term(c, repo_id, issue_number, pool) >= 0,
{
    lemma_entitlement_nonneg(pool, c.share_bps);
}

/// The owed sum is never negative when the pool is not.
pub proof fn lemma_owed_nonneg(claims: Seq<ClaimAccount>, repo_id: u64, issue_number: u64, pool: int)
    requires
        pool >= 0,
    ensures
        owed(claims, repo_id, issue_number, pool) >= 0,
    decreases claims.len(),
{
    if claims.len() > 0 {
        lemma_owed_nonneg(claims.drop_last(), repo_id, issue_number, pool);
        lemma_owed_term_nonneg(claims.last(), repo_id, issue_number, pool);
    }
}

/// Appending a claim record adds exactly its own term to the owed sum.
pub proof fn lemma_owed_push(
    claims: Seq<ClaimAccount>,
    c: ClaimAccount,
    repo_id: u64,
    issue_number: u64,
    pool: int,
)
    ensures
        owed(claims.push(c), repo_id, issue_number, pool) == owed(claims, repo_id, issue_number, pool)
            + owed_term(c, repo_id, issue_number, pool),
{
    assert(claims.push(c).drop_last() =~= claims);
    assert(claims.push(c).last() == c);
}

/// Replacing one claim record changes the owed sum by exactly the
/// difference of the two terms.
pub proof fn lemma_owed_update(
    claims: Seq<ClaimAccount>,
    k: int,
    c2: ClaimAccount,
    repo_id: u64,
    issue_number: u64,
    pool: int,
)
    requires
        0 <= k < claims.len(),
    ensures
        owed(claims.update(k, c2), repo_id, issue_number, pool) == owed(
            claims,
            repo_id,
            issue_number,
            pool,
        ) - owed_term(claims[k], repo_id, issue_number, pool) + owed_term(
            c2,
            repo_id,
            issue_number,
            pool,
        ),
    decreases claims.len(),
{
    let u = claims.update(k, c2);
    if k == claims.len() - 1 {
        assert(u.drop_last() =~= claims.drop_last());
        assert(u.last() == c2);
    } else {
        assert(u.drop_last() =~= claims.drop_last().update(k, c2));
        assert(u.last() == claims.last());
        lemma_owed_update(claims.drop_last(), k, c2, repo_id, issue_number, pool);
    }
}

/// One unwithdrawn matching claim never has more coming than the whole
/// owed sum.
pub proof fn lemma_owed_term_le(
    claims: Seq<ClaimAccount>,
    k: int,
    repo_id: u64,
    issue_number: u64,
    pool: int,
)
    requires
        0 <= k < claims.len(),
        pool >= 0,
    ensures
        owed_term(claims[k], repo_id, issue_number, pool) <= owed(claims, repo_id, issue_number, pool),
    decreases claims.len(),
{
    if k == claims.len() - 1 {
        lemma_owed_nonneg(claims.drop_last(), repo_id, issue_number, pool);
    } else {
        lemma_owed_term_le(claims.drop_last(), k, repo_id, issue_number, pool);
        lemma_owed_term_nonneg(claims.last(), repo_id, issue_number, pool);
        assert(claims.drop_last()[k] == claims[k]);
    }
}

/// While every matching claim still has a zero share, nothing is owed.
pub proof fn lemma_owed_zero(claims: Seq<ClaimAccount>, repo_id: u64, issue_number: u64, pool: int)
    requires
        forall|k: int|
            0 <= k < claims.len() && claims[k].repo_id == repo_id && claims[k].issue_number
                == issue_number ==> (#[trigger] claims[k].share_bps) == 0,
    ensures
        owed(claims, repo_id, issue_number, pool) == 0,
    decreases claims.len(),
{
    if claims.len() > 0 {
        lemma_owed_zero(claims.drop_last(), repo_id, issue_number, pool);
        assert(claims.drop_last() =~= claims.take(claims.len() - 1));
        let c = claims.last();
        if c.repo_id == repo_id && c.issue_number == issue_number && !c.withdrawn {
            assert(c.share_bps == 0);
            assert(pool * (0u32 as int) == 0);
            assert(entitlement(pool, c.share_bps) == 0);
        }
    }
}

/// Claims whose records agree everywhere a key could match contribute the
/// same owed sum: if each position is either unchanged or keyed to a
/// different bounty on both sides, the sum for this bounty is unchanged.
pub proof fn lemma_owed_same(
    claims: Seq<ClaimAccount>,
    claims2: Seq<ClaimAccount>,
    repo_id: u64,
    issue_number: u64,
    pool: int,
)
    requires
        claims.len() == claims2.len(),
        forall|k: int|
            0 <= k < claims.len() ==> (#[trigger] claims2[k]) == claims[k] || !(claims[k].repo_id
                == repo_id && claims[k].issue_number == issue_number) && !(claims2[k].repo_id
                == repo_id && claims2[k].issue_number == issue_number),
    ensures
        owed(claims, repo_id, issue_number, pool) == owed(claims2, repo_id, issue_number, pool),
    decreases claims.len(),
{
    if claims.len() > 0 {
        assert(claims2[claims.len() - 1] == claims[claims.len() - 1] || !(claims[claims.len()
            - 1].repo_id == repo_id && claims[claims.len() - 1].issue_number == issue_number) && !(
        claims2[claims.len() - 1].repo_id == repo_id && claims2[claims.len() - 1].issue_number
            == issue_number));
        lemma_owed_same(claims.drop_last(), claims2.drop_last(), repo_id, issue_number, pool);
        assert(owed_term(claims.last(), repo_id, issue_number, pool) == owed_term(
            claims2.last(),
            repo_id,
            issue_number,
            pool,
        ));
    }
}

// ---------------------------------------------------------------------------
// Crediting the treasury.

/// The treasury's balances after collecting `amount` more units of `mint`:
/// the existing entry grows, or a first entry appears.
pub open spec fn credit(balances: Seq<TreasuryBalance>, mint: u64, amount: u64) -> Seq<
    TreasuryBalance,
> {
    if has_balance(balances, mint) {
        let i = balance_index(balances, mint);
        balances.update(i, TreasuryBalance { mint, amount: (balances[i].amount + amount) as u64 })
    } else {
        balances.push(TreasuryBalance { mint, amount })
    }
}

/// Crediting keeps the denominations unique and grows exactly the credited
/// denomination's balance by the credited amount.
pub proof fn lemma_credit(balances: Seq<TreasuryBalance>, mint: u64, amount: u64)
    requires
        balances_unique(balances),
        balance_of(balances, mint) + amount <= u64::MAX,
    ensures
        balances_unique(credit(balances, mint, amount)),
        balance_of(credit(balances, mint, amount), mint) == balance_of(balances, mint) + amount,
{
    let u = credit(balances, mint, amount);
    if has_balance(balances, mint) {
        let bi = balance_index(balances, mint);
        assert(0 <= bi < balances.len() && balance_has_key(balances[bi], mint));
        assert forall|p: int, q: int| 0 <= p < q < u.len() implies !(#[trigger] balance_has_key(
            u[q],
            u[p].mint,
        )) by {
            assert(!balance_has_key(balances[q], balances[p].mint));
        }
        assert(balance_has_key(u[bi], mint));
        let k = balance_index(u, mint);
        assert(0 <= k < u.len() && balance_has_key(u[k], mint));
        if k != bi {
            if k < bi {
                assert(balance_has_key(balances[bi], balances[k].mint));
            } else {
                assert(balance_has_key(balances[k], balances[bi].mint));
            }
        }
    } else {
        let n = balances.len() as int;
        assert forall|p: int, q: int| 0 <= p < q < u.len() implies !(#[trigger] balance_has_key(
            u[q],
            u[p].mint,
        )) by {
            if q < n {
                assert(!balance_has_key(balances[q], balances[p].mint));
            } else {
                assert(!balance_has_key(balances[p], mint));
            }
        }
        assert(balance_has_key(u[n], mint));
        let k = balance_index(u, mint);
        assert(0 <= k < u.len() && balance_has_key(u[k], mint));
        if k != n {
            assert(balance_has_key(balances[k], mint));
        }
    }
}

/// The transition of `initialize_treasury`: creates the process-wide
/// singleton once; the caller becomes the release authority.
pub open spec fn initialize_treasury_t(s: MarketState, authority: u64, fee_bps: u64) -> (
    MarketState,
    Result<(), BountyError>,
) {
    if s.treasury is Some {
        (s, Err(BountyError::WrongState))
    } else {
        (MarketState { treasury: Some(TreasuryAccount { authority, fee_bps }), ..s }, Ok(()))
    }
}

impl Marketplace {
    /// Creates the treasury, once. `authority` — the deploying caller —
    /// becomes the only identity permitted to release bounties, and
    /// `fee_bps` the platform fee rate. A second initialization fails with
    /// `WrongState` and changes nothing.
    pub fn initialize_treasury(&mut self, authority: u64, fee_bps: u64) -> (r: Result<
        (),
        BountyError,
    >)
        requires
            wf(old(self)@),
        ensures
            wf(final(self)@),
            (final(self)@, r) == initialize_treasury_t(old(self)@, authority, fee_bps),
    {
        if self.treasury.is_some() {
            return Err(BountyError::WrongState);
        }
        let ghost s0 = self@;
        self.treasury = Some(TreasuryAccount { authority, fee_bps });
        proof {
            let s1 = self@;
            // No bounty can be `Released` while the treasury does not exist,
            // so no per-bounty invariant reads the treasury record.
            assert forall|i: int| 0 <= i < s1.bounties.len() implies #[trigger] bounty_ok(
                s1,
                i,
            ) by {
                assert(bounty_ok(s0, i));
                assert(s0.bounties[i].status != BountyStatus::Released);
            }
            assert forall|k: int| 0 <= k < s1.claims.len() implies #[trigger] claim_ok(s1, k) by {
                assert(claim_ok(s0, k));
            }
        }
        Ok(())
    }

    /// The configured platform fee rate, if the treasury exists; a pure read.
    pub fn treasury_fee_bps(&self) -> (r: Option<u64>)
        ensures
            r == match self@.treasury {
                Some(t) => Some(t.fee_bps),
                None => None::<u64>,
            },
    {
        match &self.treasury {
            Some(t) => Some(t.fee_bps),
            None => None,
        }
    }
}

} // verus!
