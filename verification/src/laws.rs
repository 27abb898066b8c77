use vstd::arithmetic::div_mod::lemma_div_pos_is_pos;
use vstd::arithmetic::mul::lemma_mul_nonnegative;
use vstd::prelude::*;

use crate::bounty::deposit_t;
use crate::claim::{claim_bounty_t, lemma_withdraw_t_wf, release_on_merge_t, withdraw_t};
use crate::error::BountyError;
use crate::escrow::{fee_of, lemma_credit, lemma_entitlement_nonneg, lemma_owed_term_le, owed_term};
use crate::marketplace::{
    balance_of, bounties_unique, bounty_has_key, bounty_index, bounty_ok, claim_has_key,
    claim_index, has_bounty, has_claim, lemma_bounties_unique_update, wf, MarketState,
};
use crate::state::{BountyStatus, ContributorInfo};

verus! {

// ---------------------------------------------------------------------------
// Funding accumulates.

pub open spec fn sum_amounts(amounts: Seq<u64>) -> int
    decreases amounts.len(),
{
    if amounts.len() == 0 {
        0
    } else {
        amounts[0] + sum_amounts(amounts.skip(1))
    }
}

/// The state after a whole sequence of deposits by one caller.
pub open spec fn deposit_many(
    s: MarketState,
    repo_id: u64,
    issue_number: u64,
    caller: u64,
    amounts: Seq<u64>,
) -> MarketState
    decreases amounts.len(),
{
    if amounts.len() == 0 {
        s
    } else {
        deposit_many(
            deposit_t(s, repo_id, issue_number, caller, amounts[0]).0,
            repo_id,
            issue_number,
            caller,
            amounts.skip(1),
        )
    }
}

/// Whether every deposit of the sequence succeeds.
pub open spec fn deposits_all_ok(
    s: MarketState,
    repo_id: u64,
    issue_number: u64,
    caller: u64,
    amounts: Seq<u64>,
) -> bool
    decreases amounts.len(),
{
    if amounts.len() == 0 {
        true
    } else {
        deposit_t(s, repo_id, issue_number, caller, amounts[0]).1 is Ok && deposits_all_ok(
            deposit_t(s, repo_id, issue_number, caller, amounts[0]).0,
            repo_id,
            issue_number,
            caller,
            amounts.skip(1),
        )
    }
}

pub proof fn lemma_sum_amounts_nonneg(amounts: Seq<u64>)
    ensures
        sum_amounts(amounts) >= 0,
    decreases amounts.len(),
{
    if amounts.len() > 0 {
        lemma_sum_amounts_nonneg(amounts.skip(1));
    }
}

/// Law: for every sequence of positive deposits by the creator on an `Open`
/// or `Funded` bounty whose total still fits in the balance type, every
/// deposit succeeds, the final cumulative amount and the vault balance both
/// equal the old amount plus the sum of all deposits, and the bounty is
/// `Funded` after the first success.
pub proof fn lemma_fund_accumulates(
    s: MarketState,
    repo_id: u64,
    issue_number: u64,
    caller: u64,
    amounts: Seq<u64>,
)
    requires
        bounties_unique(s.bounties),
        s.vaults.len() == s.bounties.len(),
        has_bounty(s.bounties, repo_id, issue_number),
        caller == s.bounties[bounty_index(s.bounties, repo_id, issue_number)].creator,
        s.bounties[bounty_index(s.bounties, repo_id, issue_number)].status == BountyStatus::Open
            || s.bounties[bounty_index(s.bounties, repo_id, issue_number)].status
            == BountyStatus::Funded,
        s.vaults[bounty_index(s.bounties, repo_id, issue_number)].balance == s.bounties[bounty_index(
            s.bounties,
            repo_id,
            issue_number,
        )].amount,
        s.bounties[bounty_index(s.bounties, repo_id, issue_number)].amount + sum_amounts(amounts)
            <= u64::MAX,
        forall|j: int| 0 <= j < amounts.len() ==> amounts[j] > 0,
    ensures
        deposits_all_ok(s, repo_id, issue_number, caller, amounts),
        ({
            let s1 = deposit_many(s, repo_id, issue_number, caller, amounts);
            let i = bounty_index(s.bounties, repo_id, issue_number);
            &&& bounties_unique(s1.bounties)
            &&& s1.vaults.len() == s1.bounties.len()
            &&& has_bounty(s1.bounties, repo_id, issue_number)
            &&& bounty_index(s1.bounties, repo_id, issue_number) == i
            &&& s1.bounties[i].amount == s.bounties[i].amount + sum_amounts(amounts)
            &&& s1.vaults[i].balance == s1.bounties[i].amount
            &&& s1.bounties[i].creator == s.bounties[i].creator
            &&& s1.bounties[i].status == if amounts.len() == 0 {
                s.bounties[i].status
            } else {
                BountyStatus::Funded
            }
        }),
    decreases amounts.len(),
{
    if amounts.len() > 0 {
        let i = bounty_index(s.bounties, repo_id, issue_number);
        let a0 = amounts[0];
        lemma_sum_amounts_nonneg(amounts.skip(1));
        assert(amounts[0] > 0);
        let s1 = deposit_t(s, repo_id, issue_number, caller, a0).0;
        lemma_bounties_unique_update(s.bounties, i, s1.bounties[i]);
        assert(bounty_has_key(s1.bounties[i], repo_id, issue_number));
        let c = bounty_index(s1.bounties, repo_id, issue_number);
        assert(0 <= c < s1.bounties.len() && bounty_has_key(s1.bounties[c], repo_id, issue_number));
        if c != i {
            if c < i {
                assert(bounty_has_key(
                    s1.bounties[i],
                    s1.bounties[c].repo_id,
                    s1.bounties[c].issue_number,
                ));
            } else {
                assert(bounty_has_key(
                    s1.bounties[c],
                    s1.bounties[i].repo_id,
                    s1.bounties[i].issue_number,
                ));
            }
        }
        assert forall|j: int| 0 <= j < amounts.skip(1).len() implies amounts.skip(1)[j] > 0 by {
            assert(amounts.skip(1)[j] == amounts[j + 1]);
        }
        lemma_fund_accumulates(s1, repo_id, issue_number, caller, amounts.skip(1));
    }
}

// ---------------------------------------------------------------------------
// Claims are unique; a second claim never succeeds.

/// Law: once a claim for `(bounty, handle)` exists, a second claim for the
/// same key always fails and leaves every record — the first claim
/// included — unchanged; when the retry comes from the same bound wallet,
/// the error is `DuplicateBinding`.
pub proof fn lemma_claim_exactly_once(
    s: MarketState,
    repo_id: u64,
    issue_number: u64,
    claimant: u64,
    github_handle: String,
    claimant2: u64,
    github_handle2: String,
)
    requires
        github_handle2@ == github_handle@,
        claim_bounty_t(s, repo_id, issue_number, claimant, github_handle).1 is Ok,
    ensures
        ({
            let s1 = claim_bounty_t(s, repo_id, issue_number, claimant, github_handle).0;
            let second = claim_bounty_t(s1, repo_id, issue_number, claimant2, github_handle2);
            &&& second.0 == s1
            &&& second.1 is Err
            &&& (claimant2 == claimant ==> second.1 == Err::<(), BountyError>(
                BountyError::DuplicateBinding,
            ))
        }),
{
    let s1 = claim_bounty_t(s, repo_id, issue_number, claimant, github_handle).0;
    let n = s.claims.len() as int;
    assert(claim_has_key(s1.claims[n], repo_id, issue_number, github_handle2@));
    assert(has_claim(s1.claims, repo_id, issue_number, github_handle2@));
}

// ---------------------------------------------------------------------------
// Withdrawal is exactly-once.

/// Law: after a successful withdrawal, a second withdrawal for the same
/// claim always fails and moves nothing — the whole state, the vault
/// included, stays as it was; when the retry comes from the claimant
/// themselves, the error is `AlreadyWithdrawn`.
pub proof fn lemma_withdraw_exactly_once(
    s: MarketState,
    repo_id: u64,
    issue_number: u64,
    handle: Seq<char>,
    caller: u64,
    caller2: u64,
)
    requires
        wf(s),
        withdraw_t(s, repo_id, issue_number, handle, caller).1 is Ok,
    ensures
        ({
            let s1 = withdraw_t(s, repo_id, issue_number, handle, caller).0;
            let second = withdraw_t(s1, repo_id, issue_number, handle, caller2);
            &&& second.0 == s1
            &&& second.1 is Err
            &&& (caller2 == caller ==> second.1 == Err::<u64, BountyError>(
                BountyError::AlreadyWithdrawn,
            ))
        }),
{
    let s1 = withdraw_t(s, repo_id, issue_number, handle, caller).0;
    let k = claim_index(s.claims, repo_id, issue_number, handle);
    let c2 = s1.claims[k];
    assert(claim_has_key(c2, repo_id, issue_number, handle));
    assert(has_claim(s1.claims, repo_id, issue_number, handle));
    crate::claim::lemma_claims_unique_update(s.claims, k, c2);
    let k2 = claim_index(s1.claims, repo_id, issue_number, handle);
    assert(0 <= k2 < s1.claims.len() && claim_has_key(s1.claims[k2], repo_id, issue_number, handle));
    if k2 != k {
        if k2 < k {
            assert(claim_has_key(
                s1.claims[k],
                s1.claims[k2].repo_id,
                s1.claims[k2].issue_number,
                s1.claims[k2].github_handle@,
            ));
        } else {
            assert(claim_has_key(
                s1.claims[k2],
                s1.claims[k].repo_id,
                s1.claims[k].issue_number,
                s1.claims[k].github_handle@,
            ));
        }
    }
    assert(k2 == k);
}

// ---------------------------------------------------------------------------
// The fee is exact, and withdrawals can never drain more than the pool.

/// Law: a successful release moves exactly `amount * fee_bps / 10000` of
/// the bounty's denomination to the treasury — zero for the native
/// currency — and leaves exactly the post-fee pool in the vault.
pub proof fn lemma_release_fee_exact(
    s: MarketState,
    repo_id: u64,
    issue_number: u64,
    caller: u64,
    contributors: Seq<ContributorInfo>,
)
    requires
        wf(s),
        release_on_merge_t(s, repo_id, issue_number, caller, contributors).1 is Ok,
    ensures
        ({
            let step = release_on_merge_t(s, repo_id, issue_number, caller, contributors);
            let i = bounty_index(s.bounties, repo_id, issue_number);
            let b = s.bounties[i];
            let fee = fee_of(b.amount, s.treasury.unwrap().fee_bps, b.token_mint);
            &&& step.1 == Ok::<u64, BountyError>(fee as u64)
            &&& 0 <= fee <= b.amount
            &&& balance_of(step.0.treasury_balances, b.token_mint) == balance_of(
                s.treasury_balances,
                b.token_mint,
            ) + fee
            &&& step.0.vaults[i].balance == b.amount - fee
            &&& step.0.bounties[i].status == BountyStatus::Released
        }),
{
    let i = bounty_index(s.bounties, repo_id, issue_number);
    let b = s.bounties[i];
    let t = s.treasury.unwrap();
    let fee = fee_of(b.amount, t.fee_bps, b.token_mint);
    if b.token_mint != crate::NATIVE_MINT {
        lemma_mul_nonnegative(b.amount as int, t.fee_bps as int);
        lemma_div_pos_is_pos((b.amount as int) * (t.fee_bps as int), crate::BPS_DENOMINATOR as int);
    }
    assert(bounty_ok(s, i));
    lemma_credit(s.treasury_balances, b.token_mint, fee as u64);
}

/// One withdrawal request, as the conservation law quantifies over them.
pub ghost struct WithdrawRequest {
    pub repo_id: u64,
    pub issue_number: u64,
    pub handle: Seq<char>,
    pub caller: u64,
}

/// The state after a whole sequence of withdrawal attempts, successful or
/// not, by arbitrary callers against arbitrary claims.
pub open spec fn apply_withdraws(s: MarketState, reqs: Seq<WithdrawRequest>) -> MarketState
    decreases reqs.len(),
{
    if reqs.len() == 0 {
        s
    } else {
        apply_withdraws(
            withdraw_t(s, reqs[0].repo_id, reqs[0].issue_number, reqs[0].handle, reqs[0].caller).0,
            reqs.skip(1),
        )
    }
}

/// What those attempts pay out, in total, against one bounty's vault.
pub open spec fn paid_for(
    s: MarketState,
    reqs: Seq<WithdrawRequest>,
    repo_id: u64,
    issue_number: u64,
) -> int
    decreases reqs.len(),
{
    if reqs.len() == 0 {
        0
    } else {
        let step = withdraw_t(
            s,
            reqs[0].repo_id,
            reqs[0].issue_number,
            reqs[0].handle,
            reqs[0].caller,
        );
        (if reqs[0].repo_id == repo_id && reqs[0].issue_number == issue_number && step.1 is Ok {
            step.1->Ok_0 as int
        } else {
            0
        }) + paid_for(step.0, reqs.skip(1), repo_id, issue_number)
    }
}

/// Law: the vault is a conserved account. Over any sequence of withdrawal
/// attempts, the bounty records never change, and one bounty's vault loses
/// exactly what was successfully paid out against it — so the sum of all
/// successful withdrawals can never exceed the vault's balance.
pub proof fn lemma_withdrawals_conserve(
    s: MarketState,
    reqs: Seq<WithdrawRequest>,
    repo_id: u64,
    issue_number: u64,
)
    requires
        wf(s),
        has_bounty(s.bounties, repo_id, issue_number),
    ensures
        ({
            let sn = apply_withdraws(s, reqs);
            let i = bounty_index(s.bounties, repo_id, issue_number);
            &&& wf(sn)
            &&& sn.bounties == s.bounties
            &&& paid_for(s, reqs, repo_id, issue_number) >= 0
            &&& sn.vaults[i].balance == s.vaults[i].balance - paid_for(
                s,
                reqs,
                repo_id,
                issue_number,
            )
            &&& paid_for(s, reqs, repo_id, issue_number) <= s.vaults[i].balance
        }),
    decreases reqs.len(),
{
    let i = bounty_index(s.bounties, repo_id, issue_number);
    if reqs.len() > 0 {
        let rq = reqs[0];
        lemma_withdraw_t_wf(s, rq.repo_id, rq.issue_number, rq.handle, rq.caller);
        let step = withdraw_t(s, rq.repo_id, rq.issue_number, rq.handle, rq.caller);
        let s1 = step.0;
        if step.1 is Ok {
            let i0 = bounty_index(s.bounties, rq.repo_id, rq.issue_number);
            let b0 = s.bounties[i0];
            let k0 = claim_index(s.claims, rq.repo_id, rq.issue_number, rq.handle);
            let c0 = s.claims[k0];
            let pool = crate::escrow::pool_of(b0.amount, s.treasury.unwrap().fee_bps, b0.token_mint);
            assert(bounty_ok(s, i0));
            assert(owed_term(c0, rq.repo_id, rq.issue_number, pool) == crate::escrow::entitlement(
                pool,
                c0.share_bps,
            ));
            lemma_owed_term_le(s.claims, k0, rq.repo_id, rq.issue_number, pool);
            lemma_entitlement_nonneg(pool, c0.share_bps);
            if rq.repo_id == repo_id && rq.issue_number == issue_number {
                assert(i0 == i);
            } else {
                if i0 == i {
                    assert(bounty_has_key(s.bounties[i], repo_id, issue_number));
                    assert(bounty_has_key(s.bounties[i0], rq.repo_id, rq.issue_number));
                    assert(false);
                }
            }
        }
        lemma_withdrawals_conserve(s1, reqs.skip(1), repo_id, issue_number);
    }
}

/// Law: after a successful release of a bounty with cumulative amount `A`
/// and fee `A * fee_bps / 10000`, no sequence of withdrawal attempts —
/// however long, by whomever — ever pays out more than `A - fee` in total.
/// (`s1` is the state the release leaves behind; the `release_on_merge`
/// operation guarantees its well-formedness.)
pub proof fn lemma_withdrawals_bounded_after_release(
    s: MarketState,
    s1: MarketState,
    repo_id: u64,
    issue_number: u64,
    caller: u64,
    contributors: Seq<ContributorInfo>,
    reqs: Seq<WithdrawRequest>,
)
    requires
        wf(s),
        wf(s1),
        release_on_merge_t(s, repo_id, issue_number, caller, contributors).0 == s1,
        release_on_merge_t(s, repo_id, issue_number, caller, contributors).1 is Ok,
    ensures
        ({
            let i = bounty_index(s.bounties, repo_id, issue_number);
            let b = s.bounties[i];
            paid_for(s1, reqs, repo_id, issue_number) <= b.amount - fee_of(
                b.amount,
                s.treasury.unwrap().fee_bps,
                b.token_mint,
            )
        }),
{
    let i = bounty_index(s.bounties, repo_id, issue_number);
    let b = s.bounties[i];
    lemma_release_fee_exact(s, repo_id, issue_number, caller, contributors);
    lemma_bounties_unique_update(s.bounties, i, s1.bounties[i]);
    assert(bounty_has_key(s1.bounties[i], repo_id, issue_number));
    assert(has_bounty(s1.bounties, repo_id, issue_number));
    let c = bounty_index(s1.bounties, repo_id, issue_number);
    assert(0 <= c < s1.bounties.len() && bounty_has_key(s1.bounties[c], repo_id, issue_number));
    if c != i {
        if c < i {
            assert(bounty_has_key(
                s1.bounties[i],
                s1.bounties[c].repo_id,
                s1.bounties[c].issue_number,
            ));
        } else {
            assert(bounty_has_key(
                s1.bounties[c],
                s1.bounties[i].repo_id,
                s1.bounties[i].issue_number,
            ));
        }
    }
    lemma_withdrawals_conserve(s1, reqs, repo_id, issue_number);
}

// ---------------------------------------------------------------------------
// Native-currency bounties pay no fee.

/// Law: for the native currency the platform fee is zero whatever the
/// configured rate, so a release of a native-currency bounty moves nothing
/// to the treasury and leaves the whole amount in the vault.
pub proof fn lemma_native_fee_zero(amount: u64, fee_bps: u64)
    ensures
        fee_of(amount, fee_bps, crate::NATIVE_MINT) == 0,
{
}

/// Law: a successful release of a native-currency bounty returns `Ok(0)`,
/// leaves the treasury's native balance untouched, and leaves the full
/// amount in the vault for the claimants.
pub proof fn lemma_native_release_moves_no_fee(
    s: MarketState,
    repo_id: u64,
    issue_number: u64,
    caller: u64,
    contributors: Seq<ContributorInfo>,
)
    requires
        wf(s),
        has_bounty(s.bounties, repo_id, issue_number),
        s.bounties[bounty_index(s.bounties, repo_id, issue_number)].token_mint
            == crate::NATIVE_MINT,
        release_on_merge_t(s, repo_id, issue_number, caller, contributors).1 is Ok,
    ensures
        ({
            let step = release_on_merge_t(s, repo_id, issue_number, caller, contributors);
            let i = bounty_index(s.bounties, repo_id, issue_number);
            &&& step.1 == Ok::<u64, BountyError>(0u64)
            &&& balance_of(step.0.treasury_balances, crate::NATIVE_MINT) == balance_of(
                s.treasury_balances,
                crate::NATIVE_MINT,
            )
            &&& step.0.vaults[i].balance == s.bounties[i].amount
        }),
{
    lemma_release_fee_exact(s, repo_id, issue_number, caller, contributors);
}

} // verus!
