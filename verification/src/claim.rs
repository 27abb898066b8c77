use vstd::arithmetic::div_mod::{lemma_div_nonincreasing, lemma_div_of0, lemma_div_pos_is_pos};
use vstd::arithmetic::mul::{
    lemma_mul_is_distributive_add, lemma_mul_nonnegative, lemma_mul_upper_bound,
};
use vstd::prelude::*;

use crate::error::BountyError;
use crate::escrow::{
    credit, entitlement, fee_of, lemma_credit, lemma_entitlement_nonneg, lemma_floor_div_add,
    lemma_frac_le_pool, lemma_owed_term_le, lemma_owed_update, lemma_owed_same, lemma_owed_zero,
    owed, owed_term, pool_of, EscrowVault, TreasuryBalance,
};
use crate::marketplace::{
    agent_index, balance_of, bounty_has_key, bounty_index, bounty_ok, claim_has_key, claim_index,
    claim_ok, claims_unique, find_agent, find_balance, find_bounty, find_claim, has_agent,
    has_bounty, has_claim, lemma_bounties_unique_update, wf, Marketplace, MarketState,
};
use crate::state::{BountyAccount, BountyStatus, ClaimAccount, ContributorInfo};
use crate::{BPS_DENOMINATOR, NATIVE_MINT};

verus! {

/// Replacing a claim record by one with the same key keeps keys unique.
pub proof fn lemma_claims_unique_update(claims: Seq<ClaimAccount>, k: int, c2: ClaimAccount)
    requires
        claims_unique(claims),
        0 <= k < claims.len(),
        c2.repo_id == claims[k].repo_id,
        c2.issue_number == claims[k].issue_number,
        c2.github_handle@ == claims[k].github_handle@,
    ensures
        claims_unique(claims.update(k, c2)),
{
    let u = claims.update(k, c2);
    assert forall|p: int, q: int| 0 <= p < q < u.len() implies !(#[trigger] claim_has_key(
        u[q],
        u[p].repo_id,
        u[p].issue_number,
        u[p].github_handle@,
    )) by {
        assert(!claim_has_key(
            claims[q],
            claims[p].repo_id,
            claims[p].issue_number,
            claims[p].github_handle@,
        ));
    }
}

/// The transition of `claim_bounty`: registers a claim on a funded bounty
/// for a bound identity, with no share yet. One claim per identity per
/// bounty: a second claim for the same `(bounty, handle)` key fails with
/// `DuplicateBinding` and changes nothing.
pub open spec fn claim_bounty_t(
    s: MarketState,
    repo_id: u64,
    issue_number: u64,
    claimant: u64,
    github_handle: String,
) -> (MarketState, Result<(), BountyError>) {
    if !has_bounty(s.bounties, repo_id, issue_number) {
        (s, Err(BountyError::NotFound))
    } else {
        let b = s.bounties[bounty_index(s.bounties, repo_id, issue_number)];
        if b.status != BountyStatus::Funded {
            (s, Err(BountyError::WrongState))
        } else if !has_agent(s.agents, github_handle@) {
            (s, Err(BountyError::NotFound))
        } else if s.agents[agent_index(s.agents, github_handle@)].wallet != claimant {
            (s, Err(BountyError::NotAuthorized))
        } else if has_claim(s.claims, repo_id, issue_number, github_handle@) {
            (s, Err(BountyError::DuplicateBinding))
        } else {
            let c = ClaimAccount {
                repo_id,
                issue_number,
                claimant,
                github_handle,
                commits: 0,
                share_bps: 0,
                withdrawn: false,
            };
            (MarketState { claims: s.claims.push(c), ..s }, Ok(()))
        }
    }
}

/// The transition of `withdraw`: pays a claimant their assigned share of the
/// post-fee pool out of the vault — `pool * share_bps / 10000`, rounded
/// down — and marks the claim withdrawn, terminally. The `Ok` value is the
/// payout.
pub open spec fn withdraw_t(
    s: MarketState,
    repo_id: u64,
    issue_number: u64,
    handle: Seq<char>,
    caller: u64,
) -> (MarketState, Result<u64, BountyError>) {
    if !has_bounty(s.bounties, repo_id, issue_number) {
        (s, Err(BountyError::NotFound))
    } else if !has_claim(s.claims, repo_id, issue_number, handle) {
        (s, Err(BountyError::NotFound))
    } else {
        let i = bounty_index(s.bounties, repo_id, issue_number);
        let b = s.bounties[i];
        let k = claim_index(s.claims, repo_id, issue_number, handle);
        let c = s.claims[k];
        if caller != c.claimant {
            (s, Err(BountyError::NotClaimant))
        } else if c.withdrawn {
            (s, Err(BountyError::AlreadyWithdrawn))
        } else if b.status == BountyStatus::Closed {
            (s, Err(BountyError::WrongState))
        } else if b.status != BountyStatus::Released {
            (s, Err(BountyError::BountyNotReleased))
        } else if c.share_bps == 0 {
            (s, Err(BountyError::NoShareAssigned))
        } else if s.treasury is None {
            (s, Err(BountyError::NotFound))
        } else {
            let pool = pool_of(b.amount, s.treasury.unwrap().fee_bps, b.token_mint);
            let payout = entitlement(pool, c.share_bps);
            let s1 = MarketState {
                claims: s.claims.update(k, ClaimAccount { withdrawn: true, ..c }),
                vaults: s.vaults.update(
                    i,
                    EscrowVault { balance: (s.vaults[i].balance - payout) as u64 },
                ),
                ..s
            };
            (s1, Ok(payout as u64))
        }
    }
}

// ---------------------------------------------------------------------------
// Release: share assignment from the oracle's contributor list.

/// The total commit count of a contributor list.
pub open spec fn total_commits(contributors: Seq<ContributorInfo>) -> int
    decreases contributors.len(),
{
    if contributors.len() == 0 {
        0
    } else {
        total_commits(contributors.drop_last()) + contributors.last().commits
    }
}

pub open spec fn contrib_matches(c: ContributorInfo, handle: Seq<char>) -> bool {
    c.github_handle@ == handle
}

/// No handle appears twice in the contributor list.
pub open spec fn contribs_distinct(contributors: Seq<ContributorInfo>) -> bool {
    forall|p: int, q: int|
        0 <= p < q < contributors.len() ==> !(#[trigger] contrib_matches(
            contributors[q],
            contributors[p].github_handle@,
        ))
}

/// The planned share assignments of a release: for each contributor, the
/// index of their existing claim, their share of the post-fee pool in basis
/// points — `commits * 10000 / total`, rounded down — and their commit
/// count. A contributor without a claim aborts the plan, and so does an
/// assignment that would push the running total over the full 10000 basis
/// points: the cap that keeps aggregate withdrawals within the pool.
pub open spec fn plan(
    claims: Seq<ClaimAccount>,
    repo_id: u64,
    issue_number: u64,
    contributors: Seq<ContributorInfo>,
    total: u64,
    used_bps: u64,
) -> Result<(Seq<(int, u32, u32)>, u64), BountyError>
    decreases contributors.len(),
{
    if contributors.len() == 0 {
        Ok((Seq::empty(), used_bps))
    } else {
        let c0 = contributors[0];
        if !has_claim(claims, repo_id, issue_number, c0.github_handle@) {
            Err(BountyError::NotFound)
        } else {
            let idx = claim_index(claims, repo_id, issue_number, c0.github_handle@);
            let share_int = (c0.commits as int) * (BPS_DENOMINATOR as int) / (total as int);
            if used_bps as int + share_int > BPS_DENOMINATOR as int {
                Err(BountyError::InvalidAmount)
            } else {
                match plan(
                    claims,
                    repo_id,
                    issue_number,
                    contributors.skip(1),
                    total,
                    (used_bps + share_int) as u64,
                ) {
                    Ok((rest, final_used)) => Ok(
                        (seq![(idx, share_int as u32, c0.commits)] + rest, final_used),
                    ),
                    Err(e) => Err(e),
                }
            }
        }
    }
}

/// Applies planned share assignments to the claim records, in order.
pub open spec fn apply_plan(claims: Seq<ClaimAccount>, entries: Seq<(int, u32, u32)>) -> Seq<
    ClaimAccount,
>
    decreases entries.len(),
{
    if entries.len() == 0 {
        claims
    } else {
        let e = entries[0];
        let claims1 = if 0 <= e.0 < claims.len() {
            claims.update(
                e.0,
                ClaimAccount { share_bps: e.1, commits: e.2, ..claims[e.0] },
            )
        } else {
            claims
        };
        apply_plan(claims1, entries.skip(1))
    }
}

/// The plan entries as the specification sees them.
pub open spec fn map_entries(entries: Seq<(usize, u32, u32)>) -> Seq<(int, u32, u32)> {
    entries.map_values(|e: (usize, u32, u32)| (e.0 as int, e.1, e.2))
}

/// What one successful plan entry says about its contributor and its claim.
pub open spec fn plan_entry_ok(
    claims: Seq<ClaimAccount>,
    repo_id: u64,
    issue_number: u64,
    contributors: Seq<ContributorInfo>,
    total: u64,
    entries: Seq<(int, u32, u32)>,
    j: int,
) -> bool {
    &&& 0 <= entries[j].0 < claims.len()
    &&& claim_has_key(claims[entries[j].0], repo_id, issue_number, contributors[j].github_handle@)
    &&& entries[j].0 == claim_index(claims, repo_id, issue_number, contributors[j].github_handle@)
    &&& entries[j].1 as int == (contributors[j].commits as int) * (BPS_DENOMINATOR as int) / (
    total as int)
    &&& entries[j].2 == contributors[j].commits
}

/// A prefix never counts more commits than the whole list.
pub proof fn lemma_total_commits_prefix(contributors: Seq<ContributorInfo>, p: int)
    requires
        0 <= p <= contributors.len(),
    ensures
        total_commits(contributors.take(p)) <= total_commits(contributors),
    decreases contributors.len(),
{
    if p == contributors.len() {
        assert(contributors.take(p) =~= contributors);
    } else {
        assert(contributors.drop_last().take(p) =~= contributors.take(p));
        lemma_total_commits_prefix(contributors.drop_last(), p);
    }
}

/// What a successful plan guarantees: one entry per contributor, each
/// pointing at that contributor's own claim with the proportional share,
/// and a running basis-point total that never leaves `[used, 10000]`.
pub proof fn lemma_plan_props(
    claims: Seq<ClaimAccount>,
    repo_id: u64,
    issue_number: u64,
    contributors: Seq<ContributorInfo>,
    total: u64,
    used: u64,
    entries: Seq<(int, u32, u32)>,
    fu: u64,
)
    requires
        total > 0,
        used <= BPS_DENOMINATOR,
        plan(claims, repo_id, issue_number, contributors, total, used) == Ok::<
            (Seq<(int, u32, u32)>, u64),
            BountyError,
        >((entries, fu)),
    ensures
        entries.len() == contributors.len(),
        used <= fu <= BPS_DENOMINATOR,
        forall|j: int|
            0 <= j < entries.len() ==> #[trigger] plan_entry_ok(
                claims,
                repo_id,
                issue_number,
                contributors,
                total,
                entries,
                j,
            ),
    decreases contributors.len(),
{
    if contributors.len() == 0 {
    } else {
        let c0 = contributors[0];
        let share_int = (c0.commits as int) * (BPS_DENOMINATOR as int) / (total as int);
        lemma_mul_nonnegative(c0.commits as int, BPS_DENOMINATOR as int);
        lemma_div_pos_is_pos((c0.commits as int) * (BPS_DENOMINATOR as int), total as int);
        let used1 = (used + share_int) as u64;
        let rec = plan(claims, repo_id, issue_number, contributors.skip(1), total, used1);
        let rest = rec->Ok_0.0;
        let fu2 = rec->Ok_0.1;
        assert(fu2 == fu);
        assert(entries =~= seq![
            (
                claim_index(claims, repo_id, issue_number, c0.github_handle@),
                share_int as u32,
                c0.commits,
            ),
        ] + rest);
        lemma_plan_props(
            claims,
            repo_id,
            issue_number,
            contributors.skip(1),
            total,
            used1,
            rest,
            fu,
        );
        assert forall|j: int| 0 <= j < entries.len() implies #[trigger] plan_entry_ok(
            claims,
            repo_id,
            issue_number,
            contributors,
            total,
            entries,
            j,
        ) by {
            if j == 0 {
                assert(entries[0].1 as int == share_int);
            } else {
                assert(plan_entry_ok(
                    claims,
                    repo_id,
                    issue_number,
                    contributors.skip(1),
                    total,
                    rest,
                    j - 1,
                ));
                assert(contributors.skip(1)[j - 1] == contributors[j]);
                assert(rest[j - 1] == entries[j]);
            }
        }
    }
}

/// Replacing a claim record by one with the same key never changes what a
/// plan looks up, so the plan itself is unchanged.
pub proof fn lemma_plan_stable_update(
    claims: Seq<ClaimAccount>,
    k: int,
    c2: ClaimAccount,
    repo_id: u64,
    issue_number: u64,
    contributors: Seq<ContributorInfo>,
    total: u64,
    used: u64,
)
    requires
        claims_unique(claims),
        0 <= k < claims.len(),
        c2.repo_id == claims[k].repo_id,
        c2.issue_number == claims[k].issue_number,
        c2.github_handle@ == claims[k].github_handle@,
    ensures
        plan(claims.update(k, c2), repo_id, issue_number, contributors, total, used) == plan(
            claims,
            repo_id,
            issue_number,
            contributors,
            total,
            used,
        ),
    decreases contributors.len(),
{
    let u = claims.update(k, c2);
    if contributors.len() == 0 {
    } else {
        let h = contributors[0].github_handle@;
        if has_claim(claims, repo_id, issue_number, h) {
            let w = claim_index(claims, repo_id, issue_number, h);
            assert(claim_has_key(u[w], repo_id, issue_number, h));
            assert(has_claim(u, repo_id, issue_number, h));
        }
        if has_claim(u, repo_id, issue_number, h) {
            let w = claim_index(u, repo_id, issue_number, h);
            assert(claim_has_key(claims[w], repo_id, issue_number, h));
            assert(has_claim(claims, repo_id, issue_number, h));
        }
        if has_claim(claims, repo_id, issue_number, h) {
            let i1 = claim_index(claims, repo_id, issue_number, h);
            let i2 = claim_index(u, repo_id, issue_number, h);
            assert(claim_has_key(claims[i2], repo_id, issue_number, h));
            if i1 != i2 {
                if i1 < i2 {
                    assert(claim_has_key(
                        claims[i2],
                        claims[i1].repo_id,
                        claims[i1].issue_number,
                        claims[i1].github_handle@,
                    ));
                } else {
                    assert(claim_has_key(
                        claims[i1],
                        claims[i2].repo_id,
                        claims[i2].issue_number,
                        claims[i2].github_handle@,
                    ));
                }
            }
            assert(i1 == i2);
            let share_int = (contributors[0].commits as int) * (BPS_DENOMINATOR as int) / (
            total as int);
            if !(used as int + share_int > BPS_DENOMINATOR as int) {
                lemma_plan_stable_update(
                    claims,
                    k,
                    c2,
                    repo_id,
                    issue_number,
                    contributors.skip(1),
                    total,
                    (used + share_int) as u64,
                );
            }
        }
    }
}

/// Applying a plan changes nothing but the share and commit fields of
/// claims keyed to the released bounty; every other record is untouched.
pub proof fn lemma_apply_plan_shape(
    claims: Seq<ClaimAccount>,
    repo_id: u64,
    issue_number: u64,
    entries: Seq<(int, u32, u32)>,
)
    requires
        forall|j: int|
            0 <= j < entries.len() ==> 0 <= (#[trigger] entries[j]).0 < claims.len()
                && claims[entries[j].0].repo_id == repo_id && claims[entries[j].0].issue_number
                == issue_number,
    ensures
        apply_plan(claims, entries).len() == claims.len(),
        forall|kk: int|
            0 <= kk < claims.len() ==> (#[trigger] apply_plan(claims, entries)[kk]) == claims[kk]
                || (apply_plan(claims, entries)[kk].repo_id == claims[kk].repo_id && apply_plan(
                claims,
                entries,
            )[kk].issue_number == claims[kk].issue_number && apply_plan(
                claims,
                entries,
            )[kk].github_handle == claims[kk].github_handle && apply_plan(
                claims,
                entries,
            )[kk].claimant == claims[kk].claimant && apply_plan(claims, entries)[kk].withdrawn
                == claims[kk].withdrawn && claims[kk].repo_id == repo_id
                && claims[kk].issue_number == issue_number),
    decreases entries.len(),
{
    if entries.len() == 0 {
    } else {
        let e = entries[0];
        let claims1 = claims.update(
            e.0,
            ClaimAccount { share_bps: e.1, commits: e.2, ..claims[e.0] },
        );
        assert forall|j: int| 0 <= j < entries.skip(1).len() implies 0 <= (#[trigger] entries.skip(
            1,
        )[j]).0 < claims1.len() && claims1[entries.skip(1)[j].0].repo_id == repo_id
            && claims1[entries.skip(1)[j].0].issue_number == issue_number by {
            assert(entries.skip(1)[j] == entries[j + 1]);
        }
        lemma_apply_plan_shape(claims1, repo_id, issue_number, entries.skip(1));
        assert(apply_plan(claims, entries) == apply_plan(claims1, entries.skip(1)));
    }
}

/// The heart of the fund-safety argument: applying a successful plan to
/// claims that all still carry a zero share leaves the bounty owing at most
/// `pool * (fu - used) / 10000` more than before — so, with the cap, at
/// most the whole post-fee pool.
pub proof fn lemma_plan_apply_owed(
    claims: Seq<ClaimAccount>,
    repo_id: u64,
    issue_number: u64,
    contributors: Seq<ContributorInfo>,
    total: u64,
    used: u64,
    entries: Seq<(int, u32, u32)>,
    fu: u64,
    pool: int,
)
    requires
        claims_unique(claims),
        contribs_distinct(contributors),
        total > 0,
        used <= BPS_DENOMINATOR,
        plan(claims, repo_id, issue_number, contributors, total, used) == Ok::<
            (Seq<(int, u32, u32)>, u64),
            BountyError,
        >((entries, fu)),
        pool >= 0,
        forall|j: int|
            0 <= j < contributors.len() && #[trigger] has_claim(
                claims,
                repo_id,
                issue_number,
                contributors[j].github_handle@,
            ) ==> claims[claim_index(
                claims,
                repo_id,
                issue_number,
                contributors[j].github_handle@,
            )].share_bps == 0 && !claims[claim_index(
                claims,
                repo_id,
                issue_number,
                contributors[j].github_handle@,
            )].withdrawn,
    ensures
        owed(apply_plan(claims, entries), repo_id, issue_number, pool) <= owed(
            claims,
            repo_id,
            issue_number,
            pool,
        ) + pool * (fu - used) / (BPS_DENOMINATOR as int),
    decreases contributors.len(),
{
    let d = BPS_DENOMINATOR as int;
    if contributors.len() == 0 {
        lemma_div_of0(d);
        assert(pool * (fu - used) == pool * 0) by (nonlinear_arith)
            requires
                fu == used,
        ;
    } else {
        let c0 = contributors[0];
        let h0 = c0.github_handle@;
        assert(has_claim(claims, repo_id, issue_number, h0));
        let idx0 = claim_index(claims, repo_id, issue_number, h0);
        let share_int = (c0.commits as int) * d / (total as int);
        lemma_mul_nonnegative(c0.commits as int, d);
        lemma_div_pos_is_pos((c0.commits as int) * d, total as int);
        let used1 = (used + share_int) as u64;
        let rec = plan(claims, repo_id, issue_number, contributors.skip(1), total, used1);
        let rest = rec->Ok_0.0;
        assert(rec->Ok_0.1 == fu);
        assert(entries == seq![(idx0, share_int as u32, c0.commits)] + rest);
        assert(entries[0] == (idx0, share_int as u32, c0.commits));
        assert(rest =~= entries.skip(1));
        let c0rec = claims[idx0];
        assert(c0rec.share_bps == 0 && !c0rec.withdrawn);
        let c0p = ClaimAccount { share_bps: share_int as u32, commits: c0.commits, ..c0rec };
        let claims1 = claims.update(idx0, c0p);
        assert(apply_plan(claims, entries) == apply_plan(claims1, rest));
        // The owed sum grows by exactly the newly assigned entitlement.
        lemma_owed_update(claims, idx0, c0p, repo_id, issue_number, pool);
        assert(pool * (0u32 as int) == 0) by (nonlinear_arith);
        lemma_div_of0(d);
        assert(owed_term(c0rec, repo_id, issue_number, pool) == 0);
        assert(owed_term(c0p, repo_id, issue_number, pool) == pool * share_int / d);
        // The rest of the plan applies unchanged to the updated claims.
        lemma_claims_unique_update(claims, idx0, c0p);
        lemma_plan_stable_update(
            claims,
            idx0,
            c0p,
            repo_id,
            issue_number,
            contributors.skip(1),
            total,
            used1,
        );
        assert forall|p: int, q: int| 0 <= p < q < contributors.skip(1).len() implies !(
        #[trigger] contrib_matches(
            contributors.skip(1)[q],
            contributors.skip(1)[p].github_handle@,
        )) by {
            assert(!contrib_matches(contributors[q + 1], contributors[p + 1].github_handle@));
        }
        assert forall|j: int|
            0 <= j < contributors.skip(1).len() && #[trigger] has_claim(
                claims1,
                repo_id,
                issue_number,
                contributors.skip(1)[j].github_handle@,
            ) implies claims1[claim_index(
            claims1,
            repo_id,
            issue_number,
            contributors.skip(1)[j].github_handle@,
        )].share_bps == 0 && !claims1[claim_index(
            claims1,
            repo_id,
            issue_number,
            contributors.skip(1)[j].github_handle@,
        )].withdrawn by {
            let hj = contributors.skip(1)[j].github_handle@;
            assert(contributors.skip(1)[j] == contributors[j + 1]);
            assert(!contrib_matches(contributors[j + 1], contributors[0].github_handle@));
            let w = claim_index(claims1, repo_id, issue_number, hj);
            assert(claim_has_key(claims1[w], repo_id, issue_number, hj));
            assert(claim_has_key(claims[w], repo_id, issue_number, hj));
            assert(has_claim(claims, repo_id, issue_number, hj));
            let w0 = claim_index(claims, repo_id, issue_number, hj);
            if w0 != w {
                if w0 < w {
                    assert(claim_has_key(
                        claims[w],
                        claims[w0].repo_id,
                        claims[w0].issue_number,
                        claims[w0].github_handle@,
                    ));
                } else {
                    assert(claim_has_key(
                        claims[w0],
                        claims[w].repo_id,
                        claims[w].issue_number,
                        claims[w].github_handle@,
                    ));
                }
            }
            assert(w0 == w);
            assert(w != idx0);
            assert(claims1[w] == claims[w]);
        }
        lemma_plan_props(
            claims,
            repo_id,
            issue_number,
            contributors.skip(1),
            total,
            used1,
            rest,
            fu,
        );
        lemma_plan_apply_owed(
            claims1,
            repo_id,
            issue_number,
            contributors.skip(1),
            total,
            used1,
            rest,
            fu,
            pool,
        );
        // Two floors never beat one: fold the new entitlement into the bound.
        lemma_mul_nonnegative(pool, share_int);
        lemma_mul_nonnegative(pool, fu - used1);
        lemma_floor_div_add(pool * share_int, pool * (fu - used1), d);
        lemma_mul_is_distributive_add(pool, share_int, fu - used1);
        assert(share_int + (fu - used1) == fu - used);
    }
}

/// The transition of `release_on_merge`: only the treasury's release
/// authority may release, only from `Funded`. In one atomic step the
/// platform fee — zero for the native currency — moves from the vault to
/// the treasury, every contributor's claim receives its proportional share
/// of the post-fee pool, and the bounty becomes `Released`. The `Ok` value
/// is the fee moved.
pub open spec fn release_on_merge_t(
    s: MarketState,
    repo_id: u64,
    issue_number: u64,
    caller: u64,
    contributors: Seq<ContributorInfo>,
) -> (MarketState, Result<u64, BountyError>) {
    if !has_bounty(s.bounties, repo_id, issue_number) {
        (s, Err(BountyError::NotFound))
    } else if s.treasury is None {
        (s, Err(BountyError::NotFound))
    } else {
        let i = bounty_index(s.bounties, repo_id, issue_number);
        let b = s.bounties[i];
        let t = s.treasury.unwrap();
        if caller != t.authority {
            (s, Err(BountyError::NotAuthorized))
        } else if b.status != BountyStatus::Funded {
            (s, Err(BountyError::WrongState))
        } else {
            let fee = fee_of(b.amount, t.fee_bps, b.token_mint);
            if fee > b.amount {
                (s, Err(BountyError::ArithmeticOverflow))
            } else if balance_of(s.treasury_balances, b.token_mint) + fee > u64::MAX {
                (s, Err(BountyError::ArithmeticOverflow))
            } else if !contribs_distinct(contributors) {
                (s, Err(BountyError::DuplicateBinding))
            } else if total_commits(contributors) > u64::MAX {
                (s, Err(BountyError::ArithmeticOverflow))
            } else if total_commits(contributors) == 0 {
                (s, Err(BountyError::InvalidAmount))
            } else {
                match plan(
                    s.claims,
                    repo_id,
                    issue_number,
                    contributors,
                    total_commits(contributors) as u64,
                    0,
                ) {
                    Err(e) => (s, Err(e)),
                    Ok((entries, _used)) => {
                        let s1 = MarketState {
                            bounties: s.bounties.update(
                                i,
                                BountyAccount { status: BountyStatus::Released, ..b },
                            ),
                            vaults: s.vaults.update(
                                i,
                                EscrowVault { balance: (s.vaults[i].balance - fee) as u64 },
                            ),
                            claims: apply_plan(s.claims, entries),
                            treasury_balances: credit(
                                s.treasury_balances,
                                b.token_mint,
                                fee as u64,
                            ),
                            ..s
                        };
                        (s1, Ok(fee as u64))
                    },
                }
            }
        }
    }
}

/// `withdraw_t` preserves well-formedness, touches no bounty, agent or
/// treasury record, and never grows a vault.
pub proof fn lemma_withdraw_t_wf(
    s: MarketState,
    repo_id: u64,
    issue_number: u64,
    handle: Seq<char>,
    caller: u64,
)
    requires
        wf(s),
    ensures
        wf(withdraw_t(s, repo_id, issue_number, handle, caller).0),
        withdraw_t(s, repo_id, issue_number, handle, caller).0.bounties == s.bounties,
        withdraw_t(s, repo_id, issue_number, handle, caller).0.agents == s.agents,
        withdraw_t(s, repo_id, issue_number, handle, caller).0.treasury == s.treasury,
        withdraw_t(s, repo_id, issue_number, handle, caller).0.treasury_balances
            == s.treasury_balances,
        withdraw_t(s, repo_id, issue_number, handle, caller).1 is Err ==> withdraw_t(
            s,
            repo_id,
            issue_number,
            handle,
            caller,
        ).0 == s,
{
    if has_bounty(s.bounties, repo_id, issue_number) && has_claim(
        s.claims,
        repo_id,
        issue_number,
        handle,
    ) {
        let i = bounty_index(s.bounties, repo_id, issue_number);
        let b = s.bounties[i];
        let k = claim_index(s.claims, repo_id, issue_number, handle);
        let c = s.claims[k];
        if caller == c.claimant && !c.withdrawn && b.status == BountyStatus::Released
            && c.share_bps != 0 && s.treasury is Some {
            let s1 = withdraw_t(s, repo_id, issue_number, handle, caller).0;
            assert(bounty_ok(s, i));
            let pool = pool_of(b.amount, s.treasury.unwrap().fee_bps, b.token_mint);
            let payout = entitlement(pool, c.share_bps);
            assert(owed_term(c, repo_id, issue_number, pool) == payout);
            lemma_owed_term_le(s.claims, k, repo_id, issue_number, pool);
            lemma_entitlement_nonneg(pool, c.share_bps);
            let c2 = ClaimAccount { withdrawn: true, ..c };
            lemma_claims_unique_update(s.claims, k, c2);
            assert forall|j: int| 0 <= j < s1.bounties.len() implies #[trigger] bounty_ok(
                s1,
                j,
            ) by {
                assert(bounty_ok(s, j));
                let bj = s.bounties[j];
                if bj.status == BountyStatus::Released {
                    let poolj = pool_of(bj.amount, s.treasury.unwrap().fee_bps, bj.token_mint);
                    lemma_owed_update(s.claims, k, c2, bj.repo_id, bj.issue_number, poolj);
                    if j != i {
                        if c.repo_id == bj.repo_id && c.issue_number == bj.issue_number {
                            if i < j {
                                assert(bounty_has_key(
                                    s.bounties[j],
                                    s.bounties[i].repo_id,
                                    s.bounties[i].issue_number,
                                ));
                            } else {
                                assert(bounty_has_key(
                                    s.bounties[i],
                                    s.bounties[j].repo_id,
                                    s.bounties[j].issue_number,
                                ));
                            }
                            assert(false);
                        }
                        assert(owed_term(c, bj.repo_id, bj.issue_number, poolj) == 0);
                        assert(owed_term(c2, bj.repo_id, bj.issue_number, poolj) == 0);
                    } else {
                        assert(owed_term(c2, bj.repo_id, bj.issue_number, poolj) == 0);
                    }
                }
            }
            assert forall|kk: int| 0 <= kk < s1.claims.len() implies #[trigger] claim_ok(
                s1,
                kk,
            ) by {
                assert(claim_ok(s, kk));
                if kk == k {
                    assert forall|m: int|
                        0 <= m < s1.bounties.len() && #[trigger] bounty_has_key(
                            s1.bounties[m],
                            c2.repo_id,
                            c2.issue_number,
                        ) && s1.bounties[m].status != BountyStatus::Released implies c2.share_bps
                        == 0 && !c2.withdrawn by {
                        if m != i {
                            if i < m {
                                assert(bounty_has_key(
                                    s.bounties[m],
                                    s.bounties[i].repo_id,
                                    s.bounties[i].issue_number,
                                ));
                            } else {
                                assert(bounty_has_key(
                                    s.bounties[i],
                                    s.bounties[m].repo_id,
                                    s.bounties[m].issue_number,
                                ));
                            }
                        }
                        assert(false);
                    }
                }
            }
        }
    }
}

impl Marketplace {
    /// Claims a funded bounty for `github_handle`. The handle must be bound,
    /// and bound to `claimant`; the claim starts with no share and is never
    /// deleted. Claims are refused once the bounty leaves `Funded`.
    pub fn claim_bounty(
        &mut self,
        repo_id: u64,
        issue_number: u64,
        claimant: u64,
        github_handle: String,
    ) -> (r: Result<(), BountyError>)
        requires
            wf(old(self)@),
        ensures
            wf(final(self)@),
            (final(self)@, r) == claim_bounty_t(
                old(self)@,
                repo_id,
                issue_number,
                claimant,
                github_handle,
            ),
    {
        let i = match find_bounty(&self.bounties, repo_id, issue_number) {
            None => {
                return Err(BountyError::NotFound);
            },
            Some(i) => i,
        };
        if self.bounties[i].status != BountyStatus::Funded {
            return Err(BountyError::WrongState);
        }
        let a = match find_agent(&self.agents, &github_handle) {
            None => {
                return Err(BountyError::NotFound);
            },
            Some(a) => a,
        };
        if self.agents[a].wallet != claimant {
            return Err(BountyError::NotAuthorized);
        }
        if find_claim(&self.claims, repo_id, issue_number, &github_handle).is_some() {
            return Err(BountyError::DuplicateBinding);
        }
        let ghost s0 = self@;
        let ghost h = github_handle@;
        self.claims.push(
            ClaimAccount {
                repo_id,
                issue_number,
                claimant,
                github_handle,
                commits: 0,
                share_bps: 0,
                withdrawn: false,
            },
        );
        proof {
            let s1 = self@;
            let n = s0.claims.len() as int;
            assert forall|p: int, q: int| 0 <= p < q < s1.claims.len() implies !(
            #[trigger] claim_has_key(
                s1.claims[q],
                s1.claims[p].repo_id,
                s1.claims[p].issue_number,
                s1.claims[p].github_handle@,
            )) by {
                if q < n {
                    assert(!claim_has_key(
                        s0.claims[q],
                        s0.claims[p].repo_id,
                        s0.claims[p].issue_number,
                        s0.claims[p].github_handle@,
                    ));
                } else {
                    assert(!claim_has_key(s0.claims[p], repo_id, issue_number, h));
                    assert(s1.claims[q].github_handle@ == h);
                }
            }
            assert forall|j: int| 0 <= j < s1.bounties.len() implies #[trigger] bounty_ok(
                s1,
                j,
            ) by {
                assert(bounty_ok(s0, j));
                if s0.bounties[j].status == BountyStatus::Released {
                    let bj = s0.bounties[j];
                    let pool = pool_of(bj.amount, s0.treasury.unwrap().fee_bps, bj.token_mint);
                    crate::escrow::lemma_owed_push(
                        s0.claims,
                        s1.claims[n],
                        bj.repo_id,
                        bj.issue_number,
                        pool,
                    );
                    // The new claim is keyed to the funded bounty `i`, which
                    // is a different bounty, hence a different key.
                    if s1.claims[n].repo_id == bj.repo_id && s1.claims[n].issue_number
                        == bj.issue_number {
                        if (i as int) < j {
                            assert(bounty_has_key(
                                s0.bounties[j],
                                s0.bounties[i as int].repo_id,
                                s0.bounties[i as int].issue_number,
                            ));
                        } else {
                            assert(bounty_has_key(
                                s0.bounties[i as int],
                                s0.bounties[j].repo_id,
                                s0.bounties[j].issue_number,
                            ));
                        }
                        assert(false);
                    }
                    assert(owed_term(s1.claims[n], bj.repo_id, bj.issue_number, pool) == 0);
                }
            }
            assert forall|k: int| 0 <= k < s1.claims.len() implies #[trigger] claim_ok(s1, k) by {
                if k < n {
                    assert(claim_ok(s0, k));
                } else {
                    assert(bounty_has_key(s1.bounties[i as int], repo_id, issue_number));
                }
            }
        }
        Ok(())
    }

    /// Releases a funded bounty on the strength of the external authority's
    /// attestation. Only the treasury's whitelisted release authority may
    /// call it. In one atomic step: the platform fee — exactly
    /// `amount * fee_bps / 10000`, and zero when the bounty is denominated
    /// in the native currency — moves from the vault to the treasury; each
    /// contributor's existing claim receives `commits * 10000 / total`
    /// basis points of the post-fee pool, capped so the per-bounty total
    /// never exceeds 10000; and the bounty becomes `Released`. The `Ok`
    /// value is the fee moved.
    #[verifier::loop_isolation(false)]
    #[verifier::rlimit(60)]
    pub fn release_on_merge(
        &mut self,
        repo_id: u64,
        issue_number: u64,
        caller: u64,
        contributors: &Vec<ContributorInfo>,
    ) -> (r: Result<u64, BountyError>)
        requires
            wf(old(self)@),
        ensures
            wf(final(self)@),
            (final(self)@, r) == release_on_merge_t(
                old(self)@,
                repo_id,
                issue_number,
                caller,
                contributors@,
            ),
    {
        let i = match find_bounty(&self.bounties, repo_id, issue_number) {
            None => {
                return Err(BountyError::NotFound);
            },
            Some(i) => i,
        };
        let t = match self.treasury {
            None => {
                return Err(BountyError::NotFound);
            },
            Some(t) => t,
        };
        if caller != t.authority {
            return Err(BountyError::NotAuthorized);
        }
        let b = self.bounties[i];
        if b.status != BountyStatus::Funded {
            return Err(BountyError::WrongState);
        }
        let ghost s0 = self@;
        proof {
            assert(bounty_ok(s0, i as int));
        }
        let fee: u64;
        if b.token_mint == NATIVE_MINT {
            fee = 0;
        } else {
            proof {
                lemma_mul_upper_bound(
                    b.amount as int,
                    u64::MAX as int,
                    t.fee_bps as int,
                    u64::MAX as int,
                );
            }
            let fee_wide = (b.amount as u128) * (t.fee_bps as u128) / (BPS_DENOMINATOR as u128);
            if fee_wide > b.amount as u128 {
                return Err(BountyError::ArithmeticOverflow);
            }
            fee = fee_wide as u64;
        }
        assert(fee as int == fee_of(b.amount, t.fee_bps, b.token_mint));
        let tb_idx = find_balance(&self.treasury_balances, b.token_mint);
        let cur: u64 = match tb_idx {
            Some(j) => self.treasury_balances[j].amount,
            None => 0,
        };
        assert(cur as int == balance_of(s0.treasury_balances, b.token_mint));
        let new_tb = match cur.checked_add(fee) {
            None => {
                return Err(BountyError::ArithmeticOverflow);
            },
            Some(v) => v,
        };
        // No handle may appear twice in the contributor list.
        let n = contributors.len();
        let mut p: usize = 0;
        while p < n
            invariant
                p <= n,
                n == contributors@.len(),
                forall|a: int, bq: int|
                    0 <= a < p && a < bq < n ==> !(#[trigger] contrib_matches(
                        contributors@[bq],
                        contributors@[a].github_handle@,
                    )),
            decreases n - p,
        {
            let mut q: usize = p + 1;
            while q < n
                invariant
                    p < n,
                    p < q <= n,
                    n == contributors@.len(),
                    forall|a: int, bq: int|
                        0 <= a < p && a < bq < n ==> !(#[trigger] contrib_matches(
                            contributors@[bq],
                            contributors@[a].github_handle@,
                        )),
                    forall|bq: int|
                        p < bq < q ==> !(#[trigger] contrib_matches(
                            contributors@[bq],
                            contributors@[p as int].github_handle@,
                        )),
                decreases n - q,
            {
                if contributors[q].github_handle == contributors[p].github_handle {
                    proof {
                        assert(contrib_matches(
                            contributors@[q as int],
                            contributors@[p as int].github_handle@,
                        ));
                    }
                    return Err(BountyError::DuplicateBinding);
                }
                q = q + 1;
            }
            p = p + 1;
        }
        assert(contribs_distinct(contributors@));
        // The oracle's commit total, with checked accumulation.
        let mut total: u64 = 0;
        let mut ti: usize = 0;
        while ti < n
            invariant
                ti <= n,
                n == contributors@.len(),
                total as int == total_commits(contributors@.take(ti as int)),
            decreases n - ti,
        {
            proof {
                assert(contributors@.take(ti as int + 1).drop_last() =~= contributors@.take(
                    ti as int,
                ));
                assert(contributors@.take(ti as int + 1).last() == contributors@[ti as int]);
            }
            total = match total.checked_add(contributors[ti].commits as u64) {
                None => {
                    proof {
                        lemma_total_commits_prefix(contributors@, ti as int + 1);
                    }
                    return Err(BountyError::ArithmeticOverflow);
                },
                Some(v) => v,
            };
            ti = ti + 1;
        }
        proof {
            assert(contributors@.take(n as int) =~= contributors@);
        }
        if total == 0 {
            return Err(BountyError::InvalidAmount);
        }
        // Plan the share assignments without touching any record yet: the
        // whole release either applies or nothing does.
        let mut entries: Vec<(usize, u32, u32)> = Vec::new();
        let mut used: u64 = 0;
        let mut pi: usize = 0;
        while pi < n
            invariant
                pi <= n,
                n == contributors@.len(),
                total > 0,
                total as int == total_commits(contributors@),
                used <= BPS_DENOMINATOR,
                claims_unique(self@.claims),
                (match plan(
                    self@.claims,
                    repo_id,
                    issue_number,
                    contributors@.skip(pi as int),
                    total,
                    used,
                ) {
                    Ok(pr) => plan(
                        self@.claims,
                        repo_id,
                        issue_number,
                        contributors@,
                        total,
                        0,
                    ) == Ok::<(Seq<(int, u32, u32)>, u64), BountyError>(
                        (map_entries(entries@) + pr.0, pr.1),
                    ),
                    Err(e) => plan(
                        self@.claims,
                        repo_id,
                        issue_number,
                        contributors@,
                        total,
                        0,
                    ) == Err::<(Seq<(int, u32, u32)>, u64), BountyError>(e),
                }),
            decreases n - pi,
        {
            proof {
                assert(contributors@.skip(pi as int)[0] == contributors@[pi as int]);
            }
            let k = match find_claim(
                &self.claims,
                repo_id,
                issue_number,
                &contributors[pi].github_handle,
            ) {
                None => {
                    return Err(BountyError::NotFound);
                },
                Some(k) => k,
            };
            let commits = contributors[pi].commits;
            proof {
                lemma_mul_upper_bound(
                    commits as int,
                    u32::MAX as int,
                    BPS_DENOMINATOR as int,
                    BPS_DENOMINATOR as int,
                );
            }
            let product = (commits as u64) * BPS_DENOMINATOR;
            proof {
                lemma_div_nonincreasing(product as int, total as int);
                lemma_mul_nonnegative(commits as int, BPS_DENOMINATOR as int);
                lemma_div_pos_is_pos(product as int, total as int);
            }
            let share64 = product / total;
            if used + share64 > BPS_DENOMINATOR {
                return Err(BountyError::InvalidAmount);
            }
            let ghost pre_entries = entries@;
            entries.push((k, share64 as u32, commits));
            used = used + share64;
            pi = pi + 1;
            proof {
                assert(contributors@.skip(pi - 1).skip(1) =~= contributors@.skip(pi as int));
                assert(map_entries(entries@) =~= map_entries(pre_entries).push(
                    (k as int, share64 as u32, commits),
                ));
                assert(map_entries(pre_entries).push((k as int, share64 as u32, commits))
                    =~= map_entries(pre_entries) + seq![(k as int, share64 as u32, commits)]);
                assert forall|rest: Seq<(int, u32, u32)>|
                    true implies (map_entries(pre_entries) + (seq![
                    (k as int, share64 as u32, commits),
                ] + rest)) =~= (map_entries(entries@) + rest) by {}
            }
        }
        let ghost gentries = map_entries(entries@);
        proof {
            assert(contributors@.skip(n as int) =~= Seq::<ContributorInfo>::empty());
            assert(gentries + Seq::<(int, u32, u32)>::empty() =~= gentries);
            assert(plan(s0.claims, repo_id, issue_number, contributors@, total, 0) == Ok::<
                (Seq<(int, u32, u32)>, u64),
                BountyError,
            >((gentries, used)));
            lemma_plan_props(s0.claims, repo_id, issue_number, contributors@, total, 0, gentries, used);
            assert forall|j: int| 0 <= j < gentries.len() implies 0 <= (#[trigger] gentries[j]).0
                < s0.claims.len() && s0.claims[gentries[j].0].repo_id == repo_id
                && s0.claims[gentries[j].0].issue_number == issue_number by {
                assert(plan_entry_ok(
                    s0.claims,
                    repo_id,
                    issue_number,
                    contributors@,
                    total,
                    gentries,
                    j,
                ));
            }
        }
        // Apply the plan.
        proof {
            assert(gentries.skip(0) =~= gentries);
        }
        let mut q2: usize = 0;
        while q2 < entries.len()
            invariant
                q2 <= entries@.len(),
                gentries == map_entries(entries@),
                forall|j: int|
                    0 <= j < gentries.len() ==> 0 <= (#[trigger] gentries[j]).0 < s0.claims.len(),
                self@.claims.len() == s0.claims.len(),
                self@.bounties == s0.bounties,
                self@.vaults == s0.vaults,
                self@.agents == s0.agents,
                self@.treasury == s0.treasury,
                self@.treasury_balances == s0.treasury_balances,
                apply_plan(self@.claims, gentries.skip(q2 as int)) == apply_plan(
                    s0.claims,
                    gentries,
                ),
            decreases entries@.len() - q2,
        {
            let e = entries[q2];
            let kq = e.0;
            let sq = e.1;
            let cq = e.2;
            proof {
                assert(gentries[q2 as int] == (kq as int, sq, cq));
            }
            let ghost cpre = self@.claims;
            self.claims[kq].share_bps = sq;
            self.claims[kq].commits = cq;
            q2 = q2 + 1;
            proof {
                assert(self@.claims =~= cpre.update(
                    kq as int,
                    ClaimAccount { share_bps: sq, commits: cq, ..cpre[kq as int] },
                ));
                assert(gentries.skip(q2 - 1)[0] == gentries[q2 - 1]);
                assert(gentries.skip(q2 - 1).skip(1) =~= gentries.skip(q2 as int));
            }
        }
        proof {
            assert(gentries.skip(entries@.len() as int) =~= Seq::<(int, u32, u32)>::empty());
            assert(self@.claims == apply_plan(s0.claims, gentries));
        }
        // Move the fee and flip the status: the vault held exactly the
        // funded amount, so what is left is exactly the post-fee pool.
        let new_vault = self.vaults[i].balance - fee;
        self.bounties[i] = BountyAccount { status: BountyStatus::Released, ..b };
        self.vaults[i] = EscrowVault { balance: new_vault };
        match tb_idx {
            Some(j) => {
                self.treasury_balances[j] = TreasuryBalance { mint: b.token_mint, amount: new_tb };
            },
            None => {
                self.treasury_balances.push(TreasuryBalance { mint: b.token_mint, amount: new_tb });
            },
        }
        proof {
            let s1 = self@;
            let gpool = pool_of(b.amount, t.fee_bps, b.token_mint);
            assert(s1.treasury_balances == credit(s0.treasury_balances, b.token_mint, fee));
            lemma_credit(s0.treasury_balances, b.token_mint, fee);
            lemma_bounties_unique_update(s0.bounties, i as int, s1.bounties[i as int]);
            lemma_plan_props(s0.claims, repo_id, issue_number, contributors@, total, 0, gentries, used);
            assert forall|j: int| 0 <= j < gentries.len() implies 0 <= (#[trigger] gentries[j]).0
                < s0.claims.len() && s0.claims[gentries[j].0].repo_id == repo_id
                && s0.claims[gentries[j].0].issue_number == issue_number by {
                assert(plan_entry_ok(
                    s0.claims,
                    repo_id,
                    issue_number,
                    contributors@,
                    total,
                    gentries,
                    j,
                ));
            }
            lemma_apply_plan_shape(s0.claims, repo_id, issue_number, gentries);
            // Keys are untouched, so claim keys stay unique.
            assert forall|pp: int, qq: int| 0 <= pp < qq < s1.claims.len() implies !(
            #[trigger] claim_has_key(
                s1.claims[qq],
                s1.claims[pp].repo_id,
                s1.claims[pp].issue_number,
                s1.claims[pp].github_handle@,
            )) by {
                assert(!claim_has_key(
                    s0.claims[qq],
                    s0.claims[pp].repo_id,
                    s0.claims[pp].issue_number,
                    s0.claims[pp].github_handle@,
                ));
            }
            // Nothing was owed before release, and the cap keeps what is
            // owed after release within the post-fee pool.
            assert forall|k: int|
                0 <= k < s0.claims.len() && s0.claims[k].repo_id == repo_id
                    && s0.claims[k].issue_number == issue_number implies (
            #[trigger] s0.claims[k].share_bps) == 0 && !s0.claims[k].withdrawn by {
                assert(claim_ok(s0, k));
                assert(bounty_has_key(
                    s0.bounties[i as int],
                    s0.claims[k].repo_id,
                    s0.claims[k].issue_number,
                ));
            }
            lemma_owed_zero(s0.claims, repo_id, issue_number, gpool);
            assert forall|j: int|
                0 <= j < contributors@.len() && #[trigger] has_claim(
                    s0.claims,
                    repo_id,
                    issue_number,
                    contributors@[j].github_handle@,
                ) implies s0.claims[claim_index(
                s0.claims,
                repo_id,
                issue_number,
                contributors@[j].github_handle@,
            )].share_bps == 0 && !s0.claims[claim_index(
                s0.claims,
                repo_id,
                issue_number,
                contributors@[j].github_handle@,
            )].withdrawn by {
                let kk = claim_index(
                    s0.claims,
                    repo_id,
                    issue_number,
                    contributors@[j].github_handle@,
                );
                assert(claim_has_key(
                    s0.claims[kk],
                    repo_id,
                    issue_number,
                    contributors@[j].github_handle@,
                ));
            }
            lemma_plan_apply_owed(
                s0.claims,
                repo_id,
                issue_number,
                contributors@,
                total,
                0,
                gentries,
                used,
                gpool,
            );
            lemma_frac_le_pool(gpool, used as int);
            assert(bounty_ok(s1, i as int));
            assert forall|j: int| 0 <= j < s1.bounties.len() implies #[trigger] bounty_ok(
                s1,
                j,
            ) by {
                if j != i as int {
                    assert(bounty_ok(s0, j));
                    let bj = s0.bounties[j];
                    if bj.status == BountyStatus::Released {
                        let poolj = pool_of(bj.amount, s0.treasury.unwrap().fee_bps, bj.token_mint);
                        assert forall|k: int| 0 <= k < s0.claims.len() implies (
                        #[trigger] s1.claims[k]) == s0.claims[k] || !(s0.claims[k].repo_id
                            == bj.repo_id && s0.claims[k].issue_number == bj.issue_number) && !(
                        s1.claims[k].repo_id == bj.repo_id && s1.claims[k].issue_number
                            == bj.issue_number) by {
                            if s1.claims[k] != s0.claims[k] {
                                // A rewritten claim is keyed to bounty `i`,
                                // whose key differs from bounty `j`'s.
                                if s0.claims[k].repo_id == bj.repo_id && s0.claims[k].issue_number
                                    == bj.issue_number {
                                    if (i as int) < j {
                                        assert(bounty_has_key(
                                            s0.bounties[j],
                                            s0.bounties[i as int].repo_id,
                                            s0.bounties[i as int].issue_number,
                                        ));
                                    } else {
                                        assert(bounty_has_key(
                                            s0.bounties[i as int],
                                            s0.bounties[j].repo_id,
                                            s0.bounties[j].issue_number,
                                        ));
                                    }
                                    assert(false);
                                }
                            }
                        }
                        lemma_owed_same(s0.claims, s1.claims, bj.repo_id, bj.issue_number, poolj);
                    }
                }
            }
            assert forall|kk: int| 0 <= kk < s1.claims.len() implies #[trigger] claim_ok(
                s1,
                kk,
            ) by {
                assert(claim_ok(s0, kk));
                let c0c = s0.claims[kk];
                let c1c = s1.claims[kk];
                let w = choose|m: int|
                    0 <= m < s0.bounties.len() && #[trigger] bounty_has_key(
                        s0.bounties[m],
                        c0c.repo_id,
                        c0c.issue_number,
                    );
                assert(bounty_has_key(s1.bounties[w], c1c.repo_id, c1c.issue_number));
                assert forall|m: int|
                    0 <= m < s1.bounties.len() && #[trigger] bounty_has_key(
                        s1.bounties[m],
                        c1c.repo_id,
                        c1c.issue_number,
                    ) && s1.bounties[m].status != BountyStatus::Released implies c1c.share_bps == 0
                    && !c1c.withdrawn by {
                    assert(m != i as int);
                    assert(bounty_has_key(s0.bounties[m], c0c.repo_id, c0c.issue_number));
                    assert(c0c.share_bps == 0 && !c0c.withdrawn);
                    if c1c != c0c {
                        // Then this claim was rewritten, so it is keyed to
                        // bounty `i`; but bounty `m` also carries that key.
                        if (i as int) < m {
                            assert(bounty_has_key(
                                s0.bounties[m],
                                s0.bounties[i as int].repo_id,
                                s0.bounties[i as int].issue_number,
                            ));
                        } else {
                            assert(bounty_has_key(
                                s0.bounties[i as int],
                                s0.bounties[m].repo_id,
                                s0.bounties[m].issue_number,
                            ));
                        }
                        assert(false);
                    }
                }
            }
            assert(wf(s1));
        }
        Ok(fee)
    }

    /// Pays out one claim of a released bounty: exactly
    /// `(amount - fee) * share_bps / 10000`, rounded down, moves from the
    /// vault to the claimant, and the claim is marked withdrawn so that a
    /// second withdrawal fails with `AlreadyWithdrawn` and moves nothing.
    /// The `Ok` value is the payout.
    pub fn withdraw(
        &mut self,
        repo_id: u64,
        issue_number: u64,
        github_handle: &String,
        caller: u64,
    ) -> (r: Result<u64, BountyError>)
        requires
            wf(old(self)@),
        ensures
            wf(final(self)@),
            (final(self)@, r) == withdraw_t(
                old(self)@,
                repo_id,
                issue_number,
                github_handle@,
                caller,
            ),
    {
        let i = match find_bounty(&self.bounties, repo_id, issue_number) {
            None => {
                return Err(BountyError::NotFound);
            },
            Some(i) => i,
        };
        let k = match find_claim(&self.claims, repo_id, issue_number, github_handle) {
            None => {
                return Err(BountyError::NotFound);
            },
            Some(k) => k,
        };
        if caller != self.claims[k].claimant {
            return Err(BountyError::NotClaimant);
        }
        if self.claims[k].withdrawn {
            return Err(BountyError::AlreadyWithdrawn);
        }
        let b = self.bounties[i];
        if b.status == BountyStatus::Closed {
            return Err(BountyError::WrongState);
        }
        if b.status != BountyStatus::Released {
            return Err(BountyError::BountyNotReleased);
        }
        let share = self.claims[k].share_bps;
        if share == 0 {
            return Err(BountyError::NoShareAssigned);
        }
        let t = match self.treasury {
            None => {
                return Err(BountyError::NotFound);
            },
            Some(t) => t,
        };
        let ghost s0 = self@;
        proof {
            assert(bounty_ok(s0, i as int));
        }
        let fee: u64 = if b.token_mint == NATIVE_MINT {
            0
        } else {
            proof {
                lemma_mul_upper_bound(
                    b.amount as int,
                    u64::MAX as int,
                    t.fee_bps as int,
                    u64::MAX as int,
                );
            }
            (((b.amount as u128) * (t.fee_bps as u128)) / (BPS_DENOMINATOR as u128)) as u64
        };
        assert(fee as int == fee_of(b.amount, t.fee_bps, b.token_mint));
        let pool = b.amount - fee;
        let ghost gpool = pool_of(b.amount, t.fee_bps, b.token_mint);
        proof {
            assert(pool as int == gpool);
            assert(owed_term(s0.claims[k as int], repo_id, issue_number, gpool) == entitlement(
                gpool,
                share,
            ));
            lemma_owed_term_le(s0.claims, k as int, repo_id, issue_number, gpool);
            lemma_entitlement_nonneg(gpool, share);
            lemma_mul_upper_bound(pool as int, u64::MAX as int, share as int, u64::MAX as int);
        }
        let payout = (((pool as u128) * (share as u128)) / (BPS_DENOMINATOR as u128)) as u64;
        assert(payout as int == entitlement(gpool, share));
        let new_balance = self.vaults[i].balance - payout;
        self.claims[k].withdrawn = true;
        self.vaults[i] = EscrowVault { balance: new_balance };
        proof {
            let s1 = self@;
            let c0 = s0.claims[k as int];
            let c2 = s1.claims[k as int];
            assert(c2 == ClaimAccount { withdrawn: true, ..c0 });
            lemma_claims_unique_update(s0.claims, k as int, c2);
            assert forall|j: int| 0 <= j < s1.bounties.len() implies #[trigger] bounty_ok(
                s1,
                j,
            ) by {
                assert(bounty_ok(s0, j));
                let bj = s0.bounties[j];
                if bj.status == BountyStatus::Released {
                    let poolj = pool_of(bj.amount, s0.treasury.unwrap().fee_bps, bj.token_mint);
                    lemma_owed_update(s0.claims, k as int, c2, bj.repo_id, bj.issue_number, poolj);
                    if j != i as int {
                        // The withdrawn claim belongs to bounty `i`; its key
                        // cannot also match bounty `j`.
                        if c0.repo_id == bj.repo_id && c0.issue_number == bj.issue_number {
                            if (i as int) < j {
                                assert(bounty_has_key(
                                    s0.bounties[j],
                                    s0.bounties[i as int].repo_id,
                                    s0.bounties[i as int].issue_number,
                                ));
                            } else {
                                assert(bounty_has_key(
                                    s0.bounties[i as int],
                                    s0.bounties[j].repo_id,
                                    s0.bounties[j].issue_number,
                                ));
                            }
                            assert(false);
                        }
                        assert(owed_term(c0, bj.repo_id, bj.issue_number, poolj) == 0);
                        assert(owed_term(c2, bj.repo_id, bj.issue_number, poolj) == 0);
                    } else {
                        assert(owed_term(c2, bj.repo_id, bj.issue_number, poolj) == 0);
                    }
                }
            }
            assert forall|kk: int| 0 <= kk < s1.claims.len() implies #[trigger] claim_ok(
                s1,
                kk,
            ) by {
                assert(claim_ok(s0, kk));
                if kk == k as int {
                    assert forall|m: int|
                        0 <= m < s1.bounties.len() && #[trigger] bounty_has_key(
                            s1.bounties[m],
                            c2.repo_id,
                            c2.issue_number,
                        ) && s1.bounties[m].status != BountyStatus::Released implies c2.share_bps
                        == 0 && !c2.withdrawn by {
                        if m != i as int {
                            if (i as int) < m {
                                assert(bounty_has_key(
                                    s0.bounties[m],
                                    s0.bounties[i as int].repo_id,
                                    s0.bounties[i as int].issue_number,
                                ));
                            } else {
                                assert(bounty_has_key(
                                    s0.bounties[i as int],
                                    s0.bounties[m].repo_id,
                                    s0.bounties[m].issue_number,
                                ));
                            }
                        }
                        assert(false);
                    }
                }
            }
        }
        Ok(payout)
    }
}

} // verus!
