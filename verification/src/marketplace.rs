use vstd::prelude::*;

use crate::escrow::{fee_of, owed, pool_of, EscrowVault, TreasuryBalance};
use crate::state::{AgentAccount, BountyAccount, BountyStatus, ClaimAccount, TreasuryAccount};

verus! {

/// The specification-level image of the whole marketplace: the keyed record
/// store that every operation's transition function is stated over.
pub ghost struct MarketState {
    pub bounties: Seq<BountyAccount>,
    pub vaults: Seq<EscrowVault>,
    pub claims: Seq<ClaimAccount>,
    pub agents: Seq<AgentAccount>,
    pub treasury: Option<TreasuryAccount>,
    pub treasury_balances: Seq<TreasuryBalance>,
}

/// The marketplace: every bounty with its escrow vault, every claim, every
/// identity binding, and the treasury. Each public operation is one atomic
/// transition of this state; it either fully applies or returns an error and
/// changes nothing.
pub struct Marketplace {
    pub(crate) bounties: Vec<BountyAccount>,
    pub(crate) vaults: Vec<EscrowVault>,
    pub(crate) claims: Vec<ClaimAccount>,
    pub(crate) agents: Vec<AgentAccount>,
    pub(crate) treasury: Option<TreasuryAccount>,
    pub(crate) treasury_balances: Vec<TreasuryBalance>,
}

impl View for Marketplace {
    type V = MarketState;

    open(crate) spec fn view(&self) -> MarketState {
        MarketState {
            bounties: self.bounties@,
            vaults: self.vaults@,
            claims: self.claims@,
            agents: self.agents@,
            treasury: self.treasury,
            treasury_balances: self.treasury_balances@,
        }
    }
}

// ---------------------------------------------------------------------------
// Record keys and lookup.
//
// Keys are derived from immutable identifying fields: `(repo_id,
// issue_number)` for a bounty, `(repo_id, issue_number, handle)` for a claim,
// the handle for an identity binding, the mint for a treasury balance.

pub open spec fn bounty_has_key(b: BountyAccount, repo_id: u64, issue_number: u64) -> bool {
    b.repo_id == repo_id && b.issue_number == issue_number
}

pub open spec fn has_bounty(bounties: Seq<BountyAccount>, repo_id: u64, issue_number: u64) -> bool {
    exists|i: int|
        0 <= i < bounties.len() && #[trigger] bounty_has_key(bounties[i], repo_id, issue_number)
}

/// The index of the bounty keyed `(repo_id, issue_number)`; meaningful only
/// when `has_bounty` holds (key uniqueness then pins it down).
pub open spec fn bounty_index(bounties: Seq<BountyAccount>, repo_id: u64, issue_number: u64) -> int {
    choose|i: int|
        0 <= i < bounties.len() && #[trigger] bounty_has_key(bounties[i], repo_id, issue_number)
}

pub open spec fn claim_has_key(
    c: ClaimAccount,
    repo_id: u64,
    issue_number: u64,
    handle: Seq<char>,
) -> bool {
    c.repo_id == repo_id && c.issue_number == issue_number && c.github_handle@ == handle
}

pub open spec fn has_claim(
    claims: Seq<ClaimAccount>,
    repo_id: u64,
    issue_number: u64,
    handle: Seq<char>,
) -> bool {
    exists|k: int|
        0 <= k < claims.len() && #[trigger] claim_has_key(claims[k], repo_id, issue_number, handle)
}

pub open spec fn claim_index(
    claims: Seq<ClaimAccount>,
    repo_id: u64,
    issue_number: u64,
    handle: Seq<char>,
) -> int {
    choose|k: int|
        0 <= k < claims.len() && #[trigger] claim_has_key(claims[k], repo_id, issue_number, handle)
}

pub open spec fn agent_has_key(a: AgentAccount, handle: Seq<char>) -> bool {
    a.github_handle@ == handle
}

pub open spec fn has_agent(agents: Seq<AgentAccount>, handle: Seq<char>) -> bool {
    exists|i: int| 0 <= i < agents.len() && #[trigger] agent_has_key(agents[i], handle)
}

pub open spec fn agent_index(agents: Seq<AgentAccount>, handle: Seq<char>) -> int {
    choose|i: int| 0 <= i < agents.len() && #[trigger] agent_has_key(agents[i], handle)
}

pub open spec fn balance_has_key(b: TreasuryBalance, mint: u64) -> bool {
    b.mint == mint
}

pub open spec fn has_balance(balances: Seq<TreasuryBalance>, mint: u64) -> bool {
    exists|i: int| 0 <= i < balances.len() && #[trigger] balance_has_key(balances[i], mint)
}

pub open spec fn balance_index(balances: Seq<TreasuryBalance>, mint: u64) -> int {
    choose|i: int| 0 <= i < balances.len() && #[trigger] balance_has_key(balances[i], mint)
}

/// The treasury's collected total in one denomination; zero when it has
/// never collected a fee in it.
pub open spec fn balance_of(balances: Seq<TreasuryBalance>, mint: u64) -> int {
    if has_balance(balances, mint) {
        balances[balance_index(balances, mint)].amount as int
    } else {
        0
    }
}

// ---------------------------------------------------------------------------
// Well-formedness: what always holds of the record store.

pub open spec fn bounties_unique(bounties: Seq<BountyAccount>) -> bool {
    forall|i: int, j: int|
        0 <= i < j < bounties.len()
            ==> !(#[trigger] bounty_has_key(
            bounties[j],
            bounties[i].repo_id,
            bounties[i].issue_number,
        ))
}

pub open spec fn claims_unique(claims: Seq<ClaimAccount>) -> bool {
    forall|i: int, j: int|
        0 <= i < j < claims.len()
            ==> !(#[trigger] claim_has_key(
            claims[j],
            claims[i].repo_id,
            claims[i].issue_number,
            claims[i].github_handle@,
        ))
}

pub open spec fn agents_unique(agents: Seq<AgentAccount>) -> bool {
    forall|i: int, j: int|
        0 <= i < j < agents.len()
            ==> !(#[trigger] agent_has_key(agents[j], agents[i].github_handle@))
}

pub open spec fn balances_unique(balances: Seq<TreasuryBalance>) -> bool {
    forall|i: int, j: int|
        0 <= i < j < balances.len() ==> !(#[trigger] balance_has_key(balances[j], balances[i].mint))
}

/// The per-bounty invariant. A bounty owns the vault at its own index.
/// Before release the vault holds exactly the cumulative deposits; after
/// release it holds at least the sum of the unwithdrawn entitlements, so
/// no sanctioned withdrawal can ever fail for lack of escrowed funds.
pub open spec fn bounty_ok(s: MarketState, i: int) -> bool {
    let b = s.bounties[i];
    let v = s.vaults[i].balance;
    match b.status {
        BountyStatus::Open => b.amount == 0 && v == 0,
        BountyStatus::Funded => b.amount > 0 && v == b.amount,
        BountyStatus::Closed => b.amount == 0 && v == 0,
        BountyStatus::Released => {
            let fee_bps = s.treasury.unwrap().fee_bps;
            &&& s.treasury is Some
            &&& b.amount > 0
            &&& fee_of(b.amount, fee_bps, b.token_mint) <= b.amount
            &&& owed(s.claims, b.repo_id, b.issue_number, pool_of(b.amount, fee_bps, b.token_mint))
                <= v
        },
    }
}

/// The per-claim invariant: a claim's bounty exists, and until that bounty
/// is released the claim carries no share and has not been withdrawn.
pub open spec fn claim_ok(s: MarketState, k: int) -> bool {
    let c = s.claims[k];
    &&& has_bounty(s.bounties, c.repo_id, c.issue_number)
    &&& forall|i: int|
        0 <= i < s.bounties.len() && #[trigger] bounty_has_key(
            s.bounties[i],
            c.repo_id,
            c.issue_number,
        ) && s.bounties[i].status != BountyStatus::Released ==> c.share_bps == 0 && !c.withdrawn
}

/// Well-formedness of the whole store: every key unique, every bounty paired
/// with its own vault, and the per-record invariants above.
pub open spec fn wf(s: MarketState) -> bool {
    &&& s.vaults.len() == s.bounties.len()
    &&& bounties_unique(s.bounties)
    &&& claims_unique(s.claims)
    &&& agents_unique(s.agents)
    &&& balances_unique(s.treasury_balances)
    &&& forall|i: int| 0 <= i < s.bounties.len() ==> #[trigger] bounty_ok(s, i)
    &&& forall|k: int| 0 <= k < s.claims.len() ==> #[trigger] claim_ok(s, k)
}

/// A transition that touches neither the bounties, the vaults, the claims
/// nor the treasury record preserves well-formedness as soon as the keys of
/// what it did touch stay unique.
pub proof fn lemma_wf_same_funds(s0: MarketState, s1: MarketState)
    requires
        wf(s0),
        s1.bounties == s0.bounties,
        s1.vaults == s0.vaults,
        s1.claims == s0.claims,
        s1.treasury == s0.treasury,
        agents_unique(s1.agents),
        balances_unique(s1.treasury_balances),
    ensures
        wf(s1),
{
    assert forall|i: int| 0 <= i < s1.bounties.len() implies #[trigger] bounty_ok(s1, i) by {
        assert(bounty_ok(s0, i));
    }
    assert forall|k: int| 0 <= k < s1.claims.len() implies #[trigger] claim_ok(s1, k) by {
        assert(claim_ok(s0, k));
    }
}

/// Replacing a bounty record by one with the same key keeps keys unique.
pub proof fn lemma_bounties_unique_update(
    bounties: Seq<BountyAccount>,
    i: int,
    b2: BountyAccount,
)
    requires
        bounties_unique(bounties),
        0 <= i < bounties.len(),
        b2.repo_id == bounties[i].repo_id,
        b2.issue_number == bounties[i].issue_number,
    ensures
        bounties_unique(bounties.update(i, b2)),
{
    let u = bounties.update(i, b2);
    assert forall|p: int, q: int| 0 <= p < q < u.len() implies !(#[trigger] bounty_has_key(
        u[q],
        u[p].repo_id,
        u[p].issue_number,
    )) by {
        assert(!bounty_has_key(bounties[q], bounties[p].repo_id, bounties[p].issue_number));
    }
}

/// A transition that replaces one non-released bounty and its vault — keeping
/// the key — and touches nothing else preserves well-formedness as soon as
/// the replaced pair satisfies its own per-bounty invariant.
pub proof fn lemma_wf_bounty_update(s0: MarketState, s1: MarketState, i: int)
    requires
        wf(s0),
        0 <= i < s0.bounties.len(),
        s1.bounties == s0.bounties.update(i, s1.bounties[i]),
        s1.vaults == s0.vaults.update(i, s1.vaults[i]),
        s1.claims == s0.claims,
        s1.agents == s0.agents,
        s1.treasury == s0.treasury,
        s1.treasury_balances == s0.treasury_balances,
        s1.bounties[i].repo_id == s0.bounties[i].repo_id,
        s1.bounties[i].issue_number == s0.bounties[i].issue_number,
        s0.bounties[i].status != BountyStatus::Released,
        bounty_ok(s1, i),
    ensures
        wf(s1),
{
    lemma_bounties_unique_update(s0.bounties, i, s1.bounties[i]);
    assert forall|j: int| 0 <= j < s1.bounties.len() implies #[trigger] bounty_ok(s1, j) by {
        if j != i {
            assert(bounty_ok(s0, j));
        }
    }
    assert forall|k: int| 0 <= k < s1.claims.len() implies #[trigger] claim_ok(s1, k) by {
        assert(claim_ok(s0, k));
        let c = s1.claims[k];
        let w = choose|m: int|
            0 <= m < s0.bounties.len() && #[trigger] bounty_has_key(
                s0.bounties[m],
                c.repo_id,
                c.issue_number,
            );
        assert(bounty_has_key(s1.bounties[w], c.repo_id, c.issue_number));
        assert forall|m: int|
            0 <= m < s1.bounties.len() && #[trigger] bounty_has_key(
                s1.bounties[m],
                c.repo_id,
                c.issue_number,
            ) && s1.bounties[m].status != BountyStatus::Released implies c.share_bps == 0
            && !c.withdrawn by {
            if m == i {
                assert(bounty_has_key(s0.bounties[m], c.repo_id, c.issue_number));
                assert(s0.bounties[m].status != BountyStatus::Released);
            } else {
                assert(bounty_has_key(s0.bounties[m], c.repo_id, c.issue_number));
            }
        }
    }
}

// ---------------------------------------------------------------------------
// Construction and lookup.

impl Marketplace {
    /// An empty marketplace: no records, treasury not yet initialized.
    pub fn new() -> (r: Marketplace)
        ensures
            wf(r@),
            r@.bounties.len() == 0,
            r@.vaults.len() == 0,
            r@.claims.len() == 0,
            r@.agents.len() == 0,
            r@.treasury is None,
            r@.treasury_balances.len() == 0,
    {
        Marketplace {
            bounties: Vec::new(),
            vaults: Vec::new(),
            claims: Vec::new(),
            agents: Vec::new(),
            treasury: None,
            treasury_balances: Vec::new(),
        }
    }
}

impl Marketplace {
    /// The lifecycle state of a bounty; a pure read.
    pub fn bounty_status(&self, repo_id: u64, issue_number: u64) -> (r: Option<BountyStatus>)
        requires
            wf(self@),
        ensures
            r == if has_bounty(self@.bounties, repo_id, issue_number) {
                Some(self@.bounties[bounty_index(self@.bounties, repo_id, issue_number)].status)
            } else {
                None::<BountyStatus>
            },
    {
        match find_bounty(&self.bounties, repo_id, issue_number) {
            Some(i) => Some(self.bounties[i].status),
            None => None,
        }
    }

    /// The cumulative deposited amount of a bounty; a pure read.
    pub fn bounty_amount(&self, repo_id: u64, issue_number: u64) -> (r: Option<u64>)
        requires
            wf(self@),
        ensures
            r == if has_bounty(self@.bounties, repo_id, issue_number) {
                Some(self@.bounties[bounty_index(self@.bounties, repo_id, issue_number)].amount)
            } else {
                None::<u64>
            },
    {
        match find_bounty(&self.bounties, repo_id, issue_number) {
            Some(i) => Some(self.bounties[i].amount),
            None => None,
        }
    }

    /// What a bounty's escrow vault currently holds; a pure read.
    pub fn vault_balance(&self, repo_id: u64, issue_number: u64) -> (r: Option<u64>)
        requires
            wf(self@),
        ensures
            r == if has_bounty(self@.bounties, repo_id, issue_number) {
                Some(
                    self@.vaults[bounty_index(self@.bounties, repo_id, issue_number)].balance,
                )
            } else {
                None::<u64>
            },
    {
        match find_bounty(&self.bounties, repo_id, issue_number) {
            Some(i) => Some(self.vaults[i].balance),
            None => None,
        }
    }

    /// The treasury's collected fees in one denomination; zero when it has
    /// never collected any. A pure read.
    pub fn treasury_balance(&self, mint: u64) -> (r: u64)
        requires
            wf(self@),
        ensures
            r as int == balance_of(self@.treasury_balances, mint),
    {
        match find_balance(&self.treasury_balances, mint) {
            Some(i) => self.treasury_balances[i].amount,
            None => 0,
        }
    }

    /// A claim's assigned share, commit count and withdrawn flag; a pure read.
    pub fn claim_info(&self, repo_id: u64, issue_number: u64, github_handle: &String) -> (r:
        Option<(u32, u32, bool)>)
        requires
            wf(self@),
        ensures
            r == if has_claim(self@.claims, repo_id, issue_number, github_handle@) {
                let c = self@.claims[claim_index(
                    self@.claims,
                    repo_id,
                    issue_number,
                    github_handle@,
                )];
                Some((c.share_bps, c.commits, c.withdrawn))
            } else {
                None::<(u32, u32, bool)>
            },
    {
        match find_claim(&self.claims, repo_id, issue_number, github_handle) {
            Some(i) => Some(
                (self.claims[i].share_bps, self.claims[i].commits, self.claims[i].withdrawn),
            ),
            None => None,
        }
    }
}

pub(crate) fn find_bounty(bounties: &Vec<BountyAccount>, repo_id: u64, issue_number: u64) -> (r:
    Option<usize>)
    requires
        bounties_unique(bounties@),
    ensures
        r is Some <==> has_bounty(bounties@, repo_id, issue_number),
        r is Some ==> {
            &&& 0 <= r.unwrap() < bounties@.len()
            &&& bounty_has_key(bounties@[r.unwrap() as int], repo_id, issue_number)
            &&& r.unwrap() as int == bounty_index(bounties@, repo_id, issue_number)
        },
{
    let mut i: usize = 0;
    while i < bounties.len()
        invariant
            i <= bounties@.len(),
            bounties_unique(bounties@),
            forall|j: int|
                0 <= j < i ==> !(#[trigger] bounty_has_key(bounties@[j], repo_id, issue_number)),
        decreases bounties@.len() - i,
    {
        if bounties[i].repo_id == repo_id && bounties[i].issue_number == issue_number {
            proof {
                assert(bounty_has_key(bounties@[i as int], repo_id, issue_number));
                let c = bounty_index(bounties@, repo_id, issue_number);
                assert(0 <= c < bounties@.len() && bounty_has_key(
                    bounties@[c],
                    repo_id,
                    issue_number,
                ));
                if c != i as int {
                    if c < i as int {
                        assert(bounty_has_key(
                            bounties@[i as int],
                            bounties@[c].repo_id,
                            bounties@[c].issue_number,
                        ));
                    } else {
                        assert(bounty_has_key(
                            bounties@[c],
                            bounties@[i as int].repo_id,
                            bounties@[i as int].issue_number,
                        ));
                    }
                }
            }
            return Some(i);
        }
        i = i + 1;
    }
    None
}

pub(crate) fn find_claim(
    claims: &Vec<ClaimAccount>,
    repo_id: u64,
    issue_number: u64,
    handle: &String,
) -> (r: Option<usize>)
    requires
        claims_unique(claims@),
    ensures
        r is Some <==> has_claim(claims@, repo_id, issue_number, handle@),
        r is Some ==> {
            &&& 0 <= r.unwrap() < claims@.len()
            &&& claim_has_key(claims@[r.unwrap() as int], repo_id, issue_number, handle@)
            &&& r.unwrap() as int == claim_index(claims@, repo_id, issue_number, handle@)
        },
{
    let mut i: usize = 0;
    while i < claims.len()
        invariant
            i <= claims@.len(),
            claims_unique(claims@),
            forall|j: int|
                0 <= j < i ==> !(#[trigger] claim_has_key(
                    claims@[j],
                    repo_id,
                    issue_number,
                    handle@,
                )),
        decreases claims@.len() - i,
    {
        if claims[i].repo_id == repo_id && claims[i].issue_number == issue_number
            && claims[i].github_handle == *handle {
            proof {
                assert(claim_has_key(claims@[i as int], repo_id, issue_number, handle@));
                let c = claim_index(claims@, repo_id, issue_number, handle@);
                assert(0 <= c < claims@.len() && claim_has_key(
                    claims@[c],
                    repo_id,
                    issue_number,
                    handle@,
                ));
                if c != i as int {
                    if c < i as int {
                        assert(claim_has_key(
                            claims@[i as int],
                            claims@[c].repo_id,
                            claims@[c].issue_number,
                            claims@[c].github_handle@,
                        ));
                    } else {
                        assert(claim_has_key(
                            claims@[c],
                            claims@[i as int].repo_id,
                            claims@[i as int].issue_number,
                            claims@[i as int].github_handle@,
                        ));
                    }
                }
            }
            return Some(i);
        }
        i = i + 1;
    }
    None
}

pub(crate) fn find_agent(agents: &Vec<AgentAccount>, handle: &String) -> (r: Option<usize>)
    requires
        agents_unique(agents@),
    ensures
        r is Some <==> has_agent(agents@, handle@),
        r is Some ==> {
            &&& 0 <= r.unwrap() < agents@.len()
            &&& agent_has_key(agents@[r.unwrap() as int], handle@)
            &&& r.unwrap() as int == agent_index(agents@, handle@)
        },
{
    let mut i: usize = 0;
    while i < agents.len()
        invariant
            i <= agents@.len(),
            agents_unique(agents@),
            forall|j: int| 0 <= j < i ==> !(#[trigger] agent_has_key(agents@[j], handle@)),
        decreases agents@.len() - i,
    {
        if agents[i].github_handle == *handle {
            proof {
                assert(agent_has_key(agents@[i as int], handle@));
                let c = agent_index(agents@, handle@);
                assert(0 <= c < agents@.len() && agent_has_key(agents@[c], handle@));
                if c != i as int {
                    if c < i as int {
                        assert(agent_has_key(agents@[i as int], agents@[c].github_handle@));
                    } else {
                        assert(agent_has_key(agents@[c], agents@[i as int].github_handle@));
                    }
                }
            }
            return Some(i);
        }
        i = i + 1;
    }
    None
}

pub(crate) fn find_balance(balances: &Vec<TreasuryBalance>, mint: u64) -> (r: Option<usize>)
    requires
        balances_unique(balances@),
    ensures
        r is Some <==> has_balance(balances@, mint),
        r is Some ==> {
            &&& 0 <= r.unwrap() < balances@.len()
            &&& balance_has_key(balances@[r.unwrap() as int], mint)
            &&& r.unwrap() as int == balance_index(balances@, mint)
        },
{
    let mut i: usize = 0;
    while i < balances.len()
        invariant
            i <= balances@.len(),
            balances_unique(balances@),
            forall|j: int| 0 <= j < i ==> !(#[trigger] balance_has_key(balances@[j], mint)),
        decreases balances@.len() - i,
    {
        if balances[i].mint == mint {
            proof {
                assert(balance_has_key(balances@[i as int], mint));
                let c = balance_index(balances@, mint);
                assert(0 <= c < balances@.len() && balance_has_key(balances@[c], mint));
                if c != i as int {
                    if c < i as int {
                        assert(balance_has_key(balances@[i as int], balances@[c].mint));
                    } else {
                        assert(balance_has_key(balances@[c], balances@[i as int].mint));
                    }
                }
            }
            return Some(i);
        }
        i = i + 1;
    }
    None
}

} // verus!
