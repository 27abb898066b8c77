use vstd::prelude::*;

use crate::error::BountyError;
use crate::marketplace::{
    agent_has_key, agent_index, find_agent, has_agent, lemma_wf_same_funds, wf, Marketplace,
    MarketState,
};
use crate::state::AgentAccount;

verus! {

/// The transition of `register_agent`: binds an external handle to the
/// wallet that signed the registration, once, keeping the ownership proof
/// as attached evidence. `signature_valid` is the verdict of the external
/// signature-verification collaborator on that proof.
pub open spec fn register_agent_t(
    s: MarketState,
    github_handle: String,
    wallet: u64,
    signature: [u8; 64],
    signature_valid: bool,
    now: i64,
) -> (MarketState, Result<(), BountyError>) {
    if has_agent(s.agents, github_handle@) {
        (s, Err(BountyError::DuplicateBinding))
    } else if !signature_valid {
        (s, Err(BountyError::InvalidSignature))
    } else {
        let s1 = MarketState {
            agents: s.agents.push(
                AgentAccount { github_handle, wallet, signature, registered_at: now },
            ),
            ..s
        };
        (s1, Ok(()))
    }
}

/// The result of `lookup_agent`: the wallet bound to a handle.
pub open spec fn lookup_agent_s(s: MarketState, handle: Seq<char>) -> Result<u64, BountyError> {
    if has_agent(s.agents, handle) {
        Ok(s.agents[agent_index(s.agents, handle)].wallet)
    } else {
        Err(BountyError::NotFound)
    }
}

impl Marketplace {
    /// Binds `github_handle` to `wallet`, storing `signature` — the
    /// ownership proof — as attached evidence. Verifying that proof against
    /// the wallet is the external collaborator's responsibility; its verdict
    /// arrives here as `signature_valid`, and an unverified binding is
    /// refused rather than silently accepted. A handle binds to one wallet
    /// for the binding's lifetime: rebinding fails with `DuplicateBinding`.
    pub fn register_agent(
        &mut self,
        github_handle: String,
        wallet: u64,
        signature: [u8; 64],
        signature_valid: bool,
        now: i64,
    ) -> (r: Result<(), BountyError>)
        requires
            wf(old(self)@),
        ensures
            wf(final(self)@),
            (final(self)@, r) == register_agent_t(
                old(self)@,
                github_handle,
                wallet,
                signature,
                signature_valid,
                now,
            ),
    {
        if find_agent(&self.agents, &github_handle).is_some() {
            return Err(BountyError::DuplicateBinding);
        }
        if !signature_valid {
            return Err(BountyError::InvalidSignature);
        }
        let ghost s0 = self@;
        let ghost h = github_handle@;
        self.agents.push(AgentAccount { github_handle, wallet, signature, registered_at: now });
        proof {
            let s1 = self@;
            assert forall|i: int, j: int| 0 <= i < j < s1.agents.len() implies !(
            #[trigger] agent_has_key(s1.agents[j], s1.agents[i].github_handle@)) by {
                if j < s0.agents.len() {
                    assert(!agent_has_key(s0.agents[j], s0.agents[i].github_handle@));
                } else {
                    assert(!agent_has_key(s0.agents[i], h));
                    assert(s1.agents[j].github_handle@ == h);
                }
            }
            lemma_wf_same_funds(s0, s1);
        }
        Ok(())
    }

    /// The wallet bound to `github_handle`; a pure read.
    pub fn lookup_agent(&self, github_handle: &String) -> (r: Result<u64, BountyError>)
        requires
            wf(self@),
        ensures
            r == lookup_agent_s(self@, github_handle@),
    {
        match find_agent(&self.agents, github_handle) {
            Some(i) => Ok(self.agents[i].wallet),
            None => Err(BountyError::NotFound),
        }
    }
}

} // verus!
