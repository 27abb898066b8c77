use bountyflow::error::BountyError;
use bountyflow::marketplace::Marketplace;
use bountyflow::state::{BountyStatus, ContributorInfo};

const AUTHORITY: u64 = 42;
const CREATOR: u64 = 100;
const STRANGER: u64 = 666;
const WALLET_A: u64 = 201;
const WALLET_B: u64 = 202;
const TOKEN: u64 = 5;
const SIG: [u8; 64] = [7u8; 64];

fn funded_with_claim(fee_bps: u64, amount: u64) -> Marketplace {
    let mut m = Marketplace::new();
    assert_eq!(m.initialize_treasury(AUTHORITY, fee_bps), Ok(()));
    assert_eq!(m.create_bounty(7, 42, CREATOR, amount, TOKEN, 1000), Ok(()));
    assert_eq!(m.deposit(7, 42, CREATOR, amount), Ok(()));
    assert_eq!(m.register_agent(String::from("alice"), WALLET_A, SIG, true, 10), Ok(()));
    assert_eq!(m.claim_bounty(7, 42, WALLET_A, String::from("alice")), Ok(()));
    m
}

#[test]
fn create_rejects_zero_amount_and_duplicates() {
    let mut m = Marketplace::new();
    assert_eq!(m.create_bounty(1, 1, CREATOR, 0, TOKEN, 0), Err(BountyError::InvalidAmount));
    assert_eq!(m.create_bounty(1, 1, CREATOR, 10, TOKEN, 0), Ok(()));
    assert_eq!(
        m.create_bounty(1, 1, STRANGER, 99, TOKEN, 5),
        Err(BountyError::DuplicateBounty)
    );
    // A different issue of the same repository is a different bounty.
    assert_eq!(m.create_bounty(1, 2, CREATOR, 10, TOKEN, 0), Ok(()));
}

#[test]
fn deposit_rejections() {
    let mut m = Marketplace::new();
    assert_eq!(m.deposit(9, 9, CREATOR, 5), Err(BountyError::NotFound));
    assert_eq!(m.create_bounty(9, 9, CREATOR, 10, TOKEN, 0), Ok(()));
    assert_eq!(m.deposit(9, 9, CREATOR, 0), Err(BountyError::InvalidAmount));
    assert_eq!(m.deposit(9, 9, STRANGER, 5), Err(BountyError::NotCreator));
    assert_eq!(m.bounty_amount(9, 9), Some(0));
    assert_eq!(m.bounty_status(9, 9), Some(BountyStatus::Open));
}

#[test]
fn deposit_overflow_fails_closed() {
    let mut m = Marketplace::new();
    assert_eq!(m.create_bounty(9, 9, CREATOR, 10, TOKEN, 0), Ok(()));
    assert_eq!(m.deposit(9, 9, CREATOR, u64::MAX), Ok(()));
    assert_eq!(m.deposit(9, 9, CREATOR, 1), Err(BountyError::ArithmeticOverflow));
    assert_eq!(m.bounty_amount(9, 9), Some(u64::MAX));
}

#[test]
fn cancel_rejections() {
    let mut m = funded_with_claim(250, 1000);
    assert_eq!(m.cancel_bounty(8, 8, CREATOR), Err(BountyError::NotFound));
    assert_eq!(m.cancel_bounty(7, 42, STRANGER), Err(BountyError::NotCreator));
    let contributors = vec![ContributorInfo { github_handle: String::from("alice"), commits: 1 }];
    assert_eq!(m.release_on_merge(7, 42, AUTHORITY, &contributors), Ok(25));
    // A released bounty can no longer be cancelled or funded.
    assert_eq!(m.cancel_bounty(7, 42, CREATOR), Err(BountyError::WrongState));
    assert_eq!(m.deposit(7, 42, CREATOR, 5), Err(BountyError::WrongState));
}

#[test]
fn refund_timeout_rejections() {
    let mut m = Marketplace::new();
    assert_eq!(m.create_bounty(7, 42, CREATOR, 10, TOKEN, 0), Ok(()));
    // Never funded: there is nothing to reclaim.
    assert_eq!(m.refund_timeout(7, 42, CREATOR, i64::MAX), Err(BountyError::WrongState));
    assert_eq!(m.deposit(7, 42, CREATOR, 10), Ok(()));
    assert_eq!(m.refund_timeout(7, 42, STRANGER, i64::MAX), Err(BountyError::NotCreator));
}

#[test]
fn claim_requires_binding_and_matching_wallet() {
    let mut m = Marketplace::new();
    assert_eq!(m.initialize_treasury(AUTHORITY, 250), Ok(()));
    assert_eq!(m.create_bounty(7, 42, CREATOR, 1000, TOKEN, 0), Ok(()));
    // Not funded yet: no claims.
    assert_eq!(
        m.claim_bounty(7, 42, WALLET_A, String::from("alice")),
        Err(BountyError::WrongState)
    );
    assert_eq!(m.deposit(7, 42, CREATOR, 1000), Ok(()));
    // Unbound handle.
    assert_eq!(
        m.claim_bounty(7, 42, WALLET_A, String::from("alice")),
        Err(BountyError::NotFound)
    );
    assert_eq!(m.register_agent(String::from("alice"), WALLET_A, SIG, true, 10), Ok(()));
    // The claimant must be the bound wallet.
    assert_eq!(
        m.claim_bounty(7, 42, WALLET_B, String::from("alice")),
        Err(BountyError::NotAuthorized)
    );
    assert_eq!(m.claim_bounty(7, 42, WALLET_A, String::from("alice")), Ok(()));
}

#[test]
fn register_rejects_unverified_proof() {
    let mut m = Marketplace::new();
    assert_eq!(
        m.register_agent(String::from("alice"), WALLET_A, SIG, false, 10),
        Err(BountyError::InvalidSignature)
    );
    assert_eq!(m.lookup_agent(&String::from("alice")), Err(BountyError::NotFound));
}

#[test]
fn release_rejections() {
    let mut m = funded_with_claim(250, 1000);
    let contributors = vec![ContributorInfo { github_handle: String::from("alice"), commits: 1 }];
    assert_eq!(
        m.release_on_merge(8, 8, AUTHORITY, &contributors),
        Err(BountyError::NotFound)
    );
    assert_eq!(
        m.release_on_merge(7, 42, STRANGER, &contributors),
        Err(BountyError::NotAuthorized)
    );
    // A contributor without a claim aborts the whole release.
    let unknown = vec![ContributorInfo { github_handle: String::from("mallory"), commits: 1 }];
    assert_eq!(
        m.release_on_merge(7, 42, AUTHORITY, &unknown),
        Err(BountyError::NotFound)
    );
    // The same handle twice is refused before anything moves.
    let doubled = vec![
        ContributorInfo { github_handle: String::from("alice"), commits: 1 },
        ContributorInfo { github_handle: String::from("alice"), commits: 2 },
    ];
    assert_eq!(
        m.release_on_merge(7, 42, AUTHORITY, &doubled),
        Err(BountyError::DuplicateBinding)
    );
    // A contributor list without a single commit divides nothing.
    let idle = vec![ContributorInfo { github_handle: String::from("alice"), commits: 0 }];
    assert_eq!(
        m.release_on_merge(7, 42, AUTHORITY, &idle),
        Err(BountyError::InvalidAmount)
    );
    // Nothing above moved any funds or state.
    assert_eq!(m.bounty_status(7, 42), Some(BountyStatus::Funded));
    assert_eq!(m.vault_balance(7, 42), Some(1000));
    assert_eq!(m.treasury_balance(TOKEN), 0);
    assert_eq!(m.release_on_merge(7, 42, AUTHORITY, &contributors), Ok(25));
    // Terminal: a second release is out of state.
    assert_eq!(
        m.release_on_merge(7, 42, AUTHORITY, &contributors),
        Err(BountyError::WrongState)
    );
}

#[test]
fn release_fails_closed_on_fee_overflow() {
    // A fee rate over 100% would charge more than the escrow holds: the
    // computation fails closed and nothing moves.
    let mut m = funded_with_claim(20000, 1000);
    let contributors = vec![ContributorInfo { github_handle: String::from("alice"), commits: 1 }];
    assert_eq!(
        m.release_on_merge(7, 42, AUTHORITY, &contributors),
        Err(BountyError::ArithmeticOverflow)
    );
    assert_eq!(m.bounty_status(7, 42), Some(BountyStatus::Funded));
    assert_eq!(m.vault_balance(7, 42), Some(1000));
}

#[test]
fn withdraw_rejections() {
    let mut m = funded_with_claim(250, 1000);
    assert_eq!(m.register_agent(String::from("bob"), WALLET_B, SIG, true, 11), Ok(()));
    assert_eq!(m.claim_bounty(7, 42, WALLET_B, String::from("bob")), Ok(()));
    assert_eq!(
        m.withdraw(7, 42, &String::from("mallory"), STRANGER),
        Err(BountyError::NotFound)
    );
    assert_eq!(
        m.withdraw(7, 42, &String::from("alice"), STRANGER),
        Err(BountyError::NotClaimant)
    );
    // Not released yet.
    assert_eq!(
        m.withdraw(7, 42, &String::from("alice"), WALLET_A),
        Err(BountyError::BountyNotReleased)
    );
    // Only alice contributed: bob's claim keeps a zero share.
    let contributors = vec![ContributorInfo { github_handle: String::from("alice"), commits: 1 }];
    assert_eq!(m.release_on_merge(7, 42, AUTHORITY, &contributors), Ok(25));
    assert_eq!(
        m.withdraw(7, 42, &String::from("bob"), WALLET_B),
        Err(BountyError::NoShareAssigned)
    );
    assert_eq!(m.withdraw(7, 42, &String::from("alice"), WALLET_A), Ok(975));
}

#[test]
fn treasury_is_initialized_once() {
    let mut m = Marketplace::new();
    assert_eq!(m.treasury_fee_bps(), None);
    assert_eq!(m.initialize_treasury(AUTHORITY, 250), Ok(()));
    assert_eq!(m.treasury_fee_bps(), Some(250));
    assert_eq!(m.initialize_treasury(STRANGER, 9999), Err(BountyError::WrongState));
    assert_eq!(m.treasury_fee_bps(), Some(250));
}

#[test]
fn release_needs_a_treasury() {
    let mut m = Marketplace::new();
    assert_eq!(m.create_bounty(7, 42, CREATOR, 1000, TOKEN, 0), Ok(()));
    assert_eq!(m.deposit(7, 42, CREATOR, 1000), Ok(()));
    let contributors = vec![ContributorInfo { github_handle: String::from("alice"), commits: 1 }];
    assert_eq!(
        m.release_on_merge(7, 42, AUTHORITY, &contributors),
        Err(BountyError::NotFound)
    );
}

#[test]
fn fees_accumulate_per_denomination() {
    let mut m = Marketplace::new();
    assert_eq!(m.initialize_treasury(AUTHORITY, 1000), Ok(()));
    assert_eq!(m.register_agent(String::from("alice"), WALLET_A, SIG, true, 10), Ok(()));
    for issue in [1u64, 2u64] {
        assert_eq!(m.create_bounty(3, issue, CREATOR, 100, TOKEN, 0), Ok(()));
        assert_eq!(m.deposit(3, issue, CREATOR, 100), Ok(()));
        assert_eq!(m.claim_bounty(3, issue, WALLET_A, String::from("alice")), Ok(()));
        let contributors =
            vec![ContributorInfo { github_handle: String::from("alice"), commits: 4 }];
        assert_eq!(m.release_on_merge(3, issue, AUTHORITY, &contributors), Ok(10));
    }
    // Two 10% fees on two 100-unit bounties of the same denomination.
    assert_eq!(m.treasury_balance(TOKEN), 20);
    assert_eq!(m.treasury_balance(999), 0);
}
