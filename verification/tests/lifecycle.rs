use bountyflow::error::BountyError;
use bountyflow::marketplace::Marketplace;
use bountyflow::state::{BountyStatus, ContributorInfo};
use bountyflow::{NATIVE_MINT, REFUND_TIMEOUT_SECONDS};

const AUTHORITY: u64 = 42;
const CREATOR: u64 = 100;
const WALLET_A: u64 = 201;
const WALLET_B: u64 = 202;
const TOKEN: u64 = 5;
const SIG: [u8; 64] = [7u8; 64];

fn setup_funded(fee_bps: u64, mint: u64, amount: u64) -> Marketplace {
    let mut m = Marketplace::new();
    assert_eq!(m.initialize_treasury(AUTHORITY, fee_bps), Ok(()));
    assert_eq!(m.create_bounty(7, 42, CREATOR, amount, mint, 1000), Ok(()));
    assert_eq!(m.deposit(7, 42, CREATOR, amount), Ok(()));
    m
}

#[test]
fn fund_accumulates_and_sets_funded() {
    let mut m = Marketplace::new();
    assert_eq!(m.create_bounty(1, 1, CREATOR, 10, TOKEN, 0), Ok(()));
    assert_eq!(m.bounty_status(1, 1), Some(BountyStatus::Open));
    assert_eq!(m.bounty_amount(1, 1), Some(0));
    assert_eq!(m.deposit(1, 1, CREATOR, 10), Ok(()));
    assert_eq!(m.bounty_status(1, 1), Some(BountyStatus::Funded));
    assert_eq!(m.bounty_amount(1, 1), Some(10));
    assert_eq!(m.deposit(1, 1, CREATOR, 25), Ok(()));
    assert_eq!(m.deposit(1, 1, CREATOR, 7), Ok(()));
    assert_eq!(m.bounty_amount(1, 1), Some(42));
    assert_eq!(m.vault_balance(1, 1), Some(42));
    assert_eq!(m.bounty_status(1, 1), Some(BountyStatus::Funded));
}

#[test]
fn claim_is_unique_per_handle() {
    let mut m = setup_funded(250, TOKEN, 1000);
    assert_eq!(
        m.register_agent(String::from("alice"), WALLET_A, SIG, true, 10),
        Ok(())
    );
    assert_eq!(m.claim_bounty(7, 42, WALLET_A, String::from("alice")), Ok(()));
    assert_eq!(
        m.claim_bounty(7, 42, WALLET_A, String::from("alice")),
        Err(BountyError::DuplicateBinding)
    );
    // The first claim is untouched by the failed retry.
    assert_eq!(m.claim_info(7, 42, &String::from("alice")), Some((0, 0, false)));
}

#[test]
fn release_and_withdraw_split_with_fee() {
    // A 1000-unit bounty at a 2.5% fee: the treasury takes 25, claimants
    // with 3 and 1 commits get 7500 and 2500 basis points of the 975 pool,
    // paid 731 and 243; the 1-unit rounding remainder stays in the vault.
    let mut m = setup_funded(250, TOKEN, 1000);
    assert_eq!(m.register_agent(String::from("alice"), WALLET_A, SIG, true, 10), Ok(()));
    assert_eq!(m.register_agent(String::from("bob"), WALLET_B, SIG, true, 11), Ok(()));
    assert_eq!(m.claim_bounty(7, 42, WALLET_A, String::from("alice")), Ok(()));
    assert_eq!(m.claim_bounty(7, 42, WALLET_B, String::from("bob")), Ok(()));
    let contributors = vec![
        ContributorInfo { github_handle: String::from("alice"), commits: 3 },
        ContributorInfo { github_handle: String::from("bob"), commits: 1 },
    ];
    assert_eq!(m.release_on_merge(7, 42, AUTHORITY, &contributors), Ok(25));
    assert_eq!(m.treasury_balance(TOKEN), 25);
    assert_eq!(m.bounty_status(7, 42), Some(BountyStatus::Released));
    assert_eq!(m.vault_balance(7, 42), Some(975));
    assert_eq!(m.claim_info(7, 42, &String::from("alice")), Some((7500, 3, false)));
    assert_eq!(m.claim_info(7, 42, &String::from("bob")), Some((2500, 1, false)));
    assert_eq!(m.withdraw(7, 42, &String::from("alice"), WALLET_A), Ok(731));
    assert_eq!(m.withdraw(7, 42, &String::from("bob"), WALLET_B), Ok(243));
    // 731 + 243 = 974: one unit of rounding loss stays escrowed, unclaimed.
    assert_eq!(m.vault_balance(7, 42), Some(1));
    assert_eq!(m.claim_info(7, 42, &String::from("alice")), Some((7500, 3, true)));
}

#[test]
fn withdraw_is_exactly_once() {
    let mut m = setup_funded(250, TOKEN, 1000);
    assert_eq!(m.register_agent(String::from("alice"), WALLET_A, SIG, true, 10), Ok(()));
    assert_eq!(m.claim_bounty(7, 42, WALLET_A, String::from("alice")), Ok(()));
    let contributors = vec![ContributorInfo { github_handle: String::from("alice"), commits: 2 }];
    assert_eq!(m.release_on_merge(7, 42, AUTHORITY, &contributors), Ok(25));
    assert_eq!(m.withdraw(7, 42, &String::from("alice"), WALLET_A), Ok(975));
    let vault_after = m.vault_balance(7, 42);
    assert_eq!(
        m.withdraw(7, 42, &String::from("alice"), WALLET_A),
        Err(BountyError::AlreadyWithdrawn)
    );
    // The second call moved nothing.
    assert_eq!(m.vault_balance(7, 42), vault_after);
    assert_eq!(m.vault_balance(7, 42), Some(0));
}

#[test]
fn native_currency_pays_no_fee() {
    let mut m = setup_funded(250, NATIVE_MINT, 1000);
    assert_eq!(m.register_agent(String::from("alice"), WALLET_A, SIG, true, 10), Ok(()));
    assert_eq!(m.claim_bounty(7, 42, WALLET_A, String::from("alice")), Ok(()));
    let contributors = vec![ContributorInfo { github_handle: String::from("alice"), commits: 9 }];
    assert_eq!(m.release_on_merge(7, 42, AUTHORITY, &contributors), Ok(0));
    assert_eq!(m.treasury_balance(NATIVE_MINT), 0);
    // The whole amount stays for the claimants.
    assert_eq!(m.vault_balance(7, 42), Some(1000));
    assert_eq!(m.withdraw(7, 42, &String::from("alice"), WALLET_A), Ok(1000));
}

#[test]
fn cancel_returns_funds_and_blocks_claims() {
    let mut m = setup_funded(250, TOKEN, 500);
    assert_eq!(m.register_agent(String::from("alice"), WALLET_A, SIG, true, 10), Ok(()));
    assert_eq!(m.claim_bounty(7, 42, WALLET_A, String::from("alice")), Ok(()));
    assert_eq!(m.register_agent(String::from("bob"), WALLET_B, SIG, true, 11), Ok(()));
    assert_eq!(m.cancel_bounty(7, 42, CREATOR), Ok(500));
    assert_eq!(m.bounty_status(7, 42), Some(BountyStatus::Closed));
    assert_eq!(m.vault_balance(7, 42), Some(0));
    // A closed bounty takes no new claim and pays no withdrawal.
    assert_eq!(
        m.claim_bounty(7, 42, WALLET_B, String::from("bob")),
        Err(BountyError::WrongState)
    );
    assert_eq!(
        m.withdraw(7, 42, &String::from("alice"), WALLET_A),
        Err(BountyError::WrongState)
    );
}

#[test]
fn refund_timeout_respects_the_deadline() {
    let created_at: i64 = 1000;
    let deadline: i64 = created_at + REFUND_TIMEOUT_SECONDS;
    let mut m = Marketplace::new();
    assert_eq!(m.create_bounty(7, 42, CREATOR, 800, TOKEN, created_at), Ok(()));
    assert_eq!(m.deposit(7, 42, CREATOR, 800), Ok(()));
    assert_eq!(
        m.refund_timeout(7, 42, CREATOR, deadline - 1),
        Err(BountyError::TimeoutNotReached)
    );
    assert_eq!(m.bounty_status(7, 42), Some(BountyStatus::Funded));
    assert_eq!(m.refund_timeout(7, 42, CREATOR, deadline + 1), Ok(800));
    assert_eq!(m.bounty_status(7, 42), Some(BountyStatus::Closed));
    assert_eq!(m.vault_balance(7, 42), Some(0));
}

#[test]
fn zero_payout_withdrawal_is_terminal() {
    // A 1-unit pool splits into zero-unit payouts: the withdrawal still
    // settles the claim once and for all.
    let mut m = setup_funded(0, TOKEN, 1);
    assert_eq!(m.register_agent(String::from("alice"), WALLET_A, SIG, true, 10), Ok(()));
    assert_eq!(m.register_agent(String::from("bob"), WALLET_B, SIG, true, 11), Ok(()));
    assert_eq!(m.claim_bounty(7, 42, WALLET_A, String::from("alice")), Ok(()));
    assert_eq!(m.claim_bounty(7, 42, WALLET_B, String::from("bob")), Ok(()));
    let contributors = vec![
        ContributorInfo { github_handle: String::from("alice"), commits: 1 },
        ContributorInfo { github_handle: String::from("bob"), commits: 1 },
    ];
    assert_eq!(m.release_on_merge(7, 42, AUTHORITY, &contributors), Ok(0));
    assert_eq!(m.withdraw(7, 42, &String::from("alice"), WALLET_A), Ok(0));
    assert_eq!(
        m.withdraw(7, 42, &String::from("alice"), WALLET_A),
        Err(BountyError::AlreadyWithdrawn)
    );
    assert_eq!(m.vault_balance(7, 42), Some(1));
}

#[test]
fn identity_binding_and_lookup() {
    let mut m = Marketplace::new();
    assert_eq!(m.lookup_agent(&String::from("alice")), Err(BountyError::NotFound));
    assert_eq!(m.register_agent(String::from("alice"), WALLET_A, SIG, true, 10), Ok(()));
    assert_eq!(m.lookup_agent(&String::from("alice")), Ok(WALLET_A));
    // One handle binds to one wallet for the binding's lifetime.
    assert_eq!(
        m.register_agent(String::from("alice"), WALLET_B, SIG, true, 20),
        Err(BountyError::DuplicateBinding)
    );
    assert_eq!(m.lookup_agent(&String::from("alice")), Ok(WALLET_A));
}
