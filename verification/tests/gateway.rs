use custody::address::{derive_address, Address, DerivationInput};
use custody::auth::{authorizes, check_signer, AuthorityProof};
use custody::errors::{TransferError, VaultError};
use custody::ledger::Ledger;

fn user(id: u64) -> Address {
    Address::User { id }
}

fn holding(owner: u64, mint: u64) -> Address {
    Address::Holding { owner, mint }
}

#[test]
fn airdrop_credits_and_guards_overflow() {
    let mut ledger = Ledger::new();
    assert_eq!(ledger.balance_of(user(9)), 0);
    assert_eq!(ledger.airdrop(9, u64::MAX), Ok(()));
    assert_eq!(ledger.balance_of(user(9)), u64::MAX);
    assert_eq!(ledger.airdrop(9, 1), Err(TransferError::Overflow));
    assert_eq!(ledger.balance_of(user(9)), u64::MAX);
}

#[test]
fn transfer_moves_native_funds() {
    let mut ledger = Ledger::new();
    assert_eq!(ledger.airdrop(1, 100), Ok(()));
    let sig = AuthorityProof::Signer { id: 1 };
    assert_eq!(ledger.transfer(user(1), user(2), 40, &sig), Ok(()));
    assert_eq!(ledger.balance_of(user(1)), 60);
    assert_eq!(ledger.balance_of(user(2)), 40);
}

#[test]
fn transfer_rejects_foreign_signature() {
    let mut ledger = Ledger::new();
    assert_eq!(ledger.airdrop(1, 100), Ok(()));
    let wrong = AuthorityProof::Signer { id: 2 };
    assert_eq!(ledger.transfer(user(1), user(2), 40, &wrong), Err(TransferError::BadAuthority));
    assert_eq!(ledger.balance_of(user(1)), 100);
}

#[test]
fn transfer_reports_what_is_available() {
    let mut ledger = Ledger::new();
    assert_eq!(ledger.airdrop(1, 30), Ok(()));
    let sig = AuthorityProof::Signer { id: 1 };
    assert_eq!(
        ledger.transfer(user(1), user(2), 40, &sig),
        Err(TransferError::Insufficient { available: 30 })
    );
}

#[test]
fn derived_accounts_need_their_derivation_proof() {
    let mut ledger = Ledger::new();
    assert_eq!(ledger.airdrop(1, 500), Ok(()));
    let sig = AuthorityProof::Signer { id: 1 };
    let vault = Address::Vault { owner: 1 };
    assert_eq!(ledger.transfer(user(1), vault, 200, &sig), Ok(()));
    // The owner's own signature does not release a program-owned account.
    assert_eq!(ledger.transfer(vault, user(1), 50, &sig), Err(TransferError::BadAuthority));
    // The exact derivation tuple and bump do.
    let (derived, bump) = derive_address(DerivationInput::Vault { owner: 1 });
    assert_eq!(derived, vault);
    let proof = AuthorityProof::Derivation { input: DerivationInput::Vault { owner: 1 }, bump };
    assert_eq!(ledger.transfer(vault, user(1), 50, &proof), Ok(()));
    assert_eq!(ledger.balance_of(vault), 150);
    // A wrong bump does not re-derive.
    let stale = AuthorityProof::Derivation {
        input: DerivationInput::Vault { owner: 1 },
        bump: bump.wrapping_add(1),
    };
    assert_eq!(ledger.transfer(vault, user(1), 50, &stale), Err(TransferError::BadAuthority));
}

#[test]
fn token_transfer_checks_the_mint() {
    let mut ledger = Ledger::new();
    assert_eq!(ledger.mint_to(1, 5, 100), Ok(()));
    let sig = AuthorityProof::Signer { id: 1 };
    assert_eq!(
        ledger.transfer_checked(holding(1, 5), holding(2, 6), 10, &sig),
        Err(TransferError::MintMismatch)
    );
    assert_eq!(ledger.transfer_checked(holding(1, 5), user(2), 10, &sig), Err(TransferError::MintMismatch));
    assert_eq!(ledger.transfer_checked(holding(1, 5), holding(2, 5), 10, &sig), Ok(()));
    assert_eq!(ledger.token_balance_of(holding(1, 5)), 90);
    assert_eq!(ledger.token_balance_of(holding(2, 5)), 10);
}

#[test]
fn close_account_requires_an_empty_token_account() {
    let mut ledger = Ledger::new();
    assert_eq!(ledger.mint_to(1, 5, 10), Ok(()));
    let sig = AuthorityProof::Signer { id: 1 };
    assert_eq!(
        ledger.close_account(holding(1, 5), user(1), &sig),
        Err(TransferError::AccountNotEmpty)
    );
    assert_eq!(ledger.transfer_checked(holding(1, 5), holding(2, 5), 10, &sig), Ok(()));
    assert_eq!(ledger.close_account(holding(1, 5), user(1), &sig), Ok(()));
}

#[test]
fn close_account_rejects_itself_as_destination() {
    let mut ledger = Ledger::new();
    assert_eq!(ledger.airdrop(2, 10), Ok(()));
    let sig = AuthorityProof::Signer { id: 2 };
    assert_eq!(
        ledger.close_account(user(2), user(2), &sig),
        Err(TransferError::InvalidDestination)
    );
}

#[test]
fn close_account_moves_the_whole_balance() {
    let mut ledger = Ledger::new();
    assert_eq!(ledger.airdrop(2, 10), Ok(()));
    assert_eq!(ledger.airdrop(3, 1), Ok(()));
    let sig = AuthorityProof::Signer { id: 2 };
    assert_eq!(ledger.close_account(user(2), user(3), &sig), Ok(()));
    assert_eq!(ledger.balance_of(user(2)), 0);
    assert_eq!(ledger.balance_of(user(3)), 11);
}

#[test]
fn authorizes_matches_account_ownership() {
    assert!(authorizes(&AuthorityProof::Signer { id: 1 }, &user(1)));
    assert!(!authorizes(&AuthorityProof::Signer { id: 2 }, &user(1)));
    assert!(authorizes(&AuthorityProof::Signer { id: 3 }, &holding(3, 9)));
    // An escrow vault is owned by the escrow record: the record's derivation
    // tuple releases it, a signature never does.
    let ev = Address::EscrowVault { maker: 4, seed: 7, mint: 9 };
    assert!(!authorizes(&AuthorityProof::Signer { id: 4 }, &ev));
    let (_, bump) = derive_address(DerivationInput::Escrow { maker: 4, seed: 7 });
    let rec_proof = AuthorityProof::Derivation {
        input: DerivationInput::Escrow { maker: 4, seed: 7 },
        bump,
    };
    assert!(authorizes(&rec_proof, &ev));
    assert!(authorizes(&rec_proof, &Address::Escrow { maker: 4, seed: 7 }));
    assert!(!authorizes(&rec_proof, &Address::Escrow { maker: 4, seed: 8 }));
}

#[test]
fn check_signer_accepts_only_the_owner() {
    assert_eq!(check_signer(5, 5), Ok(()));
    assert_eq!(check_signer(5, 6), Err(VaultError::Unauthorized));
}

#[test]
fn derivation_is_deterministic_and_collision_free() {
    let a1 = derive_address(DerivationInput::Escrow { maker: 1, seed: 2 });
    let a2 = derive_address(DerivationInput::Escrow { maker: 1, seed: 2 });
    assert_eq!(a1, a2);
    // Distinct input tuples (another owner, another purpose, another nonce)
    // never collide.
    let mut addrs = vec![
        derive_address(DerivationInput::VaultState { owner: 1 }).0,
        derive_address(DerivationInput::Vault { owner: 1 }).0,
        derive_address(DerivationInput::VaultState { owner: 2 }).0,
        derive_address(DerivationInput::Escrow { maker: 1, seed: 1 }).0,
        derive_address(DerivationInput::Escrow { maker: 1, seed: 2 }).0,
        derive_address(DerivationInput::EscrowVault { maker: 1, seed: 1, mint: 3 }).0,
    ];
    while let Some(a) = addrs.pop() {
        for b in &addrs {
            assert_ne!(a, *b);
        }
    }
}
