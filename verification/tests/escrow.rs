use custody::address::Address;
use custody::errors::{TransferError, VaultError};
use custody::escrow::EscrowSwap;
use custody::ledger::Ledger;
use custody::vault::ReservePolicy;

const MAKER: u64 = 11;
const TAKER: u64 = 22;
const MINT_A: u64 = 1;
const MINT_B: u64 = 2;
const SEED: u64 = 7;

fn policy() -> ReservePolicy {
    ReservePolicy { record_cost: 10, vault_reserve: 100, token_account_cost: 25 }
}

fn user(id: u64) -> Address {
    Address::User { id }
}

fn holding(owner: u64, mint: u64) -> Address {
    Address::Holding { owner, mint }
}

fn escrow_addr(maker: u64, seed: u64) -> Address {
    Address::Escrow { maker, seed }
}

fn vault_addr(maker: u64, seed: u64, mint: u64) -> Address {
    Address::EscrowVault { maker, seed, mint }
}

/// A maker funded with 1000 native and 500 of `MINT_A`, after a successful
/// `make(seed=SEED, deposit=100, receive=50)`.
fn made_escrow() -> (EscrowSwap, Ledger) {
    let mut ledger = Ledger::new();
    assert_eq!(ledger.airdrop(MAKER, 1000), Ok(()));
    assert_eq!(ledger.mint_to(MAKER, MINT_A, 500), Ok(()));
    let mut swap = EscrowSwap::new();
    let p = policy();
    assert_eq!(
        swap.make(
            &mut ledger,
            MAKER,
            SEED,
            MINT_A,
            MINT_B,
            100,
            50,
            escrow_addr(MAKER, SEED),
            vault_addr(MAKER, SEED, MINT_A),
            &p,
        ),
        Ok(())
    );
    (swap, ledger)
}

#[test]
fn make_deposits_into_escrow_vault() {
    let (swap, ledger) = made_escrow();
    assert!(swap.escrow_exists(MAKER, SEED));
    let rec = swap.get_record(MAKER, SEED).unwrap();
    assert_eq!(rec.maker, MAKER);
    assert_eq!(rec.seed, SEED);
    assert_eq!(rec.mint_a, MINT_A);
    assert_eq!(rec.mint_b, MINT_B);
    assert_eq!(rec.receive_amount, 50);
    assert_eq!(ledger.token_balance_of(vault_addr(MAKER, SEED, MINT_A)), 100);
    assert_eq!(ledger.token_balance_of(holding(MAKER, MINT_A)), 400);
    assert_eq!(ledger.balance_of(user(MAKER)), 1000 - 10 - 25);
    assert_eq!(ledger.balance_of(escrow_addr(MAKER, SEED)), 10);
    assert_eq!(ledger.balance_of(vault_addr(MAKER, SEED, MINT_A)), 25);
}

#[test]
fn make_same_seed_twice_reports_already_exists() {
    let (mut swap, mut ledger) = made_escrow();
    let p = policy();
    assert_eq!(
        swap.make(
            &mut ledger,
            MAKER,
            SEED,
            MINT_A,
            MINT_B,
            100,
            50,
            escrow_addr(MAKER, SEED),
            vault_addr(MAKER, SEED, MINT_A),
            &p,
        ),
        Err(VaultError::AlreadyExists)
    );
    // A different seed disambiguates a second escrow by the same maker.
    assert_eq!(
        swap.make(
            &mut ledger,
            MAKER,
            8,
            MINT_A,
            MINT_B,
            100,
            50,
            escrow_addr(MAKER, 8),
            vault_addr(MAKER, 8, MINT_A),
            &p,
        ),
        Ok(())
    );
    assert!(swap.escrow_exists(MAKER, 8));
}

#[test]
fn make_rejects_wrong_addresses() {
    let mut ledger = Ledger::new();
    assert_eq!(ledger.airdrop(MAKER, 1000), Ok(()));
    assert_eq!(ledger.mint_to(MAKER, MINT_A, 500), Ok(()));
    let mut swap = EscrowSwap::new();
    let p = policy();
    assert_eq!(
        swap.make(
            &mut ledger,
            MAKER,
            SEED,
            MINT_A,
            MINT_B,
            100,
            50,
            escrow_addr(MAKER, SEED + 1),
            vault_addr(MAKER, SEED, MINT_A),
            &p,
        ),
        Err(VaultError::DerivationMismatch)
    );
    assert!(!swap.escrow_exists(MAKER, SEED));
    assert_eq!(ledger.balance_of(user(MAKER)), 1000);
}

#[test]
fn make_without_tokens_changes_nothing() {
    let mut ledger = Ledger::new();
    assert_eq!(ledger.airdrop(MAKER, 1000), Ok(()));
    assert_eq!(ledger.mint_to(MAKER, MINT_A, 60), Ok(()));
    let mut swap = EscrowSwap::new();
    let p = policy();
    assert_eq!(
        swap.make(
            &mut ledger,
            MAKER,
            SEED,
            MINT_A,
            MINT_B,
            100,
            50,
            escrow_addr(MAKER, SEED),
            vault_addr(MAKER, SEED, MINT_A),
            &p,
        ),
        Err(VaultError::Transfer(TransferError::Insufficient { available: 60 }))
    );
    assert!(!swap.escrow_exists(MAKER, SEED));
    assert_eq!(ledger.balance_of(user(MAKER)), 1000);
    assert_eq!(ledger.token_balance_of(holding(MAKER, MINT_A)), 60);
    assert_eq!(ledger.token_balance_of(vault_addr(MAKER, SEED, MINT_A)), 0);
}

#[test]
fn scenario_take_settles_both_sides() {
    let (mut swap, mut ledger) = made_escrow();
    assert_eq!(ledger.mint_to(TAKER, MINT_B, 80), Ok(()));
    assert_eq!(
        swap.take(
            &mut ledger,
            TAKER,
            MAKER,
            SEED,
            escrow_addr(MAKER, SEED),
            vault_addr(MAKER, SEED, MINT_A),
        ),
        Ok(())
    );
    // The taker received the whole deposit, the maker the demanded amount.
    assert_eq!(ledger.token_balance_of(holding(TAKER, MINT_A)), 100);
    assert_eq!(ledger.token_balance_of(holding(MAKER, MINT_B)), 50);
    assert_eq!(ledger.token_balance_of(holding(TAKER, MINT_B)), 30);
    // Both escrow accounts are gone; their storage costs went to taker and
    // maker respectively.
    assert_eq!(ledger.token_balance_of(vault_addr(MAKER, SEED, MINT_A)), 0);
    assert_eq!(ledger.balance_of(vault_addr(MAKER, SEED, MINT_A)), 0);
    assert_eq!(ledger.balance_of(escrow_addr(MAKER, SEED)), 0);
    assert_eq!(ledger.balance_of(user(TAKER)), 25);
    assert_eq!(ledger.balance_of(user(MAKER)), 1000 - 10 - 25 + 10);
    assert!(!swap.escrow_exists(MAKER, SEED));
}

#[test]
fn scenario_refund_restores_maker() {
    let (mut swap, mut ledger) = made_escrow();
    assert_eq!(
        swap.refund(
            &mut ledger,
            MAKER,
            MAKER,
            SEED,
            escrow_addr(MAKER, SEED),
            vault_addr(MAKER, SEED, MINT_A),
        ),
        Ok(())
    );
    // The deposit and both storage costs are fully restored.
    assert_eq!(ledger.token_balance_of(holding(MAKER, MINT_A)), 500);
    assert_eq!(ledger.balance_of(user(MAKER)), 1000);
    assert!(!swap.escrow_exists(MAKER, SEED));
    // A later take on the now-gone record fails.
    assert_eq!(
        swap.take(
            &mut ledger,
            TAKER,
            MAKER,
            SEED,
            escrow_addr(MAKER, SEED),
            vault_addr(MAKER, SEED, MINT_A),
        ),
        Err(VaultError::RecordAlreadyClosed)
    );
}

#[test]
fn take_then_refund_reports_record_closed() {
    let (mut swap, mut ledger) = made_escrow();
    assert_eq!(ledger.mint_to(TAKER, MINT_B, 50), Ok(()));
    assert_eq!(
        swap.take(
            &mut ledger,
            TAKER,
            MAKER,
            SEED,
            escrow_addr(MAKER, SEED),
            vault_addr(MAKER, SEED, MINT_A),
        ),
        Ok(())
    );
    assert_eq!(
        swap.refund(
            &mut ledger,
            MAKER,
            MAKER,
            SEED,
            escrow_addr(MAKER, SEED),
            vault_addr(MAKER, SEED, MINT_A),
        ),
        Err(VaultError::RecordAlreadyClosed)
    );
}

#[test]
fn refund_by_other_principal_is_unauthorized() {
    let (mut swap, mut ledger) = made_escrow();
    assert_eq!(
        swap.refund(
            &mut ledger,
            TAKER,
            MAKER,
            SEED,
            escrow_addr(MAKER, SEED),
            vault_addr(MAKER, SEED, MINT_A),
        ),
        Err(VaultError::Unauthorized)
    );
    // Nothing moved and the escrow is still live.
    assert!(swap.escrow_exists(MAKER, SEED));
    assert_eq!(ledger.token_balance_of(vault_addr(MAKER, SEED, MINT_A)), 100);
}

#[test]
fn take_is_all_or_nothing_when_taker_cannot_pay() {
    let (mut swap, mut ledger) = made_escrow();
    // The taker holds less of `mint_b` than the maker demands: the settlement
    // must fail with the deposit-side transfer not having taken effect.
    assert_eq!(ledger.mint_to(TAKER, MINT_B, 49), Ok(()));
    assert_eq!(
        swap.take(
            &mut ledger,
            TAKER,
            MAKER,
            SEED,
            escrow_addr(MAKER, SEED),
            vault_addr(MAKER, SEED, MINT_A),
        ),
        Err(VaultError::Transfer(TransferError::Insufficient { available: 49 }))
    );
    // Round trip: the escrow vault is unchanged and the record still live.
    assert_eq!(ledger.token_balance_of(vault_addr(MAKER, SEED, MINT_A)), 100);
    assert_eq!(ledger.token_balance_of(holding(TAKER, MINT_A)), 0);
    assert_eq!(ledger.token_balance_of(holding(TAKER, MINT_B)), 49);
    assert_eq!(ledger.token_balance_of(holding(MAKER, MINT_B)), 0);
    assert!(swap.escrow_exists(MAKER, SEED));
    // With enough funds the same take then settles.
    assert_eq!(ledger.mint_to(TAKER, MINT_B, 1), Ok(()));
    assert_eq!(
        swap.take(
            &mut ledger,
            TAKER,
            MAKER,
            SEED,
            escrow_addr(MAKER, SEED),
            vault_addr(MAKER, SEED, MINT_A),
        ),
        Ok(())
    );
    assert_eq!(ledger.token_balance_of(holding(TAKER, MINT_A)), 100);
    assert_eq!(ledger.token_balance_of(holding(MAKER, MINT_B)), 50);
}

#[test]
fn take_rejects_wrong_addresses() {
    let (mut swap, mut ledger) = made_escrow();
    assert_eq!(ledger.mint_to(TAKER, MINT_B, 50), Ok(()));
    assert_eq!(
        swap.take(
            &mut ledger,
            TAKER,
            MAKER,
            SEED,
            escrow_addr(MAKER, SEED),
            vault_addr(MAKER, SEED, MINT_B),
        ),
        Err(VaultError::DerivationMismatch)
    );
    assert!(swap.escrow_exists(MAKER, SEED));
}

#[test]
fn take_on_missing_escrow_reports_record_closed() {
    let mut ledger = Ledger::new();
    let mut swap = EscrowSwap::new();
    assert_eq!(
        swap.take(
            &mut ledger,
            TAKER,
            MAKER,
            SEED,
            escrow_addr(MAKER, SEED),
            vault_addr(MAKER, SEED, MINT_A),
        ),
        Err(VaultError::RecordAlreadyClosed)
    );
}
