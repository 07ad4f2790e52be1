use custody::address::Address;
use custody::errors::{TransferError, VaultError};
use custody::ledger::Ledger;
use custody::vault::{ReservePolicy, VaultCustody};

fn policy() -> ReservePolicy {
    ReservePolicy { record_cost: 10, vault_reserve: 100, token_account_cost: 25 }
}

fn user(id: u64) -> Address {
    Address::User { id }
}

fn state(owner: u64) -> Address {
    Address::VaultState { owner }
}

fn vault(owner: u64) -> Address {
    Address::Vault { owner }
}

fn funded_vault(owner: u64, funds: u64) -> (VaultCustody, Ledger) {
    let mut ledger = Ledger::new();
    assert_eq!(ledger.airdrop(owner, funds), Ok(()));
    let mut custody = VaultCustody::new();
    let p = policy();
    assert_eq!(custody.initialize(&mut ledger, owner, state(owner), vault(owner), &p), Ok(()));
    (custody, ledger)
}

#[test]
fn initialize_funds_reserve_and_persists_record() {
    let (custody, ledger) = funded_vault(1, 1000);
    assert_eq!(ledger.balance_of(vault(1)), 100);
    assert_eq!(ledger.balance_of(state(1)), 10);
    assert_eq!(ledger.balance_of(user(1)), 890);
    assert!(custody.vault_exists(1));
    let rec = custody.get_record(1).unwrap();
    assert_eq!(rec.owner, 1);
    assert_eq!(rec.reserve_amount, 100);
}

#[test]
fn initialize_twice_reports_already_exists() {
    let (mut custody, mut ledger) = funded_vault(1, 1000);
    let p = policy();
    assert_eq!(
        custody.initialize(&mut ledger, 1, state(1), vault(1), &p),
        Err(VaultError::AlreadyExists)
    );
}

#[test]
fn initialize_rejects_wrong_addresses() {
    let mut ledger = Ledger::new();
    assert_eq!(ledger.airdrop(1, 1000), Ok(()));
    let mut custody = VaultCustody::new();
    let p = policy();
    assert_eq!(
        custody.initialize(&mut ledger, 1, state(2), vault(1), &p),
        Err(VaultError::DerivationMismatch)
    );
    assert_eq!(
        custody.initialize(&mut ledger, 1, state(1), vault(2), &p),
        Err(VaultError::DerivationMismatch)
    );
    assert!(!custody.vault_exists(1));
    assert_eq!(ledger.balance_of(user(1)), 1000);
}

#[test]
fn initialize_without_funds_propagates_gateway_error() {
    let mut ledger = Ledger::new();
    assert_eq!(ledger.airdrop(1, 5), Ok(()));
    let mut custody = VaultCustody::new();
    let p = policy();
    assert_eq!(
        custody.initialize(&mut ledger, 1, state(1), vault(1), &p),
        Err(VaultError::Transfer(TransferError::Insufficient { available: 5 }))
    );
    assert!(!custody.vault_exists(1));
    assert_eq!(ledger.balance_of(user(1)), 5);
    assert_eq!(ledger.balance_of(vault(1)), 0);
}

#[test]
fn deposit_moves_funds_into_vault() {
    let (mut custody, mut ledger) = funded_vault(7, 10_000);
    assert_eq!(custody.deposit(&mut ledger, 7, state(7), vault(7), 1000), Ok(()));
    assert_eq!(ledger.balance_of(vault(7)), 1100);
    assert_eq!(ledger.balance_of(user(7)), 10_000 - 110 - 1000);
}

#[test]
fn deposit_without_record_reports_record_closed() {
    let mut ledger = Ledger::new();
    assert_eq!(ledger.airdrop(7, 1000), Ok(()));
    let mut custody = VaultCustody::new();
    assert_eq!(
        custody.deposit(&mut ledger, 7, state(7), vault(7), 10),
        Err(VaultError::RecordAlreadyClosed)
    );
}

#[test]
fn scenario_deposit_then_withdraw() {
    // The reserve stays in the vault, so a 1000 deposit leaves exactly 1000
    // available above the floor: 999 is withdrawable, the balance afterwards
    // is 1000 + reserve - 999.
    let (mut custody, mut ledger) = funded_vault(7, 10_000);
    assert_eq!(custody.deposit(&mut ledger, 7, state(7), vault(7), 1000), Ok(()));
    assert_eq!(custody.withdraw(&mut ledger, 7, state(7), vault(7), 999), Ok(()));
    assert_eq!(ledger.balance_of(vault(7)), 1000 + 100 - 999);

    // Fresh run: a withdrawal of 500 leaves 1000 + reserve - 500.
    let (mut custody, mut ledger) = funded_vault(8, 10_000);
    assert_eq!(custody.deposit(&mut ledger, 8, state(8), vault(8), 1000), Ok(()));
    assert_eq!(custody.withdraw(&mut ledger, 8, state(8), vault(8), 500), Ok(()));
    assert_eq!(ledger.balance_of(vault(8)), 1000 + 100 - 500);
}

#[test]
fn withdraw_boundary_exactly_available_fails() {
    // amount == balance - reserve must fail: the floor is untouchable and the
    // inequality is strict.
    let (mut custody, mut ledger) = funded_vault(7, 10_000);
    assert_eq!(custody.deposit(&mut ledger, 7, state(7), vault(7), 1000), Ok(()));
    assert_eq!(
        custody.withdraw(&mut ledger, 7, state(7), vault(7), 1000),
        Err(VaultError::InsufficientFunds { available: 1000 })
    );
    assert_eq!(ledger.balance_of(vault(7)), 1100);
}

#[test]
fn withdraw_keeps_reserve_floor() {
    // Drain as much as the contract allows and check the floor still holds.
    let (mut custody, mut ledger) = funded_vault(7, 10_000);
    assert_eq!(custody.deposit(&mut ledger, 7, state(7), vault(7), 1000), Ok(()));
    assert_eq!(custody.withdraw(&mut ledger, 7, state(7), vault(7), 999), Ok(()));
    let rec = custody.get_record(7).unwrap();
    assert!(ledger.balance_of(vault(7)) >= rec.reserve_amount);
}

#[test]
fn withdraw_without_record_reports_record_closed() {
    let mut ledger = Ledger::new();
    let mut custody = VaultCustody::new();
    assert_eq!(
        custody.withdraw(&mut ledger, 7, state(7), vault(7), 1),
        Err(VaultError::RecordAlreadyClosed)
    );
}

#[test]
fn withdraw_rejects_wrong_addresses() {
    let (mut custody, mut ledger) = funded_vault(7, 10_000);
    assert_eq!(custody.deposit(&mut ledger, 7, state(7), vault(7), 1000), Ok(()));
    assert_eq!(
        custody.withdraw(&mut ledger, 7, state(7), vault(9), 10),
        Err(VaultError::DerivationMismatch)
    );
    assert_eq!(ledger.balance_of(vault(7)), 1100);
}

#[test]
fn close_empties_vault_and_is_terminal() {
    let (mut custody, mut ledger) = funded_vault(3, 10_000);
    assert_eq!(custody.deposit(&mut ledger, 3, state(3), vault(3), 1000), Ok(()));
    assert_eq!(custody.close(&mut ledger, 3, state(3), vault(3)), Ok(()));
    assert_eq!(ledger.balance_of(vault(3)), 0);
    assert_eq!(ledger.balance_of(state(3)), 0);
    // Everything comes back: deposits, the reserve, and both storage costs.
    assert_eq!(ledger.balance_of(user(3)), 10_000);
    assert!(!custody.vault_exists(3));
    assert_eq!(
        custody.deposit(&mut ledger, 3, state(3), vault(3), 1),
        Err(VaultError::RecordAlreadyClosed)
    );
    assert_eq!(
        custody.withdraw(&mut ledger, 3, state(3), vault(3), 1),
        Err(VaultError::RecordAlreadyClosed)
    );
    assert_eq!(
        custody.close(&mut ledger, 3, state(3), vault(3)),
        Err(VaultError::RecordAlreadyClosed)
    );
    // A fresh lifecycle may start over for the same owner.
    let p = policy();
    assert_eq!(custody.initialize(&mut ledger, 3, state(3), vault(3), &p), Ok(()));
}

#[test]
fn scenario_conflicting_withdrawals() {
    // Two withdrawals, each admissible against the pre-state (600 < 1000
    // available), together exceeding it: the first commits, the second finds
    // the committed state and fails.
    let (mut custody, mut ledger) = funded_vault(5, 10_000);
    assert_eq!(custody.deposit(&mut ledger, 5, state(5), vault(5), 1000), Ok(()));
    assert_eq!(custody.withdraw(&mut ledger, 5, state(5), vault(5), 600), Ok(()));
    assert_eq!(
        custody.withdraw(&mut ledger, 5, state(5), vault(5), 600),
        Err(VaultError::InsufficientFunds { available: 400 })
    );
    assert_eq!(ledger.balance_of(vault(5)), 500);
}

#[test]
fn vaults_of_different_owners_are_independent() {
    let mut ledger = Ledger::new();
    assert_eq!(ledger.airdrop(1, 1000), Ok(()));
    assert_eq!(ledger.airdrop(2, 2000), Ok(()));
    let mut custody = VaultCustody::new();
    let p = policy();
    assert_eq!(custody.initialize(&mut ledger, 1, state(1), vault(1), &p), Ok(()));
    assert_eq!(custody.initialize(&mut ledger, 2, state(2), vault(2), &p), Ok(()));
    assert_eq!(custody.deposit(&mut ledger, 2, state(2), vault(2), 700), Ok(()));
    assert_eq!(ledger.balance_of(vault(1)), 100);
    assert_eq!(ledger.balance_of(vault(2)), 800);
    assert_eq!(custody.close(&mut ledger, 1, state(1), vault(1)), Ok(()));
    assert!(!custody.vault_exists(1));
    assert!(custody.vault_exists(2));
    assert_eq!(ledger.balance_of(vault(2)), 800);
}
