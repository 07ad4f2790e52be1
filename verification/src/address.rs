//! Deterministic sub-account derivation.
//!
//! Every account in the system is addressed by a typed identifier: a tagged
//! union over the kinds of account the protocol knows, each carrying the
//! stable inputs it is derived from. The same inputs always yield the same
//! address, and no two distinct input tuples collide — here that holds
//! exactly, by construction, rather than up to a birthday bound.
//!
//! Derived (program-owned) addresses also come with a derivation nonce, the
//! "bump". The bump is stored in the owning record when the record is created,
//! so that later operations can reconstruct the authorization proof for the
//! derived account without searching; the gateway re-derives and compares.
//! In this addressing scheme every input tuple admits a valid nonce, so a
//! derivation never fails.

use vstd::prelude::*;

verus! {

/// The address of one account: a typed identifier carrying the stable inputs
/// the address is derived from.
#[derive(Clone, Copy, PartialEq, Eq, Structural, Debug)]
pub enum Address {
    /// A principal's own native holding account.
    User { id: u64 },
    /// The record account storing a vault's metadata, derived from its owner.
    VaultState { owner: u64 },
    /// The vault sub-account holding the vault's native balance, derived from
    /// the vault's record.
    Vault { owner: u64 },
    /// The record account for one escrow, derived from the maker and a
    /// maker-chosen seed.
    Escrow { maker: u64, seed: u64 },
    /// The escrow's token sub-account for the deposited mint, owned by the
    /// escrow record itself — no human principal controls it.
    EscrowVault { maker: u64, seed: u64, mint: u64 },
    /// A principal's token holding account for one mint.
    Holding { owner: u64, mint: u64 },
}

/// The input tuple of one derivation: a purpose tag together with the owner
/// identity (a principal, or an owning record) and the optional nonce that
/// the purpose calls for.
#[derive(Clone, Copy, PartialEq, Eq, Structural, Debug)]
pub enum DerivationInput {
    /// A vault's record, derived from the owning principal.
    VaultState { owner: u64 },
    /// A vault's balance-holding sub-account, derived from the vault's record.
    Vault { owner: u64 },
    /// An escrow's record, derived from the maker and a disambiguating seed.
    Escrow { maker: u64, seed: u64 },
    /// An escrow's token sub-account, derived from the escrow's record and the
    /// deposited mint.
    EscrowVault { maker: u64, seed: u64, mint: u64 },
}

/// The address a derivation input yields.
pub open spec fn spec_derived_address(input: DerivationInput) -> Address {
    match input {
        DerivationInput::VaultState { owner } => Address::VaultState { owner },
        DerivationInput::Vault { owner } => Address::Vault { owner },
        DerivationInput::Escrow { maker, seed } => Address::Escrow { maker, seed },
        DerivationInput::EscrowVault { maker, seed, mint } => Address::EscrowVault {
            maker,
            seed,
            mint,
        },
    }
}

/// The derivation nonce of an input tuple. Deterministic in the inputs; later
/// checks rely on nothing else about it.
pub open spec fn spec_bump_of(input: DerivationInput) -> u8 {
    match input {
        DerivationInput::VaultState { owner } => (owner % 251) as u8,
        DerivationInput::Vault { owner } => ((owner % 251) + 1) as u8,
        DerivationInput::Escrow { maker, seed } => ((maker ^ seed) % 251) as u8,
        DerivationInput::EscrowVault { maker, seed, mint } => (((maker ^ seed) ^ mint) % 251) as u8,
    }
}

/// Derives the address and the nonce for one input tuple. Pure: the same
/// inputs always yield the same pair. Every input tuple has a valid nonce in
/// this scheme, so derivation is total.
pub fn derive_address(input: DerivationInput) -> (r: (Address, u8))
    ensures
        r.0 == spec_derived_address(input),
        r.1 == spec_bump_of(input),
{
    let addr = match input {
        DerivationInput::VaultState { owner } => Address::VaultState { owner },
        DerivationInput::Vault { owner } => Address::Vault { owner },
        DerivationInput::Escrow { maker, seed } => Address::Escrow { maker, seed },
        DerivationInput::EscrowVault { maker, seed, mint } => Address::EscrowVault {
            maker,
            seed,
            mint,
        },
    };
    let bump = match input {
        DerivationInput::VaultState { owner } => (owner % 251) as u8,
        DerivationInput::Vault { owner } => ((owner % 251) as u8) + 1,
        DerivationInput::Escrow { maker, seed } => ((maker ^ seed) % 251) as u8,
        DerivationInput::EscrowVault { maker, seed, mint } => (((maker ^ seed) ^ mint) % 251) as u8,
    };
    (addr, bump)
}

/// No two distinct input tuples derive the same address.
pub proof fn lemma_derivation_injective(a: DerivationInput, b: DerivationInput)
    ensures
        spec_derived_address(a) == spec_derived_address(b) ==> a == b,
{
}

} // verus!
