//! The authorization verifier.
//!
//! Two checks guard every operation. The *human signer check*: the invoking
//! principal must match the `owner`/`maker` field of the record acted on. The
//! *derived-authority check*: when a transfer's source is a program-owned
//! sub-account, the transfer must carry the exact derivation input tuple and
//! bump used at creation; the gateway re-derives and compares, so possession
//! of a key is never what releases such funds — only the protocol's own logic
//! can present the right tuple.

use vstd::prelude::*;

use crate::address::{spec_bump_of, spec_derived_address, Address, DerivationInput};
use crate::errors::VaultError;

verus! {

/// The credential accompanying a debit: either the signature of a principal,
/// or the derivation tuple of a program-owned account.
#[derive(Clone, Copy, PartialEq, Eq, Structural, Debug)]
pub enum AuthorityProof {
    /// The invoking principal signed the whole operation.
    Signer { id: u64 },
    /// The exact derivation input and bump recorded when the derived account
    /// was created.
    Derivation { input: DerivationInput, bump: u8 },
}

/// Whether a proof authorizes debits from `source`.
///
/// A principal's own accounts (native and token holdings) are released by that
/// principal's signature. A vault, a vault record and an escrow record are
/// released only by their own derivation tuple. An escrow's token sub-account
/// is owned by the escrow record, so it is released by the *record's*
/// derivation tuple.
pub open spec fn spec_authorizes(proof: AuthorityProof, source: Address) -> bool {
    match source {
        Address::User { id } => spec_signed_by(proof, id),
        Address::Holding { owner, .. } => spec_signed_by(proof, owner),
        Address::VaultState { .. } => spec_derives(proof, source),
        Address::Vault { .. } => spec_derives(proof, source),
        Address::Escrow { .. } => spec_derives(proof, source),
        Address::EscrowVault { maker, seed, .. } => spec_derives(
            proof,
            Address::Escrow { maker, seed },
        ),
    }
}

/// Whether a proof is the signature of `principal`.
pub open spec fn spec_signed_by(proof: AuthorityProof, principal: u64) -> bool {
    proof matches AuthorityProof::Signer { id } && id == principal
}

/// Whether a proof carries a derivation tuple that re-derives to `authority`
/// with the matching nonce.
pub open spec fn spec_derives(proof: AuthorityProof, authority: Address) -> bool {
    proof matches AuthorityProof::Derivation { input, bump } && spec_derived_address(input)
        == authority && bump == spec_bump_of(input)
}

/// Checks a proof against the source account it claims to release.
pub fn authorizes(proof: &AuthorityProof, source: &Address) -> (r: bool)
    ensures
        r == spec_authorizes(*proof, *source),
{
    let p = *proof;
    let src = *source;
    match p {
        AuthorityProof::Signer { id } => {
            let signer_id = id;
            match src {
                Address::User { id } => signer_id == id,
                Address::Holding { owner, .. } => signer_id == owner,
                _ => false,
            }
        },
        AuthorityProof::Derivation { input, bump } => {
            let (derived, expected_bump) = crate::address::derive_address(input);
            if bump != expected_bump {
                false
            } else {
                match src {
                    Address::User { .. } => false,
                    Address::Holding { .. } => false,
                    Address::VaultState { .. } => derived == src,
                    Address::Vault { .. } => derived == src,
                    Address::Escrow { .. } => derived == src,
                    Address::EscrowVault { maker, seed, .. } => derived == (Address::Escrow {
                        maker,
                        seed,
                    }),
                }
            }
        },
    }
}

/// The human signer check: the invoking principal must be the expected owner.
pub fn check_signer(signer: u64, expected: u64) -> (r: Result<(), VaultError>)
    ensures
        r is Ok <==> signer == expected,
        r is Err ==> r == Err::<(), VaultError>(VaultError::Unauthorized),
{
    if signer == expected {
        Ok(())
    } else {
        Err(VaultError::Unauthorized)
    }
}

} // verus!
