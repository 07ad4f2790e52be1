//! The error taxonomy. Every failure path returns a distinguishable kind, and
//! every error aborts the whole operation with no partial state change.

use vstd::prelude::*;

verus! {

/// Why the asset-transfer gateway refused a movement. Gateway errors are
/// propagated to callers verbatim and never retried by the components.
#[derive(Clone, Copy, PartialEq, Eq, Structural, Debug)]
pub enum TransferError {
    /// The supplied authority proof does not authorize debits from the source.
    BadAuthority,
    /// The source holds less than the requested amount; carries what it holds.
    Insufficient { available: u64 },
    /// Crediting the destination would overflow its balance.
    Overflow,
    /// A token movement named an account of another mint, or a non-token
    /// account.
    MintMismatch,
    /// An account can be closed only once it holds no tokens.
    AccountNotEmpty,
    /// An account cannot be closed into itself.
    InvalidDestination,
}

/// Every failure an operation on a vault or an escrow can report.
#[derive(Clone, Copy, PartialEq, Eq, Structural, Debug)]
pub enum VaultError {
    /// The invoking principal does not match the record's owner or maker.
    /// Fatal to the operation; no retry is implied.
    Unauthorized,
    /// A record for these creation inputs already exists.
    AlreadyExists,
    /// The record no longer exists (or never did): the lifecycle has reached
    /// its terminal state. The caller must re-query before retrying.
    RecordAlreadyClosed,
    /// The withdrawal would breach the vault's reserve floor; carries the
    /// amount actually available above the floor.
    InsufficientFunds { available: u64 },
    /// A caller-supplied address does not re-derive to the expected derived
    /// address: a tampering or bug signal, always fatal.
    DerivationMismatch,
    /// The gateway refused an asset movement; its error, verbatim.
    Transfer(TransferError),
}

} // verus!
