//! Custodial asset management: single-owner vaults that hold deposits under a
//! withdrawal invariant, and two-party escrows that perform an atomic
//! conditional exchange of two asset types with a guaranteed refund path.
//!
//! Both components derive authority-bound sub-accounts deterministically from
//! stable seeds ([`address`]), check that every operation is invoked by the
//! right principal and that program-owned accounts are only debited under a
//! correct derivation proof ([`auth`]), and move assets through a gateway with
//! exact success and failure semantics ([`ledger`]).
//!
//! The vault lifecycle lives in [`vault`], the escrow swap protocol in
//! [`escrow`]. Every operation is atomic: it either commits all of its asset
//! movements or returns an error and leaves every balance and record exactly
//! as it found it. Operations take exclusive references to the registry and
//! the ledger, so racing operations on one record serialize: the one that
//! commits second re-validates against the committed state and fails rather
//! than observing any partial state.

pub mod address;
pub mod auth;
pub mod errors;
pub mod escrow;
pub mod ledger;
pub mod vault;
