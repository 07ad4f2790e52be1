//! Vault custody: the per-user vault lifecycle.
//!
//! A vault is a derived native-asset sub-account with a reserve floor: the
//! amount needed to keep its storage alive, fixed when the vault is created
//! and never withdrawable. The lifecycle runs `initialize` → (`deposit` |
//! `withdraw`)* → `close`; after `close` the record is gone and every
//! operation on it reports [`VaultError::RecordAlreadyClosed`].
//!
//! Every operation re-derives the addresses the caller supplies and checks
//! them, validates everything it is about to do, and only then calls the
//! gateway — so each one either commits completely or changes nothing.

use vstd::prelude::*;

use crate::address::{derive_address, spec_bump_of, Address, DerivationInput};
use crate::auth::AuthorityProof;
use crate::errors::{TransferError, VaultError};
use crate::ledger::{lemma_native_holds_no_tokens, Ledger};

verus! {

/// What keeping each kind of account's storage alive costs: the explicit,
/// configurable reserve policy the components charge by.
#[derive(Clone, Copy, PartialEq, Eq, Structural, Debug)]
pub struct ReservePolicy {
    /// The cost of a metadata record account.
    pub record_cost: u64,
    /// The reserve a vault sub-account must always retain.
    pub vault_reserve: u64,
    /// The cost of a token sub-account.
    pub token_account_cost: u64,
}

/// One vault's persisted record.
#[derive(Clone, Copy, PartialEq, Eq, Structural, Debug)]
pub struct VaultRecord {
    /// The controlling principal.
    pub owner: u64,
    /// The minimum balance the vault must always retain.
    pub reserve_amount: u64,
    /// Derivation nonce of the vault sub-account.
    pub vault_bump: u8,
    /// Derivation nonce of the record account.
    pub record_bump: u8,
}

/// The first record for `owner`, if any.
pub closed spec fn record_in(s: Seq<VaultRecord>, owner: u64) -> Option<VaultRecord>
    decreases s.len(),
{
    if s.len() == 0 {
        None
    } else if s[0].owner == owner {
        Some(s[0])
    } else {
        record_in(s.drop_first(), owner)
    }
}

/// A record's stored bumps are the ones its addresses derive to.
pub open spec fn record_bumps_ok(r: VaultRecord) -> bool {
    &&& r.record_bump == spec_bump_of(DerivationInput::VaultState { owner: r.owner })
    &&& r.vault_bump == spec_bump_of(DerivationInput::Vault { owner: r.owner })
}

/// The registry of vault records: the vault custody component's state.
pub struct VaultCustody {
    records: Vec<VaultRecord>,
}

impl VaultCustody {
    /// The record held for `owner`, if one exists.
    pub closed spec fn record_of(self, owner: u64) -> Option<VaultRecord> {
        record_in(self.records@, owner)
    }

    /// Whether a vault exists for `owner`.
    pub open spec fn has_vault(self, owner: u64) -> bool {
        self.record_of(owner) is Some
    }

    /// Registry consistency: at most one record per owner, each record keyed
    /// by its own owner and carrying the bumps its addresses derive to.
    pub closed spec fn records_wf(self) -> bool {
        &&& forall|i: int, j: int|
            0 <= i < j < self.records@.len() ==> self.records@[i].owner != self.records@[j].owner
        &&& forall|i: int|
            0 <= i < self.records@.len() ==> record_bumps_ok(#[trigger] self.records@[i])
    }

    /// The component invariant, established by [`VaultCustody::new`] and
    /// preserved by every operation: the registry is consistent, and every
    /// vault holds at least its reserve floor.
    pub open spec fn wf(self, l: Ledger) -> bool {
        &&& l.wf()
        &&& self.records_wf()
        &&& forall|o: u64|
            #[trigger] self.record_of(o) matches Some(r) ==> r.owner == o && l.lamports(
                Address::Vault { owner: o },
            ) >= r.reserve_amount
    }

    /// An empty registry: no owner has a vault yet.
    pub fn new() -> (r: VaultCustody)
        ensures
            forall|o: u64| !r.has_vault(o),
            forall|l: Ledger| l.wf() ==> r.wf(l),
    {
        let v = VaultCustody { records: Vec::new() };
        proof {
            assert forall|o: u64| !v.has_vault(o) by {
                assert(record_in(v.records@, o) is None);
            }
        }
        v
    }

    /// The index of the record for `owner`, if any.
    fn find_index(&self, owner: u64) -> (r: Option<usize>)
        ensures
            match r {
                Some(i) => 0 <= i < self.records@.len() && self.records@[i as int].owner == owner
                    && forall|j: int| 0 <= j < i ==> self.records@[j].owner != owner,
                None => forall|j: int| 0 <= j < self.records@.len() ==> self.records@[j].owner != owner,
            },
    {
        let mut i: usize = 0;
        while i < self.records.len()
            invariant
                i <= self.records@.len(),
                forall|j: int| 0 <= j < i ==> self.records@[j].owner != owner,
            decreases self.records@.len() - i,
        {
            if self.records[i].owner == owner {
                return Some(i);
            }
            i = i + 1;
        }
        None
    }

    /// Exec view of [`VaultCustody::record_of`], for callers and tests.
    pub fn get_record(&self, owner: u64) -> (r: Option<VaultRecord>)
        ensures
            r == self.record_of(owner),
    {
        match self.find_index(owner) {
            Some(i) => {
                proof {
                    lemma_record_found(self.records@, owner, i as int);
                }
                Some(self.records[i])
            },
            None => {
                proof {
                    lemma_record_absent(self.records@, owner);
                }
                None
            },
        }
    }

    /// Exec view of [`VaultCustody::has_vault`], for callers and tests.
    pub fn vault_exists(&self, owner: u64) -> (r: bool)
        ensures
            r == self.has_vault(owner),
    {
        self.get_record(owner).is_some()
    }
}

/// If the first record for `owner` sits at index `i`, the lookup returns it.
proof fn lemma_record_found(s: Seq<VaultRecord>, owner: u64, i: int)
    requires
        0 <= i < s.len(),
        s[i].owner == owner,
        forall|j: int| 0 <= j < i ==> s[j].owner != owner,
    ensures
        record_in(s, owner) == Some(s[i]),
    decreases i,
{
    if i > 0 {
        lemma_record_found(s.drop_first(), owner, i - 1);
    }
}

/// With no record for `owner`, the lookup returns nothing.
proof fn lemma_record_absent(s: Seq<VaultRecord>, owner: u64)
    requires
        forall|j: int| 0 <= j < s.len() ==> s[j].owner != owner,
    ensures
        record_in(s, owner) is None,
    decreases s.len(),
{
    if s.len() > 0 {
        lemma_record_absent(s.drop_first(), owner);
    }
}

/// Appending a record for a different owner leaves a lookup unchanged.
proof fn lemma_record_push_frame(s: Seq<VaultRecord>, x: VaultRecord, owner: u64)
    requires
        owner != x.owner,
    ensures
        record_in(s.push(x), owner) == record_in(s, owner),
    decreases s.len(),
{
    let t = s.push(x);
    if s.len() == 0 {
        assert(t.drop_first() =~= Seq::<VaultRecord>::empty());
    } else {
        if s[0].owner != owner {
            assert(t.drop_first() =~= s.drop_first().push(x));
            lemma_record_push_frame(s.drop_first(), x, owner);
        }
    }
}

/// Removing the record at `i` leaves lookups of other owners unchanged.
proof fn lemma_record_remove_frame(s: Seq<VaultRecord>, i: int, owner: u64)
    requires
        0 <= i < s.len(),
        owner != s[i].owner,
    ensures
        record_in(s.remove(i), owner) == record_in(s, owner),
    decreases s.len(),
{
    let t = s.remove(i);
    s.remove_ensures(i);
    if i == 0 {
        assert(t =~= s.drop_first());
    } else {
        if s[0].owner != owner {
            assert(t.drop_first() =~= s.drop_first().remove(i - 1));
            lemma_record_remove_frame(s.drop_first(), i - 1, owner);
        } else {
            assert(t[0] == s[0]);
        }
    }
}

/// Exactly when `initialize` succeeds, and which error it reports when it
/// does not: the record must not exist yet, the supplied addresses must
/// re-derive, and the owner must be able to pay for the record's storage and
/// the vault's reserve (checked in the order the two transfers are made).
pub open spec fn spec_initialize_check(
    v: VaultCustody,
    l: Ledger,
    signer: u64,
    record_addr: Address,
    vault_addr: Address,
    policy: ReservePolicy,
) -> Result<(), VaultError> {
    let user = Address::User { id: signer };
    let state = Address::VaultState { owner: signer };
    let vault = Address::Vault { owner: signer };
    if v.has_vault(signer) {
        Err(VaultError::AlreadyExists)
    } else if record_addr != state || vault_addr != vault {
        Err(VaultError::DerivationMismatch)
    } else if l.lamports(user) < policy.record_cost {
        Err(VaultError::Transfer(TransferError::Insufficient { available: l.lamports(user) }))
    } else if l.lamports(state) + policy.record_cost > u64::MAX {
        Err(VaultError::Transfer(TransferError::Overflow))
    } else if l.lamports(user) - policy.record_cost < policy.vault_reserve {
        Err(
            VaultError::Transfer(
                TransferError::Insufficient {
                    available: (l.lamports(user) - policy.record_cost) as u64,
                },
            ),
        )
    } else if l.lamports(vault) + policy.vault_reserve > u64::MAX {
        Err(VaultError::Transfer(TransferError::Overflow))
    } else {
        Ok(())
    }
}

/// Exactly when `deposit` succeeds, and which error it reports when it does
/// not.
pub open spec fn spec_deposit_check(
    v: VaultCustody,
    l: Ledger,
    signer: u64,
    record_addr: Address,
    vault_addr: Address,
    amount: u64,
) -> Result<(), VaultError> {
    let user = Address::User { id: signer };
    let state = Address::VaultState { owner: signer };
    let vault = Address::Vault { owner: signer };
    if !v.has_vault(signer) {
        Err(VaultError::RecordAlreadyClosed)
    } else if record_addr != state || vault_addr != vault {
        Err(VaultError::DerivationMismatch)
    } else if l.lamports(user) < amount {
        Err(VaultError::Transfer(TransferError::Insufficient { available: l.lamports(user) }))
    } else if l.lamports(vault) + amount > u64::MAX {
        Err(VaultError::Transfer(TransferError::Overflow))
    } else {
        Ok(())
    }
}

/// Whether a withdrawal of `amount` is admissible: the record exists and the
/// amount lies strictly below the balance above the reserve floor —
/// withdrawing exactly down to the floor is disallowed.
pub open spec fn spec_withdraw_allowed(
    v: VaultCustody,
    l: Ledger,
    signer: u64,
    amount: u64,
) -> bool {
    v.record_of(signer) matches Some(rec) && amount < l.lamports(Address::Vault { owner: signer })
        - rec.reserve_amount
}

/// Exactly when `withdraw` succeeds, and which error it reports when it does
/// not. The `InsufficientFunds` error carries the amount actually available
/// above the reserve floor.
pub open spec fn spec_withdraw_check(
    v: VaultCustody,
    l: Ledger,
    signer: u64,
    record_addr: Address,
    vault_addr: Address,
    amount: u64,
) -> Result<(), VaultError> {
    let user = Address::User { id: signer };
    let state = Address::VaultState { owner: signer };
    let vault = Address::Vault { owner: signer };
    match v.record_of(signer) {
        None => Err(VaultError::RecordAlreadyClosed),
        Some(rec) => {
            if record_addr != state || vault_addr != vault {
                Err(VaultError::DerivationMismatch)
            } else if !(amount < l.lamports(vault) - rec.reserve_amount) {
                Err(
                    VaultError::InsufficientFunds {
                        available: (l.lamports(vault) - rec.reserve_amount) as u64,
                    },
                )
            } else if l.lamports(user) + amount > u64::MAX {
                Err(VaultError::Transfer(TransferError::Overflow))
            } else {
                Ok(())
            }
        },
    }
}

/// Exactly when `close` succeeds, and which error it reports when it does
/// not.
pub open spec fn spec_close_check(
    v: VaultCustody,
    l: Ledger,
    signer: u64,
    record_addr: Address,
    vault_addr: Address,
) -> Result<(), VaultError> {
    let user = Address::User { id: signer };
    let state = Address::VaultState { owner: signer };
    let vault = Address::Vault { owner: signer };
    match v.record_of(signer) {
        None => Err(VaultError::RecordAlreadyClosed),
        Some(rec) => {
            if record_addr != state || vault_addr != vault {
                Err(VaultError::DerivationMismatch)
            } else if l.lamports(user) + l.lamports(vault) + l.lamports(state) > u64::MAX {
                Err(VaultError::Transfer(TransferError::Overflow))
            } else {
                Ok(())
            }
        },
    }
}

impl VaultCustody {
    /// Creates the vault for the invoking principal: pays the record's
    /// storage cost into the record account, funds the vault with exactly its
    /// reserve, and persists the reserve and both derivation bumps. Fails
    /// with `AlreadyExists` if the principal already has a vault.
    pub fn initialize(
        &mut self,
        ledger: &mut Ledger,
        signer: u64,
        record_addr: Address,
        vault_addr: Address,
        policy: &ReservePolicy,
    ) -> (r: Result<(), VaultError>)
        requires
            old(self).wf(*old(ledger)),
        ensures
            final(self).wf(*final(ledger)),
            r == spec_initialize_check(
                *old(self),
                *old(ledger),
                signer,
                record_addr,
                vault_addr,
                *policy,
            ),
            r is Err ==> *final(self) == *old(self) && *final(ledger) == *old(ledger),
            r is Ok ==> final(self).record_of(signer) == Some(
                VaultRecord {
                    owner: signer,
                    reserve_amount: policy.vault_reserve,
                    vault_bump: spec_bump_of(DerivationInput::Vault { owner: signer }),
                    record_bump: spec_bump_of(DerivationInput::VaultState { owner: signer }),
                },
            ),
            forall|o: u64| o != signer ==> final(self).record_of(o) == old(self).record_of(o),
            r is Ok ==> {
                let user = Address::User { id: signer };
                let state = Address::VaultState { owner: signer };
                let vault = Address::Vault { owner: signer };
                &&& final(ledger).lamports(user) == old(ledger).lamports(user) - policy.record_cost
                    - policy.vault_reserve
                &&& final(ledger).lamports(state) == old(ledger).lamports(state)
                    + policy.record_cost
                &&& final(ledger).lamports(vault) == old(ledger).lamports(vault)
                    + policy.vault_reserve
                &&& forall|a: Address|
                    a != user && a != state && a != vault ==> final(ledger).lamports(a) == old(ledger).lamports(a)
            },
            forall|a: Address| final(ledger).tokens(a) == old(ledger).tokens(a),
    {
        let user = Address::User { id: signer };
        if let Some(i) = self.find_index(signer) {
            proof {
                lemma_record_found(self.records@, signer, i as int);
            }
            return Err(VaultError::AlreadyExists);
        }
        proof {
            lemma_record_absent(self.records@, signer);
        }
        let (state, record_bump) = derive_address(DerivationInput::VaultState { owner: signer });
        let (vault, vault_bump) = derive_address(DerivationInput::Vault { owner: signer });
        if !(record_addr == state && vault_addr == vault) {
            return Err(VaultError::DerivationMismatch);
        }
        let user_bal = ledger.balance_of(user);
        let state_bal = ledger.balance_of(state);
        let vault_bal = ledger.balance_of(vault);
        if user_bal < policy.record_cost {
            return Err(VaultError::Transfer(TransferError::Insufficient { available: user_bal }));
        }
        if policy.record_cost > u64::MAX - state_bal {
            return Err(VaultError::Transfer(TransferError::Overflow));
        }
        if user_bal - policy.record_cost < policy.vault_reserve {
            return Err(
                VaultError::Transfer(
                    TransferError::Insufficient { available: user_bal - policy.record_cost },
                ),
            );
        }
        if policy.vault_reserve > u64::MAX - vault_bal {
            return Err(VaultError::Transfer(TransferError::Overflow));
        }
        let sig = AuthorityProof::Signer { id: signer };
        match ledger.transfer(user, state, policy.record_cost, &sig) {
            Ok(()) => (),
            Err(e) => {
                return Err(VaultError::Transfer(e));
            },
        }
        match ledger.transfer(user, vault, policy.vault_reserve, &sig) {
            Ok(()) => (),
            Err(e) => {
                return Err(VaultError::Transfer(e));
            },
        }
        let ghost s0 = self.records@;
        let new_record = VaultRecord {
            owner: signer,
            reserve_amount: policy.vault_reserve,
            vault_bump,
            record_bump,
        };
        self.records.push(new_record);
        proof {
            let s1 = self.records@;
            lemma_record_found(s1, signer, s0.len() as int);
            assert forall|o: u64| o != signer implies record_in(s1, o) == record_in(s0, o) by {
                lemma_record_push_frame(s0, new_record, o);
            }
            assert forall|i2: int, j2: int|
                0 <= i2 < j2 < s1.len() implies s1[i2].owner != s1[j2].owner by {
                if j2 == s0.len() {
                    assert(s1[i2] == s0[i2]);
                    assert(s0[i2].owner != signer);
                } else {
                    assert(s1[i2] == s0[i2]);
                    assert(s1[j2] == s0[j2]);
                }
            }
            assert forall|i2: int| 0 <= i2 < s1.len() implies record_bumps_ok(
                #[trigger] s1[i2],
            ) by {
                if i2 < s0.len() {
                    assert(s1[i2] == s0[i2]);
                } else {
                    assert(s1[i2] == new_record);
                }
            }
            assert(self.records_wf());
            assert forall|o: u64| #[trigger] self.record_of(o) is Some implies self.record_of(
                o,
            )->Some_0.owner == o && ledger.lamports(Address::Vault { owner: o }) >= self.record_of(
                o,
            )->Some_0.reserve_amount by {
                if o == signer {
                    assert(self.record_of(o) == Some(new_record));
                } else {
                    assert(record_in(s1, o) == record_in(s0, o));
                    assert(old(self).record_of(o) == record_in(s0, o));
                    assert((Address::Vault { owner: o }) != (Address::Vault { owner: signer }));
                }
            }
        }
        Ok(())
    }

    /// Moves `amount` of the owner's own funds into the vault. The vault
    /// balance only ever grows relative to withdrawals.
    pub fn deposit(
        &mut self,
        ledger: &mut Ledger,
        signer: u64,
        record_addr: Address,
        vault_addr: Address,
        amount: u64,
    ) -> (r: Result<(), VaultError>)
        requires
            old(self).wf(*old(ledger)),
            amount > 0,
        ensures
            final(self).wf(*final(ledger)),
            *final(self) == *old(self),
            r == spec_deposit_check(
                *old(self),
                *old(ledger),
                signer,
                record_addr,
                vault_addr,
                amount,
            ),
            r is Err ==> *final(ledger) == *old(ledger),
            r is Ok ==> {
                let user = Address::User { id: signer };
                let vault = Address::Vault { owner: signer };
                &&& final(ledger).lamports(user) == old(ledger).lamports(user) - amount
                &&& final(ledger).lamports(vault) == old(ledger).lamports(vault) + amount
                &&& forall|a: Address|
                    a != user && a != vault ==> final(ledger).lamports(a) == old(ledger).lamports(a)
            },
            forall|a: Address| final(ledger).tokens(a) == old(ledger).tokens(a),
    {
        let user = Address::User { id: signer };
        match self.find_index(signer) {
            None => {
                proof {
                    lemma_record_absent(self.records@, signer);
                }
                return Err(VaultError::RecordAlreadyClosed);
            },
            Some(i) => {
                proof {
                    lemma_record_found(self.records@, signer, i as int);
                }
            },
        }
        let (state, _record_bump) = derive_address(DerivationInput::VaultState { owner: signer });
        let (vault, _vault_bump) = derive_address(DerivationInput::Vault { owner: signer });
        if !(record_addr == state && vault_addr == vault) {
            return Err(VaultError::DerivationMismatch);
        }
        let user_bal = ledger.balance_of(user);
        if user_bal < amount {
            return Err(VaultError::Transfer(TransferError::Insufficient { available: user_bal }));
        }
        let vault_bal = ledger.balance_of(vault);
        if amount > u64::MAX - vault_bal {
            return Err(VaultError::Transfer(TransferError::Overflow));
        }
        let sig = AuthorityProof::Signer { id: signer };
        match ledger.transfer(user, vault, amount, &sig) {
            Ok(()) => (),
            Err(e) => {
                return Err(VaultError::Transfer(e));
            },
        }
        Ok(())
    }

    /// Moves `amount` out of the vault back to its owner, authorized by the
    /// vault's stored derivation bump. Succeeds exactly when `amount` lies
    /// strictly below the balance above the reserve floor; at or above it,
    /// fails with `InsufficientFunds` carrying the available amount.
    pub fn withdraw(
        &mut self,
        ledger: &mut Ledger,
        signer: u64,
        record_addr: Address,
        vault_addr: Address,
        amount: u64,
    ) -> (r: Result<(), VaultError>)
        requires
            old(self).wf(*old(ledger)),
        ensures
            final(self).wf(*final(ledger)),
            *final(self) == *old(self),
            r == spec_withdraw_check(
                *old(self),
                *old(ledger),
                signer,
                record_addr,
                vault_addr,
                amount,
            ),
            r is Ok <==> spec_withdraw_allowed(*old(self), *old(ledger), signer, amount)
                && record_addr == (Address::VaultState { owner: signer }) && vault_addr == (
            Address::Vault { owner: signer }) && old(ledger).lamports(Address::User { id: signer })
                + amount <= u64::MAX,
            r is Err ==> *final(ledger) == *old(ledger),
            r is Ok ==> {
                let user = Address::User { id: signer };
                let vault = Address::Vault { owner: signer };
                &&& final(ledger).lamports(vault) == old(ledger).lamports(vault) - amount
                &&& final(ledger).lamports(user) == old(ledger).lamports(user) + amount
                &&& forall|a: Address|
                    a != user && a != vault ==> final(ledger).lamports(a) == old(ledger).lamports(a)
            },
            forall|a: Address| final(ledger).tokens(a) == old(ledger).tokens(a),
    {
        let user = Address::User { id: signer };
        let rec = match self.find_index(signer) {
            None => {
                proof {
                    lemma_record_absent(self.records@, signer);
                }
                return Err(VaultError::RecordAlreadyClosed);
            },
            Some(i) => {
                proof {
                    lemma_record_found(self.records@, signer, i as int);
                }
                self.records[i]
            },
        };
        let (state, _record_bump) = derive_address(DerivationInput::VaultState { owner: signer });
        let (vault, _vault_bump) = derive_address(DerivationInput::Vault { owner: signer });
        if !(record_addr == state && vault_addr == vault) {
            return Err(VaultError::DerivationMismatch);
        }
        let vault_bal = ledger.balance_of(vault);
        let available = vault_bal - rec.reserve_amount;
        if amount >= available {
            return Err(VaultError::InsufficientFunds { available });
        }
        let user_bal = ledger.balance_of(user);
        if amount > u64::MAX - user_bal {
            return Err(VaultError::Transfer(TransferError::Overflow));
        }
        let authority = AuthorityProof::Derivation {
            input: DerivationInput::Vault { owner: signer },
            bump: rec.vault_bump,
        };
        match ledger.transfer(vault, user, amount, &authority) {
            Ok(()) => (),
            Err(e) => {
                return Err(VaultError::Transfer(e));
            },
        }
        Ok(())
    }

    /// Empties the vault to exactly zero into its owner's account, recovers
    /// the record account's storage cost the same way, and deletes the
    /// record: the terminal transition. Any later operation for this owner
    /// reports `RecordAlreadyClosed`.
    pub fn close(
        &mut self,
        ledger: &mut Ledger,
        signer: u64,
        record_addr: Address,
        vault_addr: Address,
    ) -> (r: Result<(), VaultError>)
        requires
            old(self).wf(*old(ledger)),
        ensures
            final(self).wf(*final(ledger)),
            r == spec_close_check(*old(self), *old(ledger), signer, record_addr, vault_addr),
            r is Err ==> *final(self) == *old(self) && *final(ledger) == *old(ledger),
            r is Ok ==> !final(self).has_vault(signer),
            forall|o: u64| o != signer ==> final(self).record_of(o) == old(self).record_of(o),
            r is Ok ==> {
                let user = Address::User { id: signer };
                let state = Address::VaultState { owner: signer };
                let vault = Address::Vault { owner: signer };
                &&& final(ledger).lamports(vault) == 0
                &&& final(ledger).lamports(state) == 0
                &&& final(ledger).lamports(user) == old(ledger).lamports(user) + old(ledger).lamports(vault) + old(ledger).lamports(state)
                &&& forall|a: Address|
                    a != user && a != state && a != vault ==> final(ledger).lamports(a) == old(ledger).lamports(a)
            },
            forall|a: Address| final(ledger).tokens(a) == old(ledger).tokens(a),
    {
        let user = Address::User { id: signer };
        let (i, rec) = match self.find_index(signer) {
            None => {
                proof {
                    lemma_record_absent(self.records@, signer);
                }
                return Err(VaultError::RecordAlreadyClosed);
            },
            Some(i) => {
                proof {
                    lemma_record_found(self.records@, signer, i as int);
                }
                (i, self.records[i])
            },
        };
        let (state, _record_bump) = derive_address(DerivationInput::VaultState { owner: signer });
        let (vault, _vault_bump) = derive_address(DerivationInput::Vault { owner: signer });
        if !(record_addr == state && vault_addr == vault) {
            return Err(VaultError::DerivationMismatch);
        }
        let user_bal = ledger.balance_of(user);
        let vault_bal = ledger.balance_of(vault);
        let state_bal = ledger.balance_of(state);
        if vault_bal > u64::MAX - user_bal || state_bal > u64::MAX - (user_bal + vault_bal) {
            return Err(VaultError::Transfer(TransferError::Overflow));
        }
        let vault_authority = AuthorityProof::Derivation {
            input: DerivationInput::Vault { owner: signer },
            bump: rec.vault_bump,
        };
        match ledger.transfer(vault, user, vault_bal, &vault_authority) {
            Ok(()) => (),
            Err(e) => {
                return Err(VaultError::Transfer(e));
            },
        }
        proof {
            lemma_native_holds_no_tokens(*ledger, state);
        }
        let record_authority = AuthorityProof::Derivation {
            input: DerivationInput::VaultState { owner: signer },
            bump: rec.record_bump,
        };
        match ledger.close_account(state, user, &record_authority) {
            Ok(()) => (),
            Err(e) => {
                return Err(VaultError::Transfer(e));
            },
        }
        let ghost s0 = self.records@;
        self.records.remove(i);
        proof {
            let s1 = self.records@;
            assert(s1 == s0.remove(i as int));
            s0.remove_ensures(i as int);
            assert forall|j: int| 0 <= j < s1.len() implies s1[j].owner != signer by {
                if j < i {
                    assert(s1[j] == s0[j]);
                } else {
                    assert(s1[j] == s0[j + 1]);
                }
            }
            lemma_record_absent(s1, signer);
            assert forall|o: u64| o != signer implies record_in(s1, o) == record_in(s0, o) by {
                lemma_record_remove_frame(s0, i as int, o);
            }
            assert forall|i2: int, j2: int|
                0 <= i2 < j2 < s1.len() implies s1[i2].owner != s1[j2].owner by {
                if i2 < i as int {
                    assert(s1[i2] == s0[i2]);
                } else {
                    assert(s1[i2] == s0[i2 + 1]);
                }
                if j2 < i as int {
                    assert(s1[j2] == s0[j2]);
                } else {
                    assert(s1[j2] == s0[j2 + 1]);
                }
            }
            assert forall|i2: int| 0 <= i2 < s1.len() implies record_bumps_ok(
                #[trigger] s1[i2],
            ) by {
                if i2 < i as int {
                    assert(s1[i2] == s0[i2]);
                } else {
                    assert(s1[i2] == s0[i2 + 1]);
                }
            }
            assert(self.records_wf());
            assert forall|o: u64| #[trigger] self.record_of(o) is Some implies self.record_of(
                o,
            )->Some_0.owner == o && ledger.lamports(Address::Vault { owner: o }) >= self.record_of(
                o,
            )->Some_0.reserve_amount by {
                assert(o != signer);
                assert(record_in(s1, o) == record_in(s0, o));
                assert(old(self).record_of(o) == record_in(s0, o));
                assert((Address::Vault { owner: o }) != (Address::Vault { owner: signer }));
            }
        }
        Ok(())
    }
}

/// Every vault always holds at least its reserve floor: the invariant each
/// operation preserves, read off the component's well-formedness.
pub proof fn lemma_reserve_floor(v: VaultCustody, l: Ledger, owner: u64)
    requires
        v.wf(l),
        v.record_of(owner) is Some,
    ensures
        l.lamports(Address::Vault { owner }) >= v.record_of(owner)->Some_0.reserve_amount,
{
}

/// Closing is terminal: against a state without a record for `signer` — as
/// `close` leaves behind — deposit, withdraw and close all report the record
/// closed, whatever addresses or amounts are supplied.
pub proof fn lemma_closed_vault_rejects(
    v: VaultCustody,
    l: Ledger,
    signer: u64,
    record_addr: Address,
    vault_addr: Address,
    amount: u64,
)
    requires
        !v.has_vault(signer),
    ensures
        spec_deposit_check(v, l, signer, record_addr, vault_addr, amount) == Err::<
            (),
            VaultError,
        >(VaultError::RecordAlreadyClosed),
        spec_withdraw_check(v, l, signer, record_addr, vault_addr, amount) == Err::<
            (),
            VaultError,
        >(VaultError::RecordAlreadyClosed),
        spec_close_check(v, l, signer, record_addr, vault_addr) == Err::<(), VaultError>(
            VaultError::RecordAlreadyClosed,
        ),
{
}

/// Two withdrawals that are each admissible against the same pre-state, but
/// together exceed what lies above the reserve floor, cannot both commit:
/// once the first has been applied to the vault's balance, the second is no
/// longer admissible, so whichever of two racing withdrawals commits second
/// fails.
pub proof fn lemma_conflicting_withdrawals(
    v: VaultCustody,
    pre: Ledger,
    post: Ledger,
    signer: u64,
    first: u64,
    second: u64,
)
    requires
        spec_withdraw_allowed(v, pre, signer, first),
        spec_withdraw_allowed(v, pre, signer, second),
        v.record_of(signer) matches Some(rec) && first + second >= pre.lamports(
            Address::Vault { owner: signer },
        ) - rec.reserve_amount,
        post.lamports(Address::Vault { owner: signer }) == pre.lamports(
            Address::Vault { owner: signer },
        ) - first,
    ensures
        !spec_withdraw_allowed(v, post, signer, second),
{
}

} // verus!
