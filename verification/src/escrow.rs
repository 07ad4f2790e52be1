//! The escrow swap protocol: two-party atomic conditional exchange of two
//! asset types with a guaranteed refund path.
//!
//! A maker deposits `mint_a` tokens into an escrow vault — a token sub-account
//! owned by the escrow record itself, not by any human — and names the
//! `mint_b` amount demanded in return. A taker settles the swap by `take`:
//! the deposit moves to the taker, the demanded amount moves from taker to
//! maker, and both escrow accounts are closed, all as one unit. Until then the
//! maker can reclaim the deposit by `refund`. Exactly one of the two can ever
//! succeed: each removes the record, and on a missing record both report
//! [`VaultError::RecordAlreadyClosed`].

use vstd::prelude::*;

use crate::address::{derive_address, spec_bump_of, Address, DerivationInput};
use crate::auth::AuthorityProof;
use crate::errors::{TransferError, VaultError};
use crate::ledger::{lemma_native_holds_no_tokens, Ledger};
use crate::vault::ReservePolicy;

verus! {

/// One escrow's persisted record.
#[derive(Clone, Copy)]
pub struct EscrowRecord {
    /// The initiating principal.
    pub maker: u64,
    /// The maker-chosen nonce disambiguating this escrow from the maker's
    /// other escrows.
    pub seed: u64,
    /// The asset type the maker deposited.
    pub mint_a: u64,
    /// The asset type the maker demands.
    pub mint_b: u64,
    /// How much `mint_b` the maker demands.
    pub receive_amount: u64,
    /// Derivation nonce of the record's own authority.
    pub bump: u8,
    /// The escrow vault's balance as established at `make` time; the vault
    /// holds exactly this until `take` or `refund` drains it.
    pub deposited: Ghost<u64>,
}

/// The first record for `(maker, seed)`, if any.
pub closed spec fn escrow_in(s: Seq<EscrowRecord>, maker: u64, seed: u64) -> Option<EscrowRecord>
    decreases s.len(),
{
    if s.len() == 0 {
        None
    } else if s[0].maker == maker && s[0].seed == seed {
        Some(s[0])
    } else {
        escrow_in(s.drop_first(), maker, seed)
    }
}

/// A record's stored fields are internally consistent: the bump is the one
/// its record address derives to, and the two asset types differ.
pub open spec fn escrow_record_ok(r: EscrowRecord) -> bool {
    &&& r.bump == spec_bump_of(DerivationInput::Escrow { maker: r.maker, seed: r.seed })
    &&& r.mint_a != r.mint_b
}

/// The registry of escrow records: the escrow swap component's state.
pub struct EscrowSwap {
    records: Vec<EscrowRecord>,
}

impl EscrowSwap {
    /// The record held for `(maker, seed)`, if one exists.
    pub closed spec fn record_of(self, maker: u64, seed: u64) -> Option<EscrowRecord> {
        escrow_in(self.records@, maker, seed)
    }

    /// Whether an escrow exists for `(maker, seed)`.
    pub open spec fn has_escrow(self, maker: u64, seed: u64) -> bool {
        self.record_of(maker, seed) is Some
    }

    /// Registry consistency: at most one record per `(maker, seed)`, each
    /// internally consistent.
    pub closed spec fn records_wf(self) -> bool {
        &&& forall|i: int, j: int|
            0 <= i < j < self.records@.len() ==> !(self.records@[i].maker
                == self.records@[j].maker && self.records@[i].seed == self.records@[j].seed)
        &&& forall|i: int|
            0 <= i < self.records@.len() ==> escrow_record_ok(#[trigger] self.records@[i])
    }

    /// The component invariant, established by [`EscrowSwap::new`] and
    /// preserved by every operation: the registry is consistent and, for
    /// every live escrow, the escrow vault holds exactly what was deposited
    /// when the escrow was made.
    pub open spec fn wf(self, l: Ledger) -> bool {
        &&& l.wf()
        &&& self.records_wf()
        &&& forall|m: u64, s: u64|
            #[trigger] self.record_of(m, s) matches Some(r) ==> r.maker == m && r.seed == s
                && l.tokens(Address::EscrowVault { maker: m, seed: s, mint: r.mint_a })
                == r.deposited@
    }

    /// An empty registry: no escrow exists yet.
    pub fn new() -> (r: EscrowSwap)
        ensures
            forall|m: u64, s: u64| !r.has_escrow(m, s),
            forall|l: Ledger| l.wf() ==> r.wf(l),
    {
        let e = EscrowSwap { records: Vec::new() };
        proof {
            assert forall|m: u64, s: u64| !e.has_escrow(m, s) by {
                assert(escrow_in(e.records@, m, s) is None);
            }
        }
        e
    }

    /// The index of the record for `(maker, seed)`, if any.
    fn find_index(&self, maker: u64, seed: u64) -> (r: Option<usize>)
        ensures
            match r {
                Some(i) => 0 <= i < self.records@.len() && self.records@[i as int].maker == maker
                    && self.records@[i as int].seed == seed && forall|j: int|
                    0 <= j < i ==> !(self.records@[j].maker == maker && self.records@[j].seed
                        == seed),
                None => forall|j: int|
                    0 <= j < self.records@.len() ==> !(self.records@[j].maker == maker
                        && self.records@[j].seed == seed),
            },
    {
        let mut i: usize = 0;
        while i < self.records.len()
            invariant
                i <= self.records@.len(),
                forall|j: int|
                    0 <= j < i ==> !(self.records@[j].maker == maker && self.records@[j].seed
                        == seed),
            decreases self.records@.len() - i,
        {
            if self.records[i].maker == maker && self.records[i].seed == seed {
                return Some(i);
            }
            i = i + 1;
        }
        None
    }

    /// Exec view of [`EscrowSwap::record_of`], for callers and tests.
    pub fn get_record(&self, maker: u64, seed: u64) -> (r: Option<EscrowRecord>)
        ensures
            r == self.record_of(maker, seed),
    {
        match self.find_index(maker, seed) {
            Some(i) => {
                proof {
                    lemma_escrow_found(self.records@, maker, seed, i as int);
                }
                Some(self.records[i])
            },
            None => {
                proof {
                    lemma_escrow_absent(self.records@, maker, seed);
                }
                None
            },
        }
    }

    /// Exec view of [`EscrowSwap::has_escrow`], for callers and tests.
    pub fn escrow_exists(&self, maker: u64, seed: u64) -> (r: bool)
        ensures
            r == self.has_escrow(maker, seed),
    {
        self.get_record(maker, seed).is_some()
    }
}

/// If the first record for the key sits at index `i`, the lookup returns it.
proof fn lemma_escrow_found(s: Seq<EscrowRecord>, maker: u64, seed: u64, i: int)
    requires
        0 <= i < s.len(),
        s[i].maker == maker && s[i].seed == seed,
        forall|j: int| 0 <= j < i ==> !(s[j].maker == maker && s[j].seed == seed),
    ensures
        escrow_in(s, maker, seed) == Some(s[i]),
    decreases i,
{
    if i > 0 {
        lemma_escrow_found(s.drop_first(), maker, seed, i - 1);
    }
}

/// With no record for the key, the lookup returns nothing.
proof fn lemma_escrow_absent(s: Seq<EscrowRecord>, maker: u64, seed: u64)
    requires
        forall|j: int| 0 <= j < s.len() ==> !(s[j].maker == maker && s[j].seed == seed),
    ensures
        escrow_in(s, maker, seed) is None,
    decreases s.len(),
{
    if s.len() > 0 {
        lemma_escrow_absent(s.drop_first(), maker, seed);
    }
}

/// Appending a record under another key leaves a lookup unchanged.
proof fn lemma_escrow_push_frame(s: Seq<EscrowRecord>, x: EscrowRecord, maker: u64, seed: u64)
    requires
        !(maker == x.maker && seed == x.seed),
    ensures
        escrow_in(s.push(x), maker, seed) == escrow_in(s, maker, seed),
    decreases s.len(),
{
    let t = s.push(x);
    if s.len() == 0 {
        assert(t.drop_first() =~= Seq::<EscrowRecord>::empty());
    } else {
        if !(s[0].maker == maker && s[0].seed == seed) {
            assert(t.drop_first() =~= s.drop_first().push(x));
            lemma_escrow_push_frame(s.drop_first(), x, maker, seed);
        }
    }
}

/// Removing the record at `i` leaves lookups of other keys unchanged.
proof fn lemma_escrow_remove_frame(s: Seq<EscrowRecord>, i: int, maker: u64, seed: u64)
    requires
        0 <= i < s.len(),
        !(maker == s[i].maker && seed == s[i].seed),
    ensures
        escrow_in(s.remove(i), maker, seed) == escrow_in(s, maker, seed),
    decreases s.len(),
{
    let t = s.remove(i);
    s.remove_ensures(i);
    if i == 0 {
        assert(t =~= s.drop_first());
    } else {
        if !(s[0].maker == maker && s[0].seed == seed) {
            assert(t.drop_first() =~= s.drop_first().remove(i - 1));
            lemma_escrow_remove_frame(s.drop_first(), i - 1, maker, seed);
        } else {
            assert(t[0] == s[0]);
        }
    }
}

/// Exactly when `make` succeeds, and which error it reports when it does not:
/// no record may exist yet, the supplied addresses must re-derive, and the
/// maker must be able to pay the two storage costs and the deposit (checked
/// in the order the three movements are made).
pub open spec fn spec_make_check(
    e: EscrowSwap,
    l: Ledger,
    signer: u64,
    seed: u64,
    mint_a: u64,
    deposit_amount: u64,
    record_addr: Address,
    vault_addr: Address,
    policy: ReservePolicy,
) -> Result<(), VaultError> {
    let user = Address::User { id: signer };
    let escrow = Address::Escrow { maker: signer, seed };
    let vault = Address::EscrowVault { maker: signer, seed, mint: mint_a };
    let holding = Address::Holding { owner: signer, mint: mint_a };
    if e.has_escrow(signer, seed) {
        Err(VaultError::AlreadyExists)
    } else if record_addr != escrow || vault_addr != vault {
        Err(VaultError::DerivationMismatch)
    } else if l.lamports(user) < policy.record_cost {
        Err(VaultError::Transfer(TransferError::Insufficient { available: l.lamports(user) }))
    } else if l.lamports(escrow) + policy.record_cost > u64::MAX {
        Err(VaultError::Transfer(TransferError::Overflow))
    } else if l.lamports(user) - policy.record_cost < policy.token_account_cost {
        Err(
            VaultError::Transfer(
                TransferError::Insufficient {
                    available: (l.lamports(user) - policy.record_cost) as u64,
                },
            ),
        )
    } else if l.lamports(vault) + policy.token_account_cost > u64::MAX {
        Err(VaultError::Transfer(TransferError::Overflow))
    } else if l.tokens(holding) < deposit_amount {
        Err(VaultError::Transfer(TransferError::Insufficient { available: l.tokens(holding) }))
    } else if l.tokens(vault) + deposit_amount > u64::MAX {
        Err(VaultError::Transfer(TransferError::Overflow))
    } else {
        Ok(())
    }
}

/// Exactly when `take` succeeds, and which error it reports when it does
/// not. Every movement of the settlement is validated against the pre-state
/// before any of them is made, so a failure anywhere leaves everything
/// untouched.
pub open spec fn spec_take_check(
    e: EscrowSwap,
    l: Ledger,
    signer: u64,
    maker: u64,
    seed: u64,
    record_addr: Address,
    vault_addr: Address,
) -> Result<(), VaultError> {
    match e.record_of(maker, seed) {
        None => Err(VaultError::RecordAlreadyClosed),
        Some(rec) => {
            let escrow = Address::Escrow { maker, seed };
            let vault = Address::EscrowVault { maker, seed, mint: rec.mint_a };
            let taker_a = Address::Holding { owner: signer, mint: rec.mint_a };
            let taker_b = Address::Holding { owner: signer, mint: rec.mint_b };
            let maker_b = Address::Holding { owner: maker, mint: rec.mint_b };
            let taker_user = Address::User { id: signer };
            let maker_user = Address::User { id: maker };
            if record_addr != escrow || vault_addr != vault {
                Err(VaultError::DerivationMismatch)
            } else if l.tokens(taker_a) + l.tokens(vault) > u64::MAX {
                Err(VaultError::Transfer(TransferError::Overflow))
            } else if l.tokens(taker_b) < rec.receive_amount {
                Err(
                    VaultError::Transfer(
                        TransferError::Insufficient { available: l.tokens(taker_b) },
                    ),
                )
            } else if taker_b != maker_b && l.tokens(maker_b) + rec.receive_amount > u64::MAX {
                Err(VaultError::Transfer(TransferError::Overflow))
            } else if l.lamports(taker_user) + l.lamports(vault) > u64::MAX {
                Err(VaultError::Transfer(TransferError::Overflow))
            } else if l.lamports(maker_user) + (
            if signer == maker {
                l.lamports(vault) as int
            } else {
                0int
            }) + l.lamports(escrow) > u64::MAX {
                Err(VaultError::Transfer(TransferError::Overflow))
            } else {
                Ok(())
            }
        },
    }
}

/// Exactly when `refund` succeeds, and which error it reports when it does
/// not. Only the original maker may refund; the signer check runs before
/// anything else.
pub open spec fn spec_refund_check(
    e: EscrowSwap,
    l: Ledger,
    signer: u64,
    maker: u64,
    seed: u64,
    record_addr: Address,
    vault_addr: Address,
) -> Result<(), VaultError> {
    match e.record_of(maker, seed) {
        None => Err(VaultError::RecordAlreadyClosed),
        Some(rec) => {
            let escrow = Address::Escrow { maker, seed };
            let vault = Address::EscrowVault { maker, seed, mint: rec.mint_a };
            let maker_a = Address::Holding { owner: maker, mint: rec.mint_a };
            let maker_user = Address::User { id: maker };
            if signer != rec.maker {
                Err(VaultError::Unauthorized)
            } else if record_addr != escrow || vault_addr != vault {
                Err(VaultError::DerivationMismatch)
            } else if l.tokens(maker_a) + l.tokens(vault) > u64::MAX {
                Err(VaultError::Transfer(TransferError::Overflow))
            } else if l.lamports(maker_user) + l.lamports(vault) + l.lamports(escrow) > u64::MAX {
                Err(VaultError::Transfer(TransferError::Overflow))
            } else {
                Ok(())
            }
        },
    }
}

impl EscrowSwap {
    /// Creates the escrow: pays the record's and the vault's storage costs,
    /// then deposits `deposit_amount` of `mint_a` from the maker's holding
    /// into the escrow vault, all as one unit — if anything fails, no escrow
    /// exists and nothing moved. The record persists the terms and the
    /// derivation bump.
    pub fn make(
        &mut self,
        ledger: &mut Ledger,
        signer: u64,
        seed: u64,
        mint_a: u64,
        mint_b: u64,
        deposit_amount: u64,
        receive_amount: u64,
        record_addr: Address,
        vault_addr: Address,
        policy: &ReservePolicy,
    ) -> (r: Result<(), VaultError>)
        requires
            old(self).wf(*old(ledger)),
            mint_a != mint_b,
        ensures
            final(self).wf(*final(ledger)),
            r == spec_make_check(
                *old(self),
                *old(ledger),
                signer,
                seed,
                mint_a,
                deposit_amount,
                record_addr,
                vault_addr,
                *policy,
            ),
            r is Err ==> *final(self) == *old(self) && *final(ledger) == *old(ledger),
            forall|m: u64, s: u64|
                !(m == signer && s == seed) ==> final(self).record_of(m, s) == old(self).record_of(m, s),
            r is Ok ==> ({
                let rec = final(self).record_of(signer, seed);
                &&& rec matches Some(rr)
                &&& rr.maker == signer
                &&& rr.seed == seed
                &&& rr.mint_a == mint_a
                &&& rr.mint_b == mint_b
                &&& rr.receive_amount == receive_amount
                &&& rr.deposited@ == old(ledger).tokens(
                    Address::EscrowVault { maker: signer, seed, mint: mint_a },
                ) + deposit_amount
            }),
            r is Ok ==> ({
                let user = Address::User { id: signer };
                let escrow = Address::Escrow { maker: signer, seed };
                let vault = Address::EscrowVault { maker: signer, seed, mint: mint_a };
                let holding = Address::Holding { owner: signer, mint: mint_a };
                &&& final(ledger).lamports(user) == old(ledger).lamports(user) - policy.record_cost
                    - policy.token_account_cost
                &&& final(ledger).lamports(escrow) == old(ledger).lamports(escrow)
                    + policy.record_cost
                &&& final(ledger).lamports(vault) == old(ledger).lamports(vault)
                    + policy.token_account_cost
                &&& forall|a: Address|
                    a != user && a != escrow && a != vault ==> final(ledger).lamports(a) == old(ledger).lamports(a)
                &&& final(ledger).tokens(holding) == old(ledger).tokens(holding) - deposit_amount
                &&& final(ledger).tokens(vault) == old(ledger).tokens(vault) + deposit_amount
                &&& forall|a: Address|
                    a != holding && a != vault ==> final(ledger).tokens(a) == old(ledger).tokens(a)
            }),
    {
        let user = Address::User { id: signer };
        let holding = Address::Holding { owner: signer, mint: mint_a };
        if let Some(i) = self.find_index(signer, seed) {
            proof {
                lemma_escrow_found(self.records@, signer, seed, i as int);
            }
            return Err(VaultError::AlreadyExists);
        }
        proof {
            lemma_escrow_absent(self.records@, signer, seed);
        }
        let (escrow, bump) = derive_address(DerivationInput::Escrow { maker: signer, seed });
        let (vault, _vault_bump) = derive_address(
            DerivationInput::EscrowVault { maker: signer, seed, mint: mint_a },
        );
        if !(record_addr == escrow && vault_addr == vault) {
            return Err(VaultError::DerivationMismatch);
        }
        let user_bal = ledger.balance_of(user);
        let escrow_bal = ledger.balance_of(escrow);
        let vault_bal = ledger.balance_of(vault);
        if user_bal < policy.record_cost {
            return Err(VaultError::Transfer(TransferError::Insufficient { available: user_bal }));
        }
        if policy.record_cost > u64::MAX - escrow_bal {
            return Err(VaultError::Transfer(TransferError::Overflow));
        }
        if user_bal - policy.record_cost < policy.token_account_cost {
            return Err(
                VaultError::Transfer(
                    TransferError::Insufficient { available: user_bal - policy.record_cost },
                ),
            );
        }
        if policy.token_account_cost > u64::MAX - vault_bal {
            return Err(VaultError::Transfer(TransferError::Overflow));
        }
        let holding_tokens = ledger.token_balance_of(holding);
        let vault_tokens = ledger.token_balance_of(vault);
        if holding_tokens < deposit_amount {
            return Err(
                VaultError::Transfer(TransferError::Insufficient { available: holding_tokens }),
            );
        }
        if deposit_amount > u64::MAX - vault_tokens {
            return Err(VaultError::Transfer(TransferError::Overflow));
        }
        let sig = AuthorityProof::Signer { id: signer };
        match ledger.transfer(user, escrow, policy.record_cost, &sig) {
            Ok(()) => (),
            Err(e) => {
                return Err(VaultError::Transfer(e));
            },
        }
        match ledger.transfer(user, vault, policy.token_account_cost, &sig) {
            Ok(()) => (),
            Err(e) => {
                return Err(VaultError::Transfer(e));
            },
        }
        match ledger.transfer_checked(holding, vault, deposit_amount, &sig) {
            Ok(()) => (),
            Err(e) => {
                return Err(VaultError::Transfer(e));
            },
        }
        let ghost s0 = self.records@;
        let new_record = EscrowRecord {
            maker: signer,
            seed,
            mint_a,
            mint_b,
            receive_amount,
            bump,
            deposited: Ghost((vault_tokens + deposit_amount) as u64),
        };
        self.records.push(new_record);
        proof {
            let s1 = self.records@;
            lemma_escrow_found(s1, signer, seed, s0.len() as int);
            assert forall|m: u64, s: u64| !(m == signer && s == seed) implies escrow_in(s1, m, s)
                == escrow_in(s0, m, s) by {
                lemma_escrow_push_frame(s0, new_record, m, s);
            }
            assert forall|i2: int, j2: int| 0 <= i2 < j2 < s1.len() implies !(s1[i2].maker
                == s1[j2].maker && s1[i2].seed == s1[j2].seed) by {
                if j2 == s0.len() {
                    assert(s1[i2] == s0[i2]);
                    assert(!(s0[i2].maker == signer && s0[i2].seed == seed));
                } else {
                    assert(s1[i2] == s0[i2]);
                    assert(s1[j2] == s0[j2]);
                }
            }
            assert forall|i2: int| 0 <= i2 < s1.len() implies escrow_record_ok(
                #[trigger] s1[i2],
            ) by {
                if i2 < s0.len() {
                    assert(s1[i2] == s0[i2]);
                } else {
                    assert(s1[i2] == new_record);
                }
            }
            assert(self.records_wf());
            assert forall|m: u64, s: u64| #[trigger] self.record_of(m, s) is Some implies ({
                let r2 = self.record_of(m, s)->Some_0;
                r2.maker == m && r2.seed == s && ledger.tokens(
                    Address::EscrowVault { maker: m, seed: s, mint: r2.mint_a },
                ) == r2.deposited@
            }) by {
                if m == signer && s == seed {
                    assert(self.record_of(m, s) == Some(new_record));
                } else {
                    assert(escrow_in(s1, m, s) == escrow_in(s0, m, s));
                    assert(old(self).record_of(m, s) == escrow_in(s0, m, s));
                    let r2 = self.record_of(m, s)->Some_0;
                    assert((Address::EscrowVault { maker: m, seed: s, mint: r2.mint_a }) != (
                    Address::EscrowVault { maker: signer, seed, mint: mint_a }));
                }
            }
        }
        Ok(())
    }

    /// Settles the escrow for a taker: the whole deposit moves to the taker,
    /// `receive_amount` of `mint_b` moves from taker to maker, the emptied
    /// vault's storage cost returns to the taker and the record's to the
    /// maker, and the record is deleted — all of it or none of it.
    pub fn take(
        &mut self,
        ledger: &mut Ledger,
        signer: u64,
        maker: u64,
        seed: u64,
        record_addr: Address,
        vault_addr: Address,
    ) -> (r: Result<(), VaultError>)
        requires
            old(self).wf(*old(ledger)),
        ensures
            final(self).wf(*final(ledger)),
            r == spec_take_check(
                *old(self),
                *old(ledger),
                signer,
                maker,
                seed,
                record_addr,
                vault_addr,
            ),
            r is Err ==> *final(self) == *old(self) && *final(ledger) == *old(ledger),
            forall|m: u64, s: u64|
                !(m == maker && s == seed) ==> final(self).record_of(m, s) == old(self).record_of(
                    m,
                    s,
                ),
            r is Ok ==> !final(self).has_escrow(maker, seed),
            r is Ok ==> ({
                let rec = old(self).record_of(maker, seed)->Some_0;
                let escrow = Address::Escrow { maker, seed };
                let vault = Address::EscrowVault { maker, seed, mint: rec.mint_a };
                let taker_a = Address::Holding { owner: signer, mint: rec.mint_a };
                let taker_b = Address::Holding { owner: signer, mint: rec.mint_b };
                let maker_b = Address::Holding { owner: maker, mint: rec.mint_b };
                let taker_user = Address::User { id: signer };
                let maker_user = Address::User { id: maker };
                &&& final(ledger).tokens(vault) == 0
                &&& final(ledger).tokens(taker_a) == old(ledger).tokens(taker_a) + old(ledger).tokens(vault)
                &&& taker_b != maker_b ==> final(ledger).tokens(taker_b) == old(ledger).tokens(
                    taker_b,
                ) - rec.receive_amount && final(ledger).tokens(maker_b) == old(ledger).tokens(
                    maker_b,
                ) + rec.receive_amount
                &&& taker_b == maker_b ==> final(ledger).tokens(taker_b) == old(ledger).tokens(
                    taker_b,
                )
                &&& forall|a: Address|
                    a != vault && a != taker_a && a != taker_b && a != maker_b ==> final(ledger).tokens(a) == old(ledger).tokens(a)
                &&& final(ledger).lamports(vault) == 0
                &&& final(ledger).lamports(escrow) == 0
                &&& signer != maker ==> final(ledger).lamports(taker_user) == old(ledger).lamports(
                    taker_user,
                ) + old(ledger).lamports(vault) && final(ledger).lamports(maker_user) == old(ledger).lamports(maker_user) + old(ledger).lamports(escrow)
                &&& signer == maker ==> final(ledger).lamports(taker_user) == old(ledger).lamports(
                    taker_user,
                ) + old(ledger).lamports(vault) + old(ledger).lamports(escrow)
                &&& forall|a: Address|
                    a != vault && a != escrow && a != taker_user && a != maker_user ==> final(ledger).lamports(a) == old(ledger).lamports(a)
            }),
    {
        let (i, rec) = match self.find_index(maker, seed) {
            None => {
                proof {
                    lemma_escrow_absent(self.records@, maker, seed);
                }
                return Err(VaultError::RecordAlreadyClosed);
            },
            Some(i) => {
                proof {
                    lemma_escrow_found(self.records@, maker, seed, i as int);
                }
                (i, self.records[i])
            },
        };
        let (escrow, _bump) = derive_address(DerivationInput::Escrow { maker, seed });
        let (vault, _vault_bump) = derive_address(
            DerivationInput::EscrowVault { maker, seed, mint: rec.mint_a },
        );
        if !(record_addr == escrow && vault_addr == vault) {
            return Err(VaultError::DerivationMismatch);
        }
        let taker_a = Address::Holding { owner: signer, mint: rec.mint_a };
        let taker_b = Address::Holding { owner: signer, mint: rec.mint_b };
        let maker_b = Address::Holding { owner: maker, mint: rec.mint_b };
        let taker_user = Address::User { id: signer };
        let maker_user = Address::User { id: maker };
        let vault_tokens = ledger.token_balance_of(vault);
        let taker_a_tokens = ledger.token_balance_of(taker_a);
        if vault_tokens > u64::MAX - taker_a_tokens {
            return Err(VaultError::Transfer(TransferError::Overflow));
        }
        let taker_b_tokens = ledger.token_balance_of(taker_b);
        if taker_b_tokens < rec.receive_amount {
            return Err(
                VaultError::Transfer(TransferError::Insufficient { available: taker_b_tokens }),
            );
        }
        if taker_b != maker_b {
            let maker_b_tokens = ledger.token_balance_of(maker_b);
            if rec.receive_amount > u64::MAX - maker_b_tokens {
                return Err(VaultError::Transfer(TransferError::Overflow));
            }
        }
        let vault_l = ledger.balance_of(vault);
        let taker_l = ledger.balance_of(taker_user);
        if vault_l > u64::MAX - taker_l {
            return Err(VaultError::Transfer(TransferError::Overflow));
        }
        let escrow_l = ledger.balance_of(escrow);
        let maker_l = ledger.balance_of(maker_user);
        let maker_l_after: u64 = if signer == maker {
            maker_l + vault_l
        } else {
            maker_l
        };
        if escrow_l > u64::MAX - maker_l_after {
            return Err(VaultError::Transfer(TransferError::Overflow));
        }
        let escrow_auth = AuthorityProof::Derivation {
            input: DerivationInput::Escrow { maker, seed },
            bump: rec.bump,
        };
        let taker_sig = AuthorityProof::Signer { id: signer };
        match ledger.transfer_checked(vault, taker_a, vault_tokens, &escrow_auth) {
            Ok(()) => (),
            Err(e) => {
                return Err(VaultError::Transfer(e));
            },
        }
        match ledger.transfer_checked(taker_b, maker_b, rec.receive_amount, &taker_sig) {
            Ok(()) => (),
            Err(e) => {
                return Err(VaultError::Transfer(e));
            },
        }
        match ledger.close_account(vault, taker_user, &escrow_auth) {
            Ok(()) => (),
            Err(e) => {
                return Err(VaultError::Transfer(e));
            },
        }
        proof {
            lemma_native_holds_no_tokens(*ledger, escrow);
        }
        match ledger.close_account(escrow, maker_user, &escrow_auth) {
            Ok(()) => (),
            Err(e) => {
                return Err(VaultError::Transfer(e));
            },
        }
        let ghost s0 = self.records@;
        self.records.remove(i);
        proof {
            let s1 = self.records@;
            assert(s1 == s0.remove(i as int));
            s0.remove_ensures(i as int);
            assert forall|j: int| 0 <= j < s1.len() implies !(s1[j].maker == maker && s1[j].seed
                == seed) by {
                if j < i as int {
                    assert(s1[j] == s0[j]);
                } else {
                    assert(s1[j] == s0[j + 1]);
                }
            }
            lemma_escrow_absent(s1, maker, seed);
            assert forall|m: u64, s: u64| !(m == maker && s == seed) implies escrow_in(s1, m, s)
                == escrow_in(s0, m, s) by {
                lemma_escrow_remove_frame(s0, i as int, m, s);
            }
            assert forall|i2: int, j2: int| 0 <= i2 < j2 < s1.len() implies !(s1[i2].maker
                == s1[j2].maker && s1[i2].seed == s1[j2].seed) by {
                if i2 < i as int {
                    assert(s1[i2] == s0[i2]);
                } else {
                    assert(s1[i2] == s0[i2 + 1]);
                }
                if j2 < i as int {
                    assert(s1[j2] == s0[j2]);
                } else {
                    assert(s1[j2] == s0[j2 + 1]);
                }
            }
            assert forall|i2: int| 0 <= i2 < s1.len() implies escrow_record_ok(
                #[trigger] s1[i2],
            ) by {
                if i2 < i as int {
                    assert(s1[i2] == s0[i2]);
                } else {
                    assert(s1[i2] == s0[i2 + 1]);
                }
            }
            assert(self.records_wf());
            assert forall|m: u64, s: u64| #[trigger] self.record_of(m, s) is Some implies ({
                let r2 = self.record_of(m, s)->Some_0;
                r2.maker == m && r2.seed == s && ledger.tokens(
                    Address::EscrowVault { maker: m, seed: s, mint: r2.mint_a },
                ) == r2.deposited@
            }) by {
                assert(!(m == maker && s == seed));
                assert(escrow_in(s1, m, s) == escrow_in(s0, m, s));
                assert(old(self).record_of(m, s) == escrow_in(s0, m, s));
                let r2 = self.record_of(m, s)->Some_0;
                assert((Address::EscrowVault { maker: m, seed: s, mint: r2.mint_a }) != (
                Address::EscrowVault { maker, seed, mint: rec.mint_a }));
            }
        }
        Ok(())
    }

    /// Returns the whole deposit to the maker, recovers both accounts'
    /// storage costs to the maker, and deletes the record. Only the original
    /// maker may invoke it.
    pub fn refund(
        &mut self,
        ledger: &mut Ledger,
        signer: u64,
        maker: u64,
        seed: u64,
        record_addr: Address,
        vault_addr: Address,
    ) -> (r: Result<(), VaultError>)
        requires
            old(self).wf(*old(ledger)),
        ensures
            final(self).wf(*final(ledger)),
            r == spec_refund_check(
                *old(self),
                *old(ledger),
                signer,
                maker,
                seed,
                record_addr,
                vault_addr,
            ),
            r is Err ==> *final(self) == *old(self) && *final(ledger) == *old(ledger),
            forall|m: u64, s: u64|
                !(m == maker && s == seed) ==> final(self).record_of(m, s) == old(self).record_of(
                    m,
                    s,
                ),
            r is Ok ==> !final(self).has_escrow(maker, seed),
            r is Ok ==> ({
                let rec = old(self).record_of(maker, seed)->Some_0;
                let escrow = Address::Escrow { maker, seed };
                let vault = Address::EscrowVault { maker, seed, mint: rec.mint_a };
                let maker_a = Address::Holding { owner: maker, mint: rec.mint_a };
                let maker_user = Address::User { id: maker };
                &&& final(ledger).tokens(vault) == 0
                &&& final(ledger).tokens(maker_a) == old(ledger).tokens(maker_a) + old(ledger).tokens(vault)
                &&& forall|a: Address|
                    a != vault && a != maker_a ==> final(ledger).tokens(a) == old(ledger).tokens(a)
                &&& final(ledger).lamports(vault) == 0
                &&& final(ledger).lamports(escrow) == 0
                &&& final(ledger).lamports(maker_user) == old(ledger).lamports(maker_user) + old(ledger).lamports(vault) + old(ledger).lamports(escrow)
                &&& forall|a: Address|
                    a != vault && a != escrow && a != maker_user ==> final(ledger).lamports(a)
                        == old(ledger).lamports(a)
            }),
    {
        let (i, rec) = match self.find_index(maker, seed) {
            None => {
                proof {
                    lemma_escrow_absent(self.records@, maker, seed);
                }
                return Err(VaultError::RecordAlreadyClosed);
            },
            Some(i) => {
                proof {
                    lemma_escrow_found(self.records@, maker, seed, i as int);
                }
                (i, self.records[i])
            },
        };
        match crate::auth::check_signer(signer, rec.maker) {
            Ok(()) => (),
            Err(e) => {
                return Err(e);
            },
        }
        let (escrow, _bump) = derive_address(DerivationInput::Escrow { maker, seed });
        let (vault, _vault_bump) = derive_address(
            DerivationInput::EscrowVault { maker, seed, mint: rec.mint_a },
        );
        if !(record_addr == escrow && vault_addr == vault) {
            return Err(VaultError::DerivationMismatch);
        }
        let maker_a = Address::Holding { owner: maker, mint: rec.mint_a };
        let maker_user = Address::User { id: maker };
        let vault_tokens = ledger.token_balance_of(vault);
        let maker_a_tokens = ledger.token_balance_of(maker_a);
        if vault_tokens > u64::MAX - maker_a_tokens {
            return Err(VaultError::Transfer(TransferError::Overflow));
        }
        let vault_l = ledger.balance_of(vault);
        let maker_l = ledger.balance_of(maker_user);
        if vault_l > u64::MAX - maker_l {
            return Err(VaultError::Transfer(TransferError::Overflow));
        }
        let escrow_l = ledger.balance_of(escrow);
        if escrow_l > u64::MAX - (maker_l + vault_l) {
            return Err(VaultError::Transfer(TransferError::Overflow));
        }
        let escrow_auth = AuthorityProof::Derivation {
            input: DerivationInput::Escrow { maker, seed },
            bump: rec.bump,
        };
        match ledger.transfer_checked(vault, maker_a, vault_tokens, &escrow_auth) {
            Ok(()) => (),
            Err(e) => {
                return Err(VaultError::Transfer(e));
            },
        }
        match ledger.close_account(vault, maker_user, &escrow_auth) {
            Ok(()) => (),
            Err(e) => {
                return Err(VaultError::Transfer(e));
            },
        }
        proof {
            lemma_native_holds_no_tokens(*ledger, escrow);
        }
        match ledger.close_account(escrow, maker_user, &escrow_auth) {
            Ok(()) => (),
            Err(e) => {
                return Err(VaultError::Transfer(e));
            },
        }
        let ghost s0 = self.records@;
        self.records.remove(i);
        proof {
            let s1 = self.records@;
            assert(s1 == s0.remove(i as int));
            s0.remove_ensures(i as int);
            assert forall|j: int| 0 <= j < s1.len() implies !(s1[j].maker == maker && s1[j].seed
                == seed) by {
                if j < i as int {
                    assert(s1[j] == s0[j]);
                } else {
                    assert(s1[j] == s0[j + 1]);
                }
            }
            lemma_escrow_absent(s1, maker, seed);
            assert forall|m: u64, s: u64| !(m == maker && s == seed) implies escrow_in(s1, m, s)
                == escrow_in(s0, m, s) by {
                lemma_escrow_remove_frame(s0, i as int, m, s);
            }
            assert forall|i2: int, j2: int| 0 <= i2 < j2 < s1.len() implies !(s1[i2].maker
                == s1[j2].maker && s1[i2].seed == s1[j2].seed) by {
                if i2 < i as int {
                    assert(s1[i2] == s0[i2]);
                } else {
                    assert(s1[i2] == s0[i2 + 1]);
                }
                if j2 < i as int {
                    assert(s1[j2] == s0[j2]);
                } else {
                    assert(s1[j2] == s0[j2 + 1]);
                }
            }
            assert forall|i2: int| 0 <= i2 < s1.len() implies escrow_record_ok(
                #[trigger] s1[i2],
            ) by {
                if i2 < i as int {
                    assert(s1[i2] == s0[i2]);
                } else {
                    assert(s1[i2] == s0[i2 + 1]);
                }
            }
            assert(self.records_wf());
            assert forall|m: u64, s: u64| #[trigger] self.record_of(m, s) is Some implies ({
                let r2 = self.record_of(m, s)->Some_0;
                r2.maker == m && r2.seed == s && ledger.tokens(
                    Address::EscrowVault { maker: m, seed: s, mint: r2.mint_a },
                ) == r2.deposited@
            }) by {
                assert(!(m == maker && s == seed));
                assert(escrow_in(s1, m, s) == escrow_in(s0, m, s));
                assert(old(self).record_of(m, s) == escrow_in(s0, m, s));
                let r2 = self.record_of(m, s)->Some_0;
                assert((Address::EscrowVault { maker: m, seed: s, mint: r2.mint_a }) != (
                Address::EscrowVault { maker, seed, mint: rec.mint_a }));
            }
        }
        Ok(())
    }
}

/// Take and refund are mutually exclusive and terminal: each removes the
/// record, and on a state without the record — as either leaves behind —
/// both report it closed, whoever invokes them and whatever addresses they
/// supply. So at most one of the two ever succeeds.
pub proof fn lemma_settlement_exclusive(
    e: EscrowSwap,
    l: Ledger,
    signer: u64,
    maker: u64,
    seed: u64,
    record_addr: Address,
    vault_addr: Address,
)
    requires
        !e.has_escrow(maker, seed),
    ensures
        spec_take_check(e, l, signer, maker, seed, record_addr, vault_addr) == Err::<
            (),
            VaultError,
        >(VaultError::RecordAlreadyClosed),
        spec_refund_check(e, l, signer, maker, seed, record_addr, vault_addr) == Err::<
            (),
            VaultError,
        >(VaultError::RecordAlreadyClosed),
{
}

} // verus!
