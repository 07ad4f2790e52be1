//! The asset transfer gateway: the authoritative store of balances, and the
//! primitives that move them.
//!
//! Two balances live at an address: its native balance ("lamports") and, for
//! token accounts, its token balance of the one mint the address names. An
//! absent account is equivalent to one holding zero of everything, so reads
//! are total and creation happens on first credit.
//!
//! Every primitive is atomic: it either commits the full movement or returns
//! an error and changes no balance at all. Each checks the authority proof of
//! its source before anything else, by re-deriving and comparing — this is
//! what lets protocol logic, and nothing else, move funds out of accounts no
//! human holds a key for.

use vstd::prelude::*;

use crate::address::Address;
use crate::auth::{authorizes, spec_authorizes, AuthorityProof};
use crate::errors::TransferError;

verus! {

/// Which mint an address holds tokens of, if it is a token account.
pub open spec fn spec_mint_of(addr: Address) -> Option<u64> {
    match addr {
        Address::Holding { mint, .. } => Some(mint),
        Address::EscrowVault { mint, .. } => Some(mint),
        _ => None,
    }
}

/// Exec twin of [`spec_mint_of`].
pub fn mint_of(addr: &Address) -> (r: Option<u64>)
    ensures
        r == spec_mint_of(*addr),
{
    let a = *addr;
    match a {
        Address::Holding { mint, .. } => Some(mint),
        Address::EscrowVault { mint, .. } => Some(mint),
        _ => None,
    }
}

/// One account row: the address, its native balance, and its token balance.
#[derive(Clone, Copy, PartialEq, Eq, Structural, Debug)]
pub struct Account {
    pub addr: Address,
    pub lamports: u64,
    pub tokens: u64,
}

/// The row an absent account reads as.
pub open spec fn default_account(addr: Address) -> Account {
    Account { addr, lamports: 0, tokens: 0 }
}

/// A row is well formed when only token accounts hold tokens.
pub open spec fn account_ok(a: Account) -> bool {
    spec_mint_of(a.addr) is None ==> a.tokens == 0
}

/// The first row for `addr`, or the all-zero row if none exists.
pub closed spec fn entry_in(s: Seq<Account>, addr: Address) -> Account
    decreases s.len(),
{
    if s.len() == 0 {
        default_account(addr)
    } else if s[0].addr == addr {
        s[0]
    } else {
        entry_in(s.drop_first(), addr)
    }
}

/// The authoritative store of balances.
pub struct Ledger {
    accounts: Vec<Account>,
}

impl Ledger {
    /// The native balance held at `addr`.
    pub closed spec fn lamports(self, addr: Address) -> u64 {
        entry_in(self.accounts@, addr).lamports
    }

    /// The token balance held at `addr` (of the mint the address names).
    pub closed spec fn tokens(self, addr: Address) -> u64 {
        entry_in(self.accounts@, addr).tokens
    }

    /// Internal consistency: one row per address, tokens only on token
    /// accounts.
    pub closed spec fn wf(self) -> bool {
        &&& forall|i: int, j: int|
            0 <= i < j < self.accounts@.len() ==> self.accounts@[i].addr != self.accounts@[j].addr
        &&& forall|i: int| 0 <= i < self.accounts@.len() ==> account_ok(#[trigger] self.accounts@[i])
    }

    /// An empty ledger: every balance is zero.
    pub fn new() -> (r: Ledger)
        ensures
            r.wf(),
            forall|a: Address| r.lamports(a) == 0 && r.tokens(a) == 0,
    {
        let l = Ledger { accounts: Vec::new() };
        proof {
            assert forall|a: Address| l.lamports(a) == 0 && l.tokens(a) == 0 by {
                assert(entry_in(l.accounts@, a) == default_account(a));
            }
        }
        l
    }

    /// The index of the row for `addr`, if one exists.
    fn position_of(&self, addr: Address) -> (r: Option<usize>)
        ensures
            match r {
                Some(i) => 0 <= i < self.accounts@.len() && self.accounts@[i as int].addr == addr
                    && forall|j: int| 0 <= j < i ==> self.accounts@[j].addr != addr,
                None => forall|j: int| 0 <= j < self.accounts@.len() ==> self.accounts@[j].addr != addr,
            },
    {
        let mut i: usize = 0;
        while i < self.accounts.len()
            invariant
                i <= self.accounts@.len(),
                forall|j: int| 0 <= j < i ==> self.accounts@[j].addr != addr,
            decreases self.accounts@.len() - i,
        {
            if self.accounts[i].addr == addr {
                return Some(i);
            }
            i = i + 1;
        }
        None
    }

    /// Reads the row for `addr`, absent accounts reading as all zero.
    fn read(&self, addr: Address) -> (r: Account)
        ensures
            r == entry_in(self.accounts@, addr),
    {
        match self.position_of(addr) {
            Some(i) => {
                proof {
                    lemma_entry_found(self.accounts@, addr, i as int);
                }
                self.accounts[i]
            },
            None => {
                proof {
                    lemma_entry_absent(self.accounts@, addr);
                }
                Account { addr, lamports: 0, tokens: 0 }
            },
        }
    }

    /// Overwrites (or creates) the row for `acct.addr`, leaving every other
    /// address untouched.
    fn write(&mut self, acct: Account)
        requires
            old(self).wf(),
            account_ok(acct),
        ensures
            final(self).wf(),
            final(self).lamports(acct.addr) == acct.lamports,
            final(self).tokens(acct.addr) == acct.tokens,
            forall|a: Address|
                a != acct.addr ==> final(self).lamports(a) == old(self).lamports(a) && final(self).tokens(a) == old(self).tokens(a),
    {
        let ghost s0 = self.accounts@;
        match self.position_of(acct.addr) {
            Some(i) => {
                let slot = &mut self.accounts[i];
                *slot = acct;
                proof {
                    let s1 = self.accounts@;
                    assert(s1 == s0.update(i as int, acct));
                    lemma_entry_found(s1, acct.addr, i as int);
                    assert forall|a: Address| a != acct.addr implies entry_in(s1, a) == entry_in(
                        s0,
                        a,
                    ) by {
                        lemma_entry_update_frame(s0, i as int, acct, a);
                    }
                }
            },
            None => {
                self.accounts.push(acct);
                proof {
                    let s1 = self.accounts@;
                    lemma_entry_found(s1, acct.addr, s0.len() as int);
                    assert forall|a: Address| a != acct.addr implies entry_in(s1, a) == entry_in(
                        s0,
                        a,
                    ) by {
                        lemma_entry_push_frame(s0, acct, a);
                    }
                }
            },
        }
    }

    /// Reads the native balance at `addr`.
    pub fn balance_of(&self, addr: Address) -> (r: u64)
        ensures
            r == self.lamports(addr),
    {
        self.read(addr).lamports
    }

    /// Reads the token balance at `addr`.
    pub fn token_balance_of(&self, addr: Address) -> (r: u64)
        ensures
            r == self.tokens(addr),
    {
        self.read(addr).tokens
    }

    /// Credits native funds to a principal's own account from outside the
    /// system (the genesis of every balance the components later move).
    pub fn airdrop(&mut self, recipient: u64, amount: u64) -> (r: Result<(), TransferError>)
        requires
            old(self).wf(),
        ensures
            final(self).wf(),
            r is Ok <==> old(self).lamports(Address::User { id: recipient }) + amount <= u64::MAX,
            r is Err ==> r == Err::<(), TransferError>(TransferError::Overflow) && *final(self)
                == *old(self),
            r is Ok ==> final(self).lamports(Address::User { id: recipient }) == old(self).lamports(
                Address::User { id: recipient },
            ) + amount,
            r is Ok ==> forall|a: Address|
                a != (Address::User { id: recipient }) ==> final(self).lamports(a) == old(self).lamports(a),
            forall|a: Address| final(self).tokens(a) == old(self).tokens(a),
    {
        let target = Address::User { id: recipient };
        let row = self.read(target);
        proof {
            lemma_entry_shape(self.accounts@, target);
        }
        if amount > u64::MAX - row.lamports {
            return Err(TransferError::Overflow);
        }
        self.write(Account { addr: target, lamports: row.lamports + amount, tokens: row.tokens });
        Ok(())
    }

    /// Credits freshly minted tokens to a principal's holding account from
    /// outside the system.
    pub fn mint_to(&mut self, owner: u64, mint: u64, amount: u64) -> (r: Result<
        (),
        TransferError,
    >)
        requires
            old(self).wf(),
        ensures
            final(self).wf(),
            r is Ok <==> old(self).tokens(Address::Holding { owner, mint }) + amount <= u64::MAX,
            r is Err ==> r == Err::<(), TransferError>(TransferError::Overflow) && *final(self)
                == *old(self),
            r is Ok ==> final(self).tokens(Address::Holding { owner, mint }) == old(self).tokens(
                Address::Holding { owner, mint },
            ) + amount,
            r is Ok ==> forall|a: Address|
                a != (Address::Holding { owner, mint }) ==> final(self).tokens(a) == old(self).tokens(a),
            forall|a: Address| final(self).lamports(a) == old(self).lamports(a),
    {
        let target = Address::Holding { owner, mint };
        let row = self.read(target);
        if amount > u64::MAX - row.tokens {
            return Err(TransferError::Overflow);
        }
        self.write(Account { addr: target, lamports: row.lamports, tokens: row.tokens + amount });
        Ok(())
    }
}

/// Exactly when a native transfer goes through, and which error it reports
/// when it does not.
pub open spec fn spec_transfer_check(
    l: Ledger,
    from: Address,
    to: Address,
    amount: u64,
    proof: AuthorityProof,
) -> Result<(), TransferError> {
    if !spec_authorizes(proof, from) {
        Err(TransferError::BadAuthority)
    } else if l.lamports(from) < amount {
        Err(TransferError::Insufficient { available: l.lamports(from) })
    } else if from != to && l.lamports(to) + amount > u64::MAX {
        Err(TransferError::Overflow)
    } else {
        Ok(())
    }
}

/// Exactly when a token transfer goes through, and which error it reports
/// when it does not.
pub open spec fn spec_transfer_checked_check(
    l: Ledger,
    from: Address,
    to: Address,
    amount: u64,
    proof: AuthorityProof,
) -> Result<(), TransferError> {
    if !spec_authorizes(proof, from) {
        Err(TransferError::BadAuthority)
    } else if !(spec_mint_of(from) is Some && spec_mint_of(to) == spec_mint_of(from)) {
        Err(TransferError::MintMismatch)
    } else if l.tokens(from) < amount {
        Err(TransferError::Insufficient { available: l.tokens(from) })
    } else if from != to && l.tokens(to) + amount > u64::MAX {
        Err(TransferError::Overflow)
    } else {
        Ok(())
    }
}

/// Exactly when closing an account goes through, and which error it reports
/// when it does not.
pub open spec fn spec_close_check(
    l: Ledger,
    account: Address,
    destination: Address,
    proof: AuthorityProof,
) -> Result<(), TransferError> {
    if !spec_authorizes(proof, account) {
        Err(TransferError::BadAuthority)
    } else if account == destination {
        Err(TransferError::InvalidDestination)
    } else if l.tokens(account) != 0 {
        Err(TransferError::AccountNotEmpty)
    } else if l.lamports(destination) + l.lamports(account) > u64::MAX {
        Err(TransferError::Overflow)
    } else {
        Ok(())
    }
}

impl Ledger {
    /// Moves `amount` of the native asset from `from` to `to`, provided the
    /// proof authorizes the debit. Atomic: on any error no balance changes.
    pub fn transfer(
        &mut self,
        from: Address,
        to: Address,
        amount: u64,
        proof: &AuthorityProof,
    ) -> (r: Result<(), TransferError>)
        requires
            old(self).wf(),
        ensures
            final(self).wf(),
            r == spec_transfer_check(*old(self), from, to, amount, *proof),
            r is Err || from == to ==> *final(self) == *old(self),
            r is Ok && from != to ==> {
                &&& final(self).lamports(from) == old(self).lamports(from) - amount
                &&& final(self).lamports(to) == old(self).lamports(to) + amount
                &&& forall|a: Address|
                    a != from && a != to ==> final(self).lamports(a) == old(self).lamports(a)
            },
            forall|a: Address| final(self).tokens(a) == old(self).tokens(a),
    {
        if !authorizes(proof, &from) {
            return Err(TransferError::BadAuthority);
        }
        let src = self.read(from);
        proof {
            lemma_entry_shape(self.accounts@, from);
        }
        if src.lamports < amount {
            return Err(TransferError::Insufficient { available: src.lamports });
        }
        if from == to {
            return Ok(());
        }
        let dst = self.read(to);
        proof {
            lemma_entry_shape(self.accounts@, to);
        }
        if amount > u64::MAX - dst.lamports {
            return Err(TransferError::Overflow);
        }
        self.write(Account { addr: from, lamports: src.lamports - amount, tokens: src.tokens });
        self.write(Account { addr: to, lamports: dst.lamports + amount, tokens: dst.tokens });
        Ok(())
    }

    /// Moves `amount` tokens between two accounts of the same mint, provided
    /// the proof authorizes the debit. Atomic: on any error no balance
    /// changes.
    pub fn transfer_checked(
        &mut self,
        from: Address,
        to: Address,
        amount: u64,
        proof: &AuthorityProof,
    ) -> (r: Result<(), TransferError>)
        requires
            old(self).wf(),
        ensures
            final(self).wf(),
            r == spec_transfer_checked_check(*old(self), from, to, amount, *proof),
            r is Err || from == to ==> *final(self) == *old(self),
            r is Ok && from != to ==> {
                &&& final(self).tokens(from) == old(self).tokens(from) - amount
                &&& final(self).tokens(to) == old(self).tokens(to) + amount
                &&& forall|a: Address|
                    a != from && a != to ==> final(self).tokens(a) == old(self).tokens(a)
            },
            forall|a: Address| final(self).lamports(a) == old(self).lamports(a),
    {
        if !authorizes(proof, &from) {
            return Err(TransferError::BadAuthority);
        }
        let mf = mint_of(&from);
        let mt = mint_of(&to);
        let mints_ok = match (mf, mt) {
            (Some(a), Some(b)) => a == b,
            _ => false,
        };
        if !mints_ok {
            return Err(TransferError::MintMismatch);
        }
        let src = self.read(from);
        proof {
            lemma_entry_shape(self.accounts@, from);
        }
        if src.tokens < amount {
            return Err(TransferError::Insufficient { available: src.tokens });
        }
        if from == to {
            return Ok(());
        }
        let dst = self.read(to);
        proof {
            lemma_entry_shape(self.accounts@, to);
        }
        if amount > u64::MAX - dst.tokens {
            return Err(TransferError::Overflow);
        }
        self.write(Account { addr: from, lamports: src.lamports, tokens: src.tokens - amount });
        self.write(Account { addr: to, lamports: dst.lamports, tokens: dst.tokens + amount });
        Ok(())
    }

    /// Closes `account`: moves its whole native balance to `destination`,
    /// after which the account reads as absent. A token account must be empty
    /// of tokens first. Atomic: on any error no balance changes.
    pub fn close_account(
        &mut self,
        account: Address,
        destination: Address,
        proof: &AuthorityProof,
    ) -> (r: Result<(), TransferError>)
        requires
            old(self).wf(),
        ensures
            final(self).wf(),
            r == spec_close_check(*old(self), account, destination, *proof),
            r is Err ==> *final(self) == *old(self),
            r is Ok ==> {
                &&& final(self).lamports(account) == 0
                &&& final(self).lamports(destination) == old(self).lamports(destination) + old(self).lamports(account)
                &&& forall|a: Address|
                    a != account && a != destination ==> final(self).lamports(a) == old(self).lamports(a)
            },
            forall|a: Address| final(self).tokens(a) == old(self).tokens(a),
    {
        if !authorizes(proof, &account) {
            return Err(TransferError::BadAuthority);
        }
        if account == destination {
            return Err(TransferError::InvalidDestination);
        }
        let src = self.read(account);
        proof {
            lemma_entry_shape(self.accounts@, account);
        }
        if src.tokens != 0 {
            return Err(TransferError::AccountNotEmpty);
        }
        let dst = self.read(destination);
        proof {
            lemma_entry_shape(self.accounts@, destination);
        }
        if src.lamports > u64::MAX - dst.lamports {
            return Err(TransferError::Overflow);
        }
        self.write(Account { addr: account, lamports: 0, tokens: 0 });
        self.write(
            Account { addr: destination, lamports: dst.lamports + src.lamports, tokens: dst.tokens },
        );
        Ok(())
    }
}

/// If the first match for `addr` sits at index `i`, the entry is that row.
proof fn lemma_entry_found(s: Seq<Account>, addr: Address, i: int)
    requires
        0 <= i < s.len(),
        s[i].addr == addr,
        forall|j: int| 0 <= j < i ==> s[j].addr != addr,
    ensures
        entry_in(s, addr) == s[i],
    decreases i,
{
    if i > 0 {
        lemma_entry_found(s.drop_first(), addr, i - 1);
    }
}

/// With no match anywhere, the entry is the all-zero row.
proof fn lemma_entry_absent(s: Seq<Account>, addr: Address)
    requires
        forall|j: int| 0 <= j < s.len() ==> s[j].addr != addr,
    ensures
        entry_in(s, addr) == default_account(addr),
    decreases s.len(),
{
    if s.len() > 0 {
        lemma_entry_absent(s.drop_first(), addr);
    }
}

/// The entry always carries the address it was asked for, and is either a row
/// of the sequence or the all-zero row.
proof fn lemma_entry_shape(s: Seq<Account>, addr: Address)
    ensures
        entry_in(s, addr).addr == addr,
        entry_in(s, addr) == default_account(addr) || exists|i: int|
            0 <= i < s.len() && s[i] == entry_in(s, addr),
    decreases s.len(),
{
    if s.len() > 0 && s[0].addr != addr {
        lemma_entry_shape(s.drop_first(), addr);
        if entry_in(s, addr) != default_account(addr) {
            let i: int = choose|i: int|
                0 <= i < s.drop_first().len() && s.drop_first()[i] == entry_in(
                    s.drop_first(),
                    addr,
                );
            assert(s[i + 1] == entry_in(s, addr));
        }
    }
}

/// Overwriting the row at `i` with one of the same address leaves every other
/// address's entry unchanged.
proof fn lemma_entry_update_frame(s: Seq<Account>, i: int, x: Account, addr: Address)
    requires
        0 <= i < s.len(),
        x.addr == s[i].addr,
        addr != x.addr,
    ensures
        entry_in(s.update(i, x), addr) == entry_in(s, addr),
    decreases s.len(),
{
    let t = s.update(i, x);
    if i == 0 {
        assert(t.drop_first() =~= s.drop_first());
    } else {
        if s[0].addr != addr {
            assert(t.drop_first() =~= s.drop_first().update(i - 1, x));
            lemma_entry_update_frame(s.drop_first(), i - 1, x, addr);
        }
    }
}

/// Appending a row leaves every other address's entry unchanged.
proof fn lemma_entry_push_frame(s: Seq<Account>, x: Account, addr: Address)
    requires
        addr != x.addr,
    ensures
        entry_in(s.push(x), addr) == entry_in(s, addr),
    decreases s.len(),
{
    let t = s.push(x);
    if s.len() == 0 {
        assert(t[0].addr != addr);
        assert(t.drop_first() =~= Seq::<Account>::empty());
    } else {
        if s[0].addr != addr {
            assert(t.drop_first() =~= s.drop_first().push(x));
            lemma_entry_push_frame(s.drop_first(), x, addr);
        }
    }
}

/// In a well-formed ledger, a native address holds no tokens.
pub proof fn lemma_native_holds_no_tokens(l: Ledger, addr: Address)
    requires
        l.wf(),
        spec_mint_of(addr) is None,
    ensures
        l.tokens(addr) == 0,
{
    lemma_entry_account_ok(l, addr);
}

/// In a well-formed ledger every entry is itself well formed and carries the
/// address it was asked for.
proof fn lemma_entry_account_ok(l: Ledger, addr: Address)
    requires
        l.wf(),
    ensures
        account_ok(entry_in_of(l, addr)),
        entry_in_of(l, addr).addr == addr,
{
    lemma_entry_shape(ledger_rows(l), addr);
}

/// The rows of a ledger, for in-module reasoning.
spec fn ledger_rows(l: Ledger) -> Seq<Account> {
    l.accounts@
}

/// The entry of a ledger, for in-module reasoning.
spec fn entry_in_of(l: Ledger, addr: Address) -> Account {
    entry_in(l.accounts@, addr)
}

} // verus!
