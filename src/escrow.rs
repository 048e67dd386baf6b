//! The escrow protocol: records keyed by (maker, seed), each with a vault of
//! the deposited asset, and the three transitions create, settle and cancel.
use vstd::prelude::*;

use crate::accounts::{
    asset_total, balance_in, credit, debit, has_account, held, keys_unique, HoldingAccount,
};
use crate::sums::{lemma_sum_nonneg, lemma_sum_push, lemma_sum_remove, sum_of};

verus! {

/// Seconds after creation during which neither settlement nor cancellation
/// may happen (five days).
pub const LOCK_DURATION: u64 = 432_000;

/// The asset type of the ledger's native currency, in which storage deposits
/// are paid. It cannot be exchanged through an escrow.
pub const NATIVE: u64 = 0;

/// What the maker pays in native currency to keep an escrow record stored.
pub const RECORD_DEPOSIT: u64 = 1_600_000;

/// What the maker pays in native currency to keep a vault stored.
pub const VAULT_DEPOSIT: u64 = 2_000_000;

/// The storage deposit held for one open escrow and returned on close.
pub const STORAGE_DEPOSIT: u64 = RECORD_DEPOSIT + VAULT_DEPOSIT;

/// The address of an escrow record: a pure function of its maker and seed.
#[derive(Clone, Copy, Debug, PartialEq, Eq, Structural)]
pub struct EscrowAddress {
    pub maker: u64,
    pub seed: u64,
}

/// The durable record of an open escrow: what was deposited, what is asked
/// in return, and when the escrow was created.
#[derive(Clone, Copy, Debug, PartialEq, Eq, Structural)]
pub struct EscrowRecord {
    pub seed: u64,
    pub maker: u64,
    pub asset_a: u64,
    pub asset_b: u64,
    /// The amount of asset B the maker asks in return.
    pub receive: u64,
    pub creation_time: u64,
}

/// Custody of the deposited asset, controlled only by its escrow's address.
#[derive(Clone, Copy, Debug, PartialEq, Eq, Structural)]
pub struct Vault {
    pub authority: EscrowAddress,
    pub asset: u64,
    pub amount: u64,
}

/// An open escrow: its record, its vault, and the storage deposit paid for both.
#[derive(Clone, Copy, Debug, PartialEq, Eq, Structural)]
pub struct EscrowEntry {
    pub record: EscrowRecord,
    pub vault: Vault,
    pub deposit: u64,
}

/// Why a transition was refused. A refused transition changes nothing.
#[derive(Clone, Copy, Debug, PartialEq, Eq, Structural)]
pub enum EscrowError {
    AlreadyExists,
    NotFound,
    Locked,
    Unauthorized,
    InsufficientFunds,
    AssetTypeMismatch,
    InvalidAmount,
    VaultNotEmpty,
    /// Issuing more of an asset would take its supply past `u64::MAX`.
    SupplyExceeded,
}

pub open spec fn address_of(maker: u64, seed: u64) -> EscrowAddress {
    EscrowAddress { maker, seed }
}

/// Derives the address of the escrow of `maker` with `seed`.
pub fn derive_address(maker: u64, seed: u64) -> (r: EscrowAddress)
    ensures
        r == address_of(maker, seed),
{
    EscrowAddress { maker, seed }
}

impl EscrowRecord {
    pub open spec fn address(self) -> EscrowAddress {
        address_of(self.maker, self.seed)
    }

    /// The first moment at which the record may be settled or cancelled.
    pub open spec fn unlock_time(self) -> int {
        self.creation_time + LOCK_DURATION
    }
}

impl Vault {
    /// Hands out everything the vault holds, under the authority of `signer`:
    /// only the escrow address that controls the vault may empty it.
    pub fn payout(&mut self, signer: EscrowAddress) -> (r: Result<u64, EscrowError>)
        ensures
            signer == old(self).authority ==> r == Ok::<u64, EscrowError>(old(self).amount)
                && *final(self) == (Vault { amount: 0, ..*old(self) }),
            signer != old(self).authority ==> r == Err::<u64, EscrowError>(
                EscrowError::Unauthorized,
            ) && *final(self) == *old(self),
    {
        if signer.maker != self.authority.maker || signer.seed != self.authority.seed {
            return Err(EscrowError::Unauthorized);
        }
        let amount = self.amount;
        self.amount = 0;
        Ok(amount)
    }

    /// Checks that the vault may be closed: closing one that still holds
    /// something fails with `VaultNotEmpty`.
    pub fn close(&self) -> (r: Result<(), EscrowError>)
        ensures
            r is Ok <==> self.amount == 0,
            r is Err ==> r == Err::<(), EscrowError>(EscrowError::VaultNotEmpty),
    {
        if self.amount != 0 {
            Err(EscrowError::VaultNotEmpty)
        } else {
            Ok(())
        }
    }
}

impl EscrowEntry {
    pub open spec fn key(self) -> EscrowAddress {
        self.record.address()
    }

    pub open spec fn wf(self) -> bool {
        &&& self.vault.authority == self.key()
        &&& self.vault.asset == self.record.asset_a
        &&& self.record.asset_a != self.record.asset_b
        &&& self.record.asset_a != NATIVE
        &&& self.record.asset_b != NATIVE
        &&& self.record.receive > 0
        &&& self.vault.amount > 0
        &&& self.deposit == STORAGE_DEPOSIT
    }
}

/// True when `now` lies at or after the end of the record's lock window.
pub fn is_unlocked(record: &EscrowRecord, now: u64) -> (r: bool)
    ensures
        r == (now >= record.unlock_time()),
{
    now >= record.creation_time && now - record.creation_time >= LOCK_DURATION
}

/// Weight of an open escrow in the supply of `asset`: its vault, and its
/// storage deposit where `asset` is the native currency.
pub open spec fn locked_w(asset: u64) -> spec_fn(EscrowEntry) -> int {
    |e: EscrowEntry|
        (if e.vault.asset == asset {
            e.vault.amount as int
        } else {
            0
        }) + (if asset == NATIVE {
            e.deposit as int
        } else {
            0
        })
}

pub open spec fn escrow_keys_unique(s: Seq<EscrowEntry>) -> bool {
    forall|i: int, j: int|
        0 <= i < s.len() && 0 <= j < s.len() && i != j ==> s[i].key() != s[j].key()
}

pub open spec fn has_escrow(s: Seq<EscrowEntry>, k: EscrowAddress) -> bool {
    exists|i: int| 0 <= i < s.len() && #[trigger] s[i].key() == k
}

/// The open escrow at address `k`, if any.
pub open spec fn escrow_of(s: Seq<EscrowEntry>, k: EscrowAddress) -> Option<EscrowEntry> {
    if has_escrow(s, k) {
        Some(s[choose|i: int| 0 <= i < s.len() && #[trigger] s[i].key() == k])
    } else {
        None
    }
}

/// The ledger seen as two sequences: holding accounts and open escrows.
pub struct LedgerView {
    pub accounts: Seq<HoldingAccount>,
    pub escrows: Seq<EscrowEntry>,
}

impl LedgerView {
    pub open spec fn balance(self, owner: u64, asset: u64) -> int {
        held(self.accounts, owner, asset)
    }

    pub open spec fn escrow(self, k: EscrowAddress) -> Option<EscrowEntry> {
        escrow_of(self.escrows, k)
    }

    /// All of `asset` that exists: in holding accounts, in vaults, and (for
    /// the native currency) in storage deposits.
    pub open spec fn supply(self, asset: u64) -> int {
        asset_total(self.accounts, asset) + sum_of(self.escrows, locked_w(asset))
    }

    pub open spec fn wf(self) -> bool {
        &&& keys_unique(self.accounts)
        &&& escrow_keys_unique(self.escrows)
        &&& forall|i: int| 0 <= i < self.escrows.len() ==> (#[trigger] self.escrows[i]).wf()
        &&& forall|a: u64| #[trigger] self.supply(a) <= u64::MAX
    }

    pub open spec fn same_supply(self, other: LedgerView) -> bool {
        forall|a: u64| #[trigger] other.supply(a) == self.supply(a)
    }

    /// Every escrow other than the one at `k` is as it was in `other`.
    pub open spec fn other_escrows_kept(self, other: LedgerView, k: EscrowAddress) -> bool {
        forall|k2: EscrowAddress| k2 != k ==> #[trigger] self.escrow(k2) == other.escrow(k2)
    }
}

/// Which error, if any, creating the escrow of `maker` with `seed` meets.
pub open spec fn create_outcome(
    v: LedgerView,
    maker: u64,
    seed: u64,
    asset_a: u64,
    asset_b: u64,
    deposit: u64,
    receive: u64,
) -> Result<EscrowAddress, EscrowError> {
    if v.escrow(address_of(maker, seed)) is Some {
        Err(EscrowError::AlreadyExists)
    } else if deposit == 0 || receive == 0 {
        Err(EscrowError::InvalidAmount)
    } else if asset_a == asset_b || asset_a == NATIVE || asset_b == NATIVE {
        Err(EscrowError::AssetTypeMismatch)
    } else if v.balance(maker, asset_a) < deposit || v.balance(maker, NATIVE) < STORAGE_DEPOSIT {
        Err(EscrowError::InsufficientFunds)
    } else {
        Ok(address_of(maker, seed))
    }
}

/// The escrow that a successful create opens.
pub open spec fn created_entry(
    maker: u64,
    seed: u64,
    asset_a: u64,
    asset_b: u64,
    deposit: u64,
    receive: u64,
    now: u64,
) -> EscrowEntry {
    EscrowEntry {
        record: EscrowRecord { seed, maker, asset_a, asset_b, receive, creation_time: now },
        vault: Vault { authority: address_of(maker, seed), asset: asset_a, amount: deposit },
        deposit: STORAGE_DEPOSIT,
    }
}

/// What a successful create takes from the balance of `owner` in `asset`.
pub open spec fn create_cost(maker: u64, asset_a: u64, deposit: u64, owner: u64, asset: u64) -> int {
    (if owner == maker && asset == asset_a {
        deposit as int
    } else {
        0
    }) + (if owner == maker && asset == NATIVE {
        STORAGE_DEPOSIT as int
    } else {
        0
    })
}

/// `v1` is what create leaves of `v0`, with result `r`.
pub open spec fn create_post(
    v0: LedgerView,
    v1: LedgerView,
    maker: u64,
    seed: u64,
    asset_a: u64,
    asset_b: u64,
    deposit: u64,
    receive: u64,
    now: u64,
    r: Result<EscrowAddress, EscrowError>,
) -> bool {
    &&& r == create_outcome(v0, maker, seed, asset_a, asset_b, deposit, receive)
    &&& r is Err ==> v1 == v0
    &&& r is Ok ==> {
        &&& forall|o: u64, a: u64| #[trigger]
            v1.balance(o, a) == v0.balance(o, a) - create_cost(maker, asset_a, deposit, o, a)
        &&& v1.escrow(address_of(maker, seed)) == Some(
            created_entry(maker, seed, asset_a, asset_b, deposit, receive, now),
        )
        &&& v1.other_escrows_kept(v0, address_of(maker, seed))
        &&& v0.same_supply(v1)
    }
}

/// Which error, if any, settling the escrow at `k` by `taker` meets at `now`.
pub open spec fn settle_outcome(v: LedgerView, taker: u64, k: EscrowAddress, now: u64) -> Result<
    (),
    EscrowError,
> {
    match v.escrow(k) {
        None => Err(EscrowError::NotFound),
        Some(e) => if now < e.record.unlock_time() {
            Err(EscrowError::Locked)
        } else if v.balance(taker, e.record.asset_b) < e.record.receive {
            Err(EscrowError::InsufficientFunds)
        } else {
            Ok(())
        },
    }
}

/// How a settlement of `e` by `taker` changes the balance of `owner` in `asset`:
/// the vault goes to the taker, the asked amount of asset B from the taker to
/// the maker, and the storage deposit back to the maker.
pub open spec fn settle_delta(e: EscrowEntry, taker: u64, owner: u64, asset: u64) -> int {
    (if owner == taker && asset == e.record.asset_a {
        e.vault.amount as int
    } else {
        0
    }) - (if owner == taker && asset == e.record.asset_b {
        e.record.receive as int
    } else {
        0
    }) + (if owner == e.record.maker && asset == e.record.asset_b {
        e.record.receive as int
    } else {
        0
    }) + (if owner == e.record.maker && asset == NATIVE {
        e.deposit as int
    } else {
        0
    })
}

/// `v1` is what settle leaves of `v0`, with result `r`. On success the
/// taker's account in asset A and the maker's in asset B exist, opened where
/// they were absent.
pub open spec fn settle_post(
    v0: LedgerView,
    v1: LedgerView,
    taker: u64,
    k: EscrowAddress,
    now: u64,
    r: Result<(), EscrowError>,
) -> bool {
    &&& r == settle_outcome(v0, taker, k, now)
    &&& r is Err ==> v1 == v0
    &&& r is Ok ==> {
        &&& forall|o: u64, a: u64| #[trigger]
            v1.balance(o, a) == v0.balance(o, a) + settle_delta(v0.escrow(k)->Some_0, taker, o, a)
        &&& has_account(v1.accounts, taker, v0.escrow(k)->Some_0.record.asset_a)
        &&& has_account(v1.accounts, v0.escrow(k)->Some_0.record.maker, v0.escrow(k)->Some_0.record.asset_b)
        &&& v1.escrow(k) is None
        &&& v1.other_escrows_kept(v0, k)
        &&& v0.same_supply(v1)
    }
}

/// Which error, if any, cancelling the escrow at `k` by `caller` meets at `now`.
pub open spec fn cancel_outcome(v: LedgerView, caller: u64, k: EscrowAddress, now: u64) -> Result<
    (),
    EscrowError,
> {
    match v.escrow(k) {
        None => Err(EscrowError::NotFound),
        Some(e) => if now < e.record.unlock_time() {
            Err(EscrowError::Locked)
        } else if caller != e.record.maker {
            Err(EscrowError::Unauthorized)
        } else {
            Ok(())
        },
    }
}

/// How a cancellation of `e` changes the balance of `owner` in `asset`: the
/// vault and the storage deposit go back to the maker.
pub open spec fn refund_delta(e: EscrowEntry, owner: u64, asset: u64) -> int {
    (if owner == e.record.maker && asset == e.record.asset_a {
        e.vault.amount as int
    } else {
        0
    }) + (if owner == e.record.maker && asset == NATIVE {
        e.deposit as int
    } else {
        0
    })
}

/// `v1` is what cancel leaves of `v0`, with result `r`. On success the
/// maker's account in asset A exists.
pub open spec fn cancel_post(
    v0: LedgerView,
    v1: LedgerView,
    caller: u64,
    k: EscrowAddress,
    now: u64,
    r: Result<(), EscrowError>,
) -> bool {
    &&& r == cancel_outcome(v0, caller, k, now)
    &&& r is Err ==> v1 == v0
    &&& r is Ok ==> {
        &&& forall|o: u64, a: u64| #[trigger]
            v1.balance(o, a) == v0.balance(o, a) + refund_delta(v0.escrow(k)->Some_0, o, a)
        &&& has_account(v1.accounts, caller, v0.escrow(k)->Some_0.record.asset_a)
        &&& v1.escrow(k) is None
        &&& v1.other_escrows_kept(v0, k)
        &&& v0.same_supply(v1)
    }
}

proof fn lemma_escrow_at(s: Seq<EscrowEntry>, i: int)
    requires
        escrow_keys_unique(s),
        0 <= i < s.len(),
    ensures
        escrow_of(s, s[i].key()) == Some(s[i]),
{
    assert(has_escrow(s, s[i].key()));
}

proof fn lemma_escrow_absent(s: Seq<EscrowEntry>, k: EscrowAddress)
    requires
        escrow_of(s, k) is None,
    ensures
        forall|i: int| 0 <= i < s.len() ==> #[trigger] s[i].key() != k,
{
}

proof fn lemma_escrow_remove(s: Seq<EscrowEntry>, i: int)
    requires
        escrow_keys_unique(s),
        0 <= i < s.len(),
    ensures
        escrow_keys_unique(s.remove(i)),
        escrow_of(s.remove(i), s[i].key()) is None,
        forall|k: EscrowAddress|
            k != s[i].key() ==> #[trigger] escrow_of(s.remove(i), k) == escrow_of(s, k),
        forall|j: int| 0 <= j < s.remove(i).len() ==> exists|m: int| 0 <= m < s.len() && #[trigger] s.remove(i)[j] == s[m],
{
    let t = s.remove(i);
    assert forall|j: int| 0 <= j < t.len() implies #[trigger] t[j] == s[if j < i { j } else { j + 1 }] by {}
    assert forall|j: int| 0 <= j < t.len() implies exists|m: int| 0 <= m < s.len() && #[trigger] t[j] == s[m] by {
        assert(t[j] == s[if j < i { j } else { j + 1 }]);
    }
    assert forall|a: int, b: int| 0 <= a < t.len() && 0 <= b < t.len() && a != b implies t[a].key() != t[b].key() by {
        assert(t[a] == s[if a < i { a } else { a + 1 }]);
        assert(t[b] == s[if b < i { b } else { b + 1 }]);
    }
    if has_escrow(t, s[i].key()) {
        let j = choose|j: int| 0 <= j < t.len() && #[trigger] t[j].key() == s[i].key();
        assert(t[j] == s[if j < i { j } else { j + 1 }]);
    }
    assert forall|k: EscrowAddress| k != s[i].key() implies #[trigger] escrow_of(t, k) == escrow_of(s, k) by {
        if has_escrow(s, k) {
            let m = choose|m: int| 0 <= m < s.len() && #[trigger] s[m].key() == k;
            let j = if m < i { m } else { m - 1 };
            assert(t[j] == s[m]);
            assert(has_escrow(t, k));
            lemma_escrow_at(t, j);
            lemma_escrow_at(s, m);
        } else {
            if has_escrow(t, k) {
                let j = choose|j: int| 0 <= j < t.len() && #[trigger] t[j].key() == k;
                assert(t[j] == s[if j < i { j } else { j + 1 }]);
            }
        }
    }
}

proof fn lemma_escrow_push(s: Seq<EscrowEntry>, e: EscrowEntry)
    requires
        escrow_keys_unique(s),
        escrow_of(s, e.key()) is None,
    ensures
        escrow_keys_unique(s.push(e)),
        escrow_of(s.push(e), e.key()) == Some(e),
        forall|k: EscrowAddress| k != e.key() ==> #[trigger] escrow_of(s.push(e), k) == escrow_of(s, k),
{
    let t = s.push(e);
    lemma_escrow_absent(s, e.key());
    assert forall|a: int, b: int| 0 <= a < t.len() && 0 <= b < t.len() && a != b implies t[a].key() != t[b].key() by {
        if a < s.len() {
            assert(t[a] == s[a]);
        }
        if b < s.len() {
            assert(t[b] == s[b]);
        }
    }
    assert(t[s.len() as int] == e);
    lemma_escrow_at(t, s.len() as int);
    assert forall|k: EscrowAddress| k != e.key() implies #[trigger] escrow_of(t, k) == escrow_of(s, k) by {
        if has_escrow(s, k) {
            let m = choose|m: int| 0 <= m < s.len() && #[trigger] s[m].key() == k;
            assert(t[m] == s[m]);
            lemma_escrow_at(t, m);
            lemma_escrow_at(s, m);
        } else if has_escrow(t, k) {
            let j = choose|j: int| 0 <= j < t.len() && #[trigger] t[j].key() == k;
            assert(t[j] == s[j]);
        }
    }
}

/// The whole state of the protocol: every holding account and every open escrow.
pub struct Ledger {
    accounts: Vec<HoldingAccount>,
    escrows: Vec<EscrowEntry>,
}

impl View for Ledger {
    type V = LedgerView;

    closed spec fn view(&self) -> LedgerView {
        LedgerView { accounts: self.accounts@, escrows: self.escrows@ }
    }
}

proof fn lemma_locked_nonneg(s: Seq<EscrowEntry>, a: u64)
    ensures
        sum_of(s, locked_w(a)) >= 0,
{
    lemma_sum_nonneg(s, locked_w(a));
}

/// Every entry of `t` is some entry of `s`, so the entries of `t` are well formed.
proof fn lemma_entries_wf(s: Seq<EscrowEntry>, t: Seq<EscrowEntry>)
    requires
        forall|i: int| 0 <= i < s.len() ==> (#[trigger] s[i]).wf(),
        forall|j: int| 0 <= j < t.len() ==> exists|m: int| 0 <= m < s.len() && #[trigger] t[j] == s[m],
    ensures
        forall|j: int| 0 <= j < t.len() ==> (#[trigger] t[j]).wf(),
{
    assert forall|j: int| 0 <= j < t.len() implies (#[trigger] t[j]).wf() by {
        let m = choose|m: int| 0 <= m < s.len() && t[j] == s[m];
        assert(s[m].wf());
    }
}

impl Ledger {
    /// A ledger with no holding accounts and no escrows.
    pub fn new() -> (r: Ledger)
        ensures
            r@.wf(),
            forall|o: u64, a: u64| #[trigger] r@.balance(o, a) == 0,
            forall|k: EscrowAddress| #[trigger] r@.escrow(k) is None,
            forall|a: u64| #[trigger] r@.supply(a) == 0,
            r@.escrows.len() == 0,
    {
        let r = Ledger { accounts: Vec::new(), escrows: Vec::new() };
        proof {
            assert forall|o: u64, a: u64| #[trigger] r@.balance(o, a) == 0 by {
                crate::accounts::lemma_held_absent(r@.accounts, o, a);
            }
            assert forall|a: u64| #[trigger] r@.supply(a) == 0 by {
                assert(asset_total(r@.accounts, a) == 0);
                assert(sum_of(r@.escrows, locked_w(a)) == 0);
            }
        }
        r
    }

    /// The balance of `owner` in `asset`.
    pub fn balance(&self, owner: u64, asset: u64) -> (r: u64)
        requires
            self@.wf(),
        ensures
            r == self@.balance(owner, asset),
    {
        balance_in(&self.accounts, owner, asset)
    }

    fn find_escrow(&self, k: EscrowAddress) -> (r: Option<usize>)
        requires
            self@.wf(),
        ensures
            match r {
                Some(i) => i < self@.escrows.len() && self@.escrows[i as int].key() == k
                    && self@.escrow(k) == Some(self@.escrows[i as int]),
                None => self@.escrow(k) is None,
            },
    {
        let mut i: usize = 0;
        while i < self.escrows.len()
            invariant
                i <= self@.escrows.len(),
                self@.wf(),
                forall|j: int| 0 <= j < i ==> #[trigger] self@.escrows[j].key() != k,
            decreases self@.escrows.len() - i,
        {
            let r = self.escrows[i].record;
            if r.maker == k.maker && r.seed == k.seed {
                proof {
                    lemma_escrow_at(self@.escrows, i as int);
                }
                return Some(i);
            }
            i = i + 1;
        }
        None
    }

    /// The open escrow at `k`, if any.
    pub fn escrow(&self, k: EscrowAddress) -> (r: Option<EscrowEntry>)
        requires
            self@.wf(),
        ensures
            r == self@.escrow(k),
    {
        match self.find_escrow(k) {
            Some(i) => Some(self.escrows[i]),
            None => None,
        }
    }

    /// All of `asset` that exists on the ledger, deposits in custody included.
    pub fn supply(&self, asset: u64) -> (r: u64)
        requires
            self@.wf(),
        ensures
            r == self@.supply(asset),
    {
        let ghost accts = self@.accounts;
        let ghost escs = self@.escrows;
        let ghost wa = crate::accounts::asset_w(asset);
        let ghost we = locked_w(asset);
        proof {
            lemma_locked_nonneg(escs, asset);
            crate::sums::lemma_sum_nonneg(accts, wa);
        }
        let mut total: u64 = 0;
        let mut i: usize = 0;
        while i < self.accounts.len()
            invariant
                i <= accts.len(),
                accts == self@.accounts,
                self@.wf(),
                total == sum_of(accts.take(i as int), wa),
                sum_of(escs, we) >= 0,
                escs == self@.escrows,
                wa == crate::accounts::asset_w(asset),
                we == locked_w(asset),
            decreases accts.len() - i,
        {
            proof {
                assert(accts.take(i + 1).drop_last() =~= accts.take(i as int));
                assert(accts =~= accts.take(i + 1) + accts.skip(i + 1));
                crate::sums::lemma_sum_concat(accts.take(i + 1), accts.skip(i + 1), wa);
                crate::sums::lemma_sum_nonneg(accts.skip(i + 1), wa);
                assert(self@.supply(asset) <= u64::MAX);
            }
            let h = self.accounts[i];
            if h.asset == asset {
                total = total + h.amount;
            }
            i = i + 1;
        }
        proof {
            assert(accts.take(i as int) =~= accts);
        }
        let mut j: usize = 0;
        while j < self.escrows.len()
            invariant
                j <= escs.len(),
                escs == self@.escrows,
                self@.wf(),
                total == asset_total(accts, asset) + sum_of(escs.take(j as int), we),
                accts == self@.accounts,
                we == locked_w(asset),
            decreases escs.len() - j,
        {
            proof {
                assert(escs.take(j + 1).drop_last() =~= escs.take(j as int));
                assert(escs =~= escs.take(j + 1) + escs.skip(j + 1));
                crate::sums::lemma_sum_concat(escs.take(j + 1), escs.skip(j + 1), we);
                lemma_locked_nonneg(escs.skip(j + 1), asset);
                assert(self@.supply(asset) <= u64::MAX);
                assert(self@.escrows[j as int].wf());
            }
            let e = self.escrows[j];
            if e.vault.asset == asset {
                total = total + e.vault.amount;
            }
            if asset == NATIVE {
                total = total + e.deposit;
            }
            j = j + 1;
        }
        proof {
            assert(escs.take(j as int) =~= escs);
        }
        total
    }

    /// Issues `amount` of `asset` to `owner`, opening the holding account if
    /// needed. Fails with `SupplyExceeded` where the asset's supply would no
    /// longer fit in a `u64`.
    pub fn mint_to(&mut self, owner: u64, asset: u64, amount: u64) -> (r: Result<(), EscrowError>)
        requires
            old(self)@.wf(),
        ensures
            final(self)@.wf(),
            (r is Ok) == (old(self)@.supply(asset) + amount <= u64::MAX),
            r is Err ==> r == Err::<(), EscrowError>(EscrowError::SupplyExceeded) && final(self)@
                == old(self)@,
            r is Ok ==> {
                &&& forall|o: u64, a: u64| #[trigger]
                    final(self)@.balance(o, a) == old(self)@.balance(o, a) + if o == owner && a
                        == asset {
                        amount as int
                    } else {
                        0
                    }
                &&& forall|a: u64| #[trigger]
                    final(self)@.supply(a) == old(self)@.supply(a) + if a == asset {
                        amount as int
                    } else {
                        0
                    }
                &&& final(self)@.escrows == old(self)@.escrows
            },
    {
        let s = self.supply(asset);
        if amount > u64::MAX - s {
            return Err(EscrowError::SupplyExceeded);
        }
        proof {
            lemma_locked_nonneg(self@.escrows, asset);
        }
        credit(&mut self.accounts, owner, asset, amount);
        proof {
            assert forall|a: u64| #[trigger] self@.supply(a) <= u64::MAX by {
                assert(old(self)@.supply(a) <= u64::MAX);
            }
        }
        Ok(())
    }

    /// Opens the escrow of `maker` with `seed`: moves `deposit` of `asset_a`
    /// from the maker into a new vault, and the storage deposit from the
    /// maker's native balance into custody, asking `receive` of `asset_b` in
    /// return. Nothing changes where it fails.
    pub fn create_escrow(
        &mut self,
        maker: u64,
        seed: u64,
        asset_a: u64,
        asset_b: u64,
        deposit: u64,
        receive: u64,
        now: u64,
    ) -> (r: Result<EscrowAddress, EscrowError>)
        requires
            old(self)@.wf(),
        ensures
            final(self)@.wf(),
            create_post(old(self)@, final(self)@, maker, seed, asset_a, asset_b, deposit, receive, now, r),
    {
        let k = derive_address(maker, seed);
        if self.find_escrow(k).is_some() {
            return Err(EscrowError::AlreadyExists);
        }
        if deposit == 0 || receive == 0 {
            return Err(EscrowError::InvalidAmount);
        }
        if asset_a == asset_b || asset_a == NATIVE || asset_b == NATIVE {
            return Err(EscrowError::AssetTypeMismatch);
        }
        if balance_in(&self.accounts, maker, asset_a) < deposit || balance_in(
            &self.accounts,
            maker,
            NATIVE,
        ) < STORAGE_DEPOSIT {
            return Err(EscrowError::InsufficientFunds);
        }
        let ghost v0 = self@;
        debit(&mut self.accounts, maker, asset_a, deposit);
        debit(&mut self.accounts, maker, NATIVE, STORAGE_DEPOSIT);
        let e = EscrowEntry {
            record: EscrowRecord { seed, maker, asset_a, asset_b, receive, creation_time: now },
            vault: Vault { authority: k, asset: asset_a, amount: deposit },
            deposit: STORAGE_DEPOSIT,
        };
        proof {
            lemma_escrow_push(self@.escrows, e);
            assert forall|a: u64| #[trigger]
                sum_of(self@.escrows.push(e), locked_w(a)) == sum_of(self@.escrows, locked_w(a))
                    + locked_w(a)(e) by {
                lemma_sum_push(self@.escrows, e, locked_w(a));
            }
        }
        self.escrows.push(e);
        proof {
            assert forall|a: u64| #[trigger] self@.supply(a) == v0.supply(a) by {}
            assert forall|a: u64| #[trigger] self@.supply(a) <= u64::MAX by {
                assert(v0.supply(a) <= u64::MAX);
            }
            assert forall|i: int| 0 <= i < self@.escrows.len() implies (#[trigger] self@.escrows[i]).wf() by {
                if i < v0.escrows.len() {
                    assert(self@.escrows[i] == v0.escrows[i]);
                }
            }
            assert forall|o: u64, a: u64| #[trigger] self@.balance(o, a) == v0.balance(o, a)
                - create_cost(maker, asset_a, deposit, o, a) by {}
        }
        Ok(k)
    }

    /// Settles the escrow at `k` for `taker`: the vault goes to the taker,
    /// `receive` of asset B goes from the taker to the maker, and the record,
    /// the vault and the storage deposit are released to the maker. Nothing
    /// changes where it fails.
    pub fn settle_escrow(&mut self, taker: u64, k: EscrowAddress, now: u64) -> (r: Result<
        (),
        EscrowError,
    >)
        requires
            old(self)@.wf(),
        ensures
            final(self)@.wf(),
            settle_post(old(self)@, final(self)@, taker, k, now, r),
    {
        let i = match self.find_escrow(k) {
            None => {
                return Err(EscrowError::NotFound);
            },
            Some(i) => i,
        };
        let e = self.escrows[i];
        if !is_unlocked(&e.record, now) {
            return Err(EscrowError::Locked);
        }
        if balance_in(&self.accounts, taker, e.record.asset_b) < e.record.receive {
            return Err(EscrowError::InsufficientFunds);
        }
        let mut vault = e.vault;
        let paid = match vault.payout(k) {
            Ok(amount) => amount,
            Err(err) => {
                return Err(err);
            },
        };
        if let Err(err) = vault.close() {
            return Err(err);
        }
        let ghost v0 = self@;
        proof {
            assert(v0.escrows[i as int].wf());
            lemma_escrow_remove(v0.escrows, i as int);
            assert forall|a: u64| #[trigger]
                sum_of(v0.escrows.remove(i as int), locked_w(a)) == sum_of(v0.escrows, locked_w(a))
                    - locked_w(a)(e) by {
                lemma_sum_remove(v0.escrows, i as int, locked_w(a));
            }
            lemma_entries_wf(v0.escrows, v0.escrows.remove(i as int));
        }
        self.escrows.remove(i);
        let ghost s1 = self@;
        proof {
            lemma_locked_nonneg(s1.escrows, e.record.asset_a);
            lemma_locked_nonneg(s1.escrows, e.record.asset_b);
            lemma_locked_nonneg(s1.escrows, NATIVE);
            assert(v0.supply(e.record.asset_a) <= u64::MAX);
            assert(v0.supply(e.record.asset_b) <= u64::MAX);
            assert(v0.supply(NATIVE) <= u64::MAX);
        }
        credit(&mut self.accounts, taker, e.record.asset_a, paid);
        debit(&mut self.accounts, taker, e.record.asset_b, e.record.receive);
        credit(&mut self.accounts, e.record.maker, e.record.asset_b, e.record.receive);
        credit(&mut self.accounts, e.record.maker, NATIVE, e.deposit);
        proof {
            assert forall|a: u64| #[trigger] self@.supply(a) == v0.supply(a) by {}
            assert forall|a: u64| #[trigger] self@.supply(a) <= u64::MAX by {
                assert(v0.supply(a) <= u64::MAX);
            }
            assert forall|o: u64, a: u64| #[trigger] self@.balance(o, a) == v0.balance(o, a)
                + settle_delta(e, taker, o, a) by {}
        }
        Ok(())
    }

    /// Cancels the escrow at `k` on behalf of its maker: the vault and the
    /// storage deposit go back to the maker, and the record and the vault are
    /// closed. Nothing changes where it fails.
    pub fn cancel_escrow(&mut self, maker: u64, k: EscrowAddress, now: u64) -> (r: Result<
        (),
        EscrowError,
    >)
        requires
            old(self)@.wf(),
        ensures
            final(self)@.wf(),
            cancel_post(old(self)@, final(self)@, maker, k, now, r),
    {
        let i = match self.find_escrow(k) {
            None => {
                return Err(EscrowError::NotFound);
            },
            Some(i) => i,
        };
        let e = self.escrows[i];
        if !is_unlocked(&e.record, now) {
            return Err(EscrowError::Locked);
        }
        if maker != e.record.maker {
            return Err(EscrowError::Unauthorized);
        }
        let mut vault = e.vault;
        let paid = match vault.payout(k) {
            Ok(amount) => amount,
            Err(err) => {
                return Err(err);
            },
        };
        if let Err(err) = vault.close() {
            return Err(err);
        }
        let ghost v0 = self@;
        proof {
            assert(v0.escrows[i as int].wf());
            lemma_escrow_remove(v0.escrows, i as int);
            assert forall|a: u64| #[trigger]
                sum_of(v0.escrows.remove(i as int), locked_w(a)) == sum_of(v0.escrows, locked_w(a))
                    - locked_w(a)(e) by {
                lemma_sum_remove(v0.escrows, i as int, locked_w(a));
            }
            lemma_entries_wf(v0.escrows, v0.escrows.remove(i as int));
        }
        self.escrows.remove(i);
        let ghost s1 = self@;
        proof {
            lemma_locked_nonneg(s1.escrows, e.record.asset_a);
            lemma_locked_nonneg(s1.escrows, NATIVE);
            assert(v0.supply(e.record.asset_a) <= u64::MAX);
            assert(v0.supply(NATIVE) <= u64::MAX);
        }
        credit(&mut self.accounts, maker, e.record.asset_a, paid);
        credit(&mut self.accounts, maker, NATIVE, e.deposit);
        proof {
            assert forall|a: u64| #[trigger] self@.supply(a) == v0.supply(a) by {}
            assert forall|a: u64| #[trigger] self@.supply(a) <= u64::MAX by {
                assert(v0.supply(a) <= u64::MAX);
            }
            assert forall|o: u64, a: u64| #[trigger] self@.balance(o, a) == v0.balance(o, a)
                + refund_delta(e, o, a) by {}
        }
        Ok(())
    }
}

} // verus!
