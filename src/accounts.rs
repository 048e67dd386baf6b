//! Holding accounts: one balance per (owner, asset type), kept in a vector
//! whose keys are unique. Balances are read as sums over the vector, so that
//! moving an amount between two entries visibly leaves each asset's total alone.
use vstd::prelude::*;

use crate::sums::{lemma_sum_bound, lemma_sum_push, lemma_sum_single, lemma_sum_update, lemma_sum_zero, sum_of};

verus! {

/// A balance of one asset type owned by one party.
#[derive(Clone, Copy, Debug, PartialEq, Eq)]
pub struct HoldingAccount {
    pub owner: u64,
    pub asset: u64,
    pub amount: u64,
}

/// Weight of an entry in the balance of `owner` in `asset`.
pub open spec fn held_w(owner: u64, asset: u64) -> spec_fn(HoldingAccount) -> int {
    |h: HoldingAccount|
        if h.owner == owner && h.asset == asset {
            h.amount as int
        } else {
            0
        }
}

/// Weight of an entry in the total of `asset` over all holders.
pub open spec fn asset_w(asset: u64) -> spec_fn(HoldingAccount) -> int {
    |h: HoldingAccount|
        if h.asset == asset {
            h.amount as int
        } else {
            0
        }
}

/// The balance of `owner` in `asset`; zero where no account exists.
pub open spec fn held(s: Seq<HoldingAccount>, owner: u64, asset: u64) -> int {
    sum_of(s, held_w(owner, asset))
}

/// How much of `asset` all holding accounts together hold.
pub open spec fn asset_total(s: Seq<HoldingAccount>, asset: u64) -> int {
    sum_of(s, asset_w(asset))
}

pub open spec fn has_account(s: Seq<HoldingAccount>, owner: u64, asset: u64) -> bool {
    exists|i: int| 0 <= i < s.len() && s[i].owner == owner && s[i].asset == asset
}

/// No two entries share an (owner, asset type) pair.
pub open spec fn keys_unique(s: Seq<HoldingAccount>) -> bool {
    forall|i: int, j: int|
        0 <= i < s.len() && 0 <= j < s.len() && i != j ==> !(s[i].owner == s[j].owner && s[i].asset
            == s[j].asset)
}

/// Where entry `i` is the account of `owner` in `asset`, the balance is its amount.
pub proof fn lemma_held_at(s: Seq<HoldingAccount>, i: int, owner: u64, asset: u64)
    requires
        keys_unique(s),
        0 <= i < s.len(),
        s[i].owner == owner,
        s[i].asset == asset,
    ensures
        held(s, owner, asset) == s[i].amount,
{
    assert forall|j: int| 0 <= j < s.len() && j != i implies #[trigger] held_w(owner, asset)(s[j])
        == 0 by {}
    lemma_sum_single(s, i, held_w(owner, asset));
}

/// Without an account the balance is zero.
pub proof fn lemma_held_absent(s: Seq<HoldingAccount>, owner: u64, asset: u64)
    requires
        !has_account(s, owner, asset),
    ensures
        held(s, owner, asset) == 0,
{
    assert forall|j: int| 0 <= j < s.len() implies #[trigger] held_w(owner, asset)(s[j]) == 0 by {}
    lemma_sum_zero(s, held_w(owner, asset));
}

/// One balance is no more than the total of its asset.
pub proof fn lemma_held_le_total(s: Seq<HoldingAccount>, owner: u64, asset: u64)
    requires
        keys_unique(s),
    ensures
        0 <= held(s, owner, asset) <= asset_total(s, asset),
{
    if has_account(s, owner, asset) {
        let i = choose|i: int| 0 <= i < s.len() && s[i].owner == owner && s[i].asset == asset;
        lemma_held_at(s, i, owner, asset);
        lemma_sum_bound(s, i, asset_w(asset));
    } else {
        lemma_held_absent(s, owner, asset);
        crate::sums::lemma_sum_nonneg(s, asset_w(asset));
    }
}

/// Replacing entry `i` by one with the same key and another amount.
proof fn lemma_set_amount(s: Seq<HoldingAccount>, i: int, v: HoldingAccount)
    requires
        0 <= i < s.len(),
        v.owner == s[i].owner,
        v.asset == s[i].asset,
    ensures
        forall|o: u64, a: u64|
            #[trigger] held(s.update(i, v), o, a) == held(s, o, a) + if o == v.owner && a
                == v.asset {
                v.amount - s[i].amount
            } else {
                0
            },
        forall|a: u64|
            #[trigger] asset_total(s.update(i, v), a) == asset_total(s, a) + if a == v.asset {
                v.amount - s[i].amount
            } else {
                0
            },
{
    assert forall|o: u64, a: u64|
        #[trigger] held(s.update(i, v), o, a) == held(s, o, a) + if o == v.owner && a
            == v.asset {
            v.amount - s[i].amount
        } else {
            0
        } by {
        lemma_sum_update(s, i, v, held_w(o, a));
    }
    assert forall|a: u64|
        #[trigger] asset_total(s.update(i, v), a) == asset_total(s, a) + if a == v.asset {
            v.amount - s[i].amount
        } else {
            0
        } by {
        lemma_sum_update(s, i, v, asset_w(a));
    }
}

/// The index of the account of `owner` in `asset`, if there is one.
pub fn find_account(accounts: &Vec<HoldingAccount>, owner: u64, asset: u64) -> (r: Option<usize>)
    ensures
        match r {
            Some(i) => i < accounts@.len() && accounts@[i as int].owner == owner
                && accounts@[i as int].asset == asset,
            None => !has_account(accounts@, owner, asset),
        },
{
    let mut i: usize = 0;
    while i < accounts.len()
        invariant
            i <= accounts@.len(),
            forall|j: int|
                0 <= j < i ==> !(#[trigger] accounts@[j].owner == owner && accounts@[j].asset
                    == asset),
        decreases accounts@.len() - i,
    {
        if accounts[i].owner == owner && accounts[i].asset == asset {
            return Some(i);
        }
        i = i + 1;
    }
    None
}

/// The balance of `owner` in `asset`.
pub fn balance_in(accounts: &Vec<HoldingAccount>, owner: u64, asset: u64) -> (r: u64)
    requires
        keys_unique(accounts@),
    ensures
        r == held(accounts@, owner, asset),
{
    match find_account(accounts, owner, asset) {
        Some(i) => {
            proof {
                lemma_held_at(accounts@, i as int, owner, asset);
            }
            accounts[i].amount
        },
        None => {
            proof {
                lemma_held_absent(accounts@, owner, asset);
            }
            0
        },
    }
}

/// Takes `amount` out of the balance of `owner` in `asset`.
pub fn debit(accounts: &mut Vec<HoldingAccount>, owner: u64, asset: u64, amount: u64)
    requires
        keys_unique(old(accounts)@),
        held(old(accounts)@, owner, asset) >= amount,
    ensures
        keys_unique(final(accounts)@),
        forall|o: u64, a: u64|
            #[trigger] has_account(old(accounts)@, o, a) ==> has_account(final(accounts)@, o, a),
        forall|o: u64, a: u64|
            #[trigger] held(final(accounts)@, o, a) == held(old(accounts)@, o, a) - if o == owner
                && a == asset {
                amount as int
            } else {
                0
            },
        forall|a: u64|
            #[trigger] asset_total(final(accounts)@, a) == asset_total(old(accounts)@, a) - if a
                == asset {
                amount as int
            } else {
                0
            },
{
    match find_account(accounts, owner, asset) {
        Some(i) => {
            proof {
                lemma_held_at(accounts@, i as int, owner, asset);
            }
            let cur = accounts[i];
            let v = HoldingAccount { amount: cur.amount - amount, ..cur };
            proof {
                lemma_set_amount(accounts@, i as int, v);
            }
            accounts.set(i, v);
            proof {
                assert forall|o: u64, a: u64| #[trigger]
                    has_account(old(accounts)@, o, a) implies has_account(accounts@, o, a) by {
                    let j = choose|j: int|
                        0 <= j < old(accounts)@.len() && old(accounts)@[j].owner == o
                            && old(accounts)@[j].asset == a;
                    assert(accounts@[j].owner == o && accounts@[j].asset == a);
                }
            }
        },
        None => {
            proof {
                lemma_held_absent(accounts@, owner, asset);
            }
        },
    }
}

/// Adds `amount` to the balance of `owner` in `asset`, opening the account
/// first where it does not exist yet.
pub fn credit(accounts: &mut Vec<HoldingAccount>, owner: u64, asset: u64, amount: u64)
    requires
        keys_unique(old(accounts)@),
        asset_total(old(accounts)@, asset) + amount <= u64::MAX,
    ensures
        keys_unique(final(accounts)@),
        has_account(final(accounts)@, owner, asset),
        forall|o: u64, a: u64|
            #[trigger] has_account(old(accounts)@, o, a) ==> has_account(final(accounts)@, o, a),
        forall|o: u64, a: u64|
            #[trigger] held(final(accounts)@, o, a) == held(old(accounts)@, o, a) + if o == owner
                && a == asset {
                amount as int
            } else {
                0
            },
        forall|a: u64|
            #[trigger] asset_total(final(accounts)@, a) == asset_total(old(accounts)@, a) + if a
                == asset {
                amount as int
            } else {
                0
            },
{
    proof {
        lemma_held_le_total(accounts@, owner, asset);
    }
    match find_account(accounts, owner, asset) {
        Some(i) => {
            proof {
                lemma_held_at(accounts@, i as int, owner, asset);
            }
            let cur = accounts[i];
            let v = HoldingAccount { amount: cur.amount + amount, ..cur };
            proof {
                lemma_set_amount(accounts@, i as int, v);
            }
            accounts.set(i, v);
            proof {
                assert forall|o: u64, a: u64| #[trigger]
                    has_account(old(accounts)@, o, a) implies has_account(accounts@, o, a) by {
                    let j = choose|j: int|
                        0 <= j < old(accounts)@.len() && old(accounts)@[j].owner == o
                            && old(accounts)@[j].asset == a;
                    assert(accounts@[j].owner == o && accounts@[j].asset == a);
                }
                assert(accounts@[i as int].owner == owner && accounts@[i as int].asset == asset);
            }
        },
        None => {
            let ghost s = accounts@;
            let v = HoldingAccount { owner, asset, amount };
            accounts.push(v);
            proof {
                assert forall|o: u64, a: u64|
                    #[trigger] held(accounts@, o, a) == held(s, o, a) + if o == owner && a
                        == asset {
                        amount as int
                    } else {
                        0
                    } by {
                    lemma_sum_push(s, v, held_w(o, a));
                }
                assert forall|a: u64|
                    #[trigger] asset_total(accounts@, a) == asset_total(s, a) + if a == asset {
                        amount as int
                    } else {
                        0
                    } by {
                    lemma_sum_push(s, v, asset_w(a));
                }
                assert forall|o: u64, a: u64| #[trigger]
                    has_account(s, o, a) implies has_account(accounts@, o, a) by {
                    let j = choose|j: int| 0 <= j < s.len() && s[j].owner == o && s[j].asset == a;
                    assert(accounts@[j] == s[j]);
                }
                assert(accounts@[s.len() as int] == v);
            }
        },
    }
}

} // verus!
