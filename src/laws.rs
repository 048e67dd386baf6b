//! Properties of the protocol that relate several transitions, proved from
//! the transitions' own contracts.
use vstd::prelude::*;

use crate::escrow::{
    address_of, cancel_outcome, cancel_post, create_post, settle_outcome,
    settle_post, EscrowAddress, EscrowError, LedgerView, NATIVE,
};

verus! {

/// While the escrow of `maker` with `seed` is open, creating it again fails
/// with `AlreadyExists` and changes nothing, whatever the other arguments.
pub proof fn lemma_create_unique(
    v0: LedgerView,
    v1: LedgerView,
    v2: LedgerView,
    maker: u64,
    seed: u64,
    asset_a: u64,
    asset_b: u64,
    deposit: u64,
    receive: u64,
    now: u64,
    asset_a2: u64,
    asset_b2: u64,
    deposit2: u64,
    receive2: u64,
    now2: u64,
    r2: Result<EscrowAddress, EscrowError>,
)
    requires
        create_post(v0, v1, maker, seed, asset_a, asset_b, deposit, receive, now, Ok(address_of(maker, seed))),
        create_post(v1, v2, maker, seed, asset_a2, asset_b2, deposit2, receive2, now2, r2),
    ensures
        r2 == Err::<EscrowAddress, EscrowError>(EscrowError::AlreadyExists),
        v2 == v1,
{
}

/// Settle and cancel share one lock window: on an open escrow both fail with
/// `Locked` before its unlock time, and neither does from that time on.
pub proof fn lemma_lock_symmetry(v: LedgerView, k: EscrowAddress, taker: u64, caller: u64, now: u64)
    requires
        v.escrow(k) is Some,
    ensures
        now < v.escrow(k)->Some_0.record.unlock_time() ==> {
            &&& settle_outcome(v, taker, k, now) == Err::<(), EscrowError>(EscrowError::Locked)
            &&& cancel_outcome(v, caller, k, now) == Err::<(), EscrowError>(EscrowError::Locked)
        },
        now >= v.escrow(k)->Some_0.record.unlock_time() ==> {
            &&& settle_outcome(v, taker, k, now) != Err::<(), EscrowError>(EscrowError::Locked)
            &&& cancel_outcome(v, caller, k, now) != Err::<(), EscrowError>(EscrowError::Locked)
        },
{
}

/// A settlement that follows a create moves exactly the deposit to the taker
/// and exactly the asked amount to the maker, leaves no escrow or vault
/// behind, returns the storage deposit, and keeps every asset's supply.
pub proof fn lemma_settle_conserves(
    v0: LedgerView,
    v1: LedgerView,
    v2: LedgerView,
    maker: u64,
    seed: u64,
    asset_a: u64,
    asset_b: u64,
    deposit: u64,
    receive: u64,
    now: u64,
    taker: u64,
    later: u64,
)
    requires
        create_post(v0, v1, maker, seed, asset_a, asset_b, deposit, receive, now, Ok(address_of(maker, seed))),
        settle_post(v1, v2, taker, address_of(maker, seed), later, Ok(())),
        taker != maker,
    ensures
        v2.balance(taker, asset_a) == v1.balance(taker, asset_a) + deposit,
        v2.balance(maker, asset_b) == v1.balance(maker, asset_b) + receive,
        v2.balance(taker, asset_b) == v1.balance(taker, asset_b) - receive,
        v2.balance(maker, NATIVE) == v0.balance(maker, NATIVE),
        v2.escrow(address_of(maker, seed)) is None,
        forall|a: u64| #[trigger] v2.supply(a) == v0.supply(a),
{
    assert forall|a: u64| #[trigger] v2.supply(a) == v0.supply(a) by {
        assert(v1.supply(a) == v0.supply(a));
    }
}

/// A cancellation that follows a create returns the maker's balances in the
/// deposited asset and in the native currency to what they were before the
/// create, leaves no escrow or vault behind, and keeps every asset's supply.
pub proof fn lemma_cancel_restores(
    v0: LedgerView,
    v1: LedgerView,
    v2: LedgerView,
    maker: u64,
    seed: u64,
    asset_a: u64,
    asset_b: u64,
    deposit: u64,
    receive: u64,
    now: u64,
    later: u64,
)
    requires
        create_post(v0, v1, maker, seed, asset_a, asset_b, deposit, receive, now, Ok(address_of(maker, seed))),
        cancel_post(v1, v2, maker, address_of(maker, seed), later, Ok(())),
    ensures
        v2.balance(maker, asset_a) == v0.balance(maker, asset_a),
        v2.balance(maker, NATIVE) == v0.balance(maker, NATIVE),
        forall|o: u64, a: u64| #[trigger] v2.balance(o, a) == v0.balance(o, a),
        v2.escrow(address_of(maker, seed)) is None,
        forall|a: u64| #[trigger] v2.supply(a) == v0.supply(a),
{
    assert forall|o: u64, a: u64| #[trigger] v2.balance(o, a) == v0.balance(o, a) by {
        assert(v1.balance(o, a) == v0.balance(o, a) - crate::escrow::create_cost(maker, asset_a, deposit, o, a));
    }
    assert forall|a: u64| #[trigger] v2.supply(a) == v0.supply(a) by {
        assert(v1.supply(a) == v0.supply(a));
    }
}

/// Of a settle and a cancel of one escrow, whichever comes second finds it
/// gone: after a successful settle, cancel fails with `NotFound`.
pub proof fn lemma_settle_then_cancel(
    v0: LedgerView,
    v1: LedgerView,
    v2: LedgerView,
    k: EscrowAddress,
    taker: u64,
    caller: u64,
    t1: u64,
    t2: u64,
    r2: Result<(), EscrowError>,
)
    requires
        settle_post(v0, v1, taker, k, t1, Ok(())),
        cancel_post(v1, v2, caller, k, t2, r2),
    ensures
        r2 == Err::<(), EscrowError>(EscrowError::NotFound),
        v2 == v1,
{
}

/// After a successful cancel, settle fails with `NotFound`.
pub proof fn lemma_cancel_then_settle(
    v0: LedgerView,
    v1: LedgerView,
    v2: LedgerView,
    k: EscrowAddress,
    taker: u64,
    caller: u64,
    t1: u64,
    t2: u64,
    r2: Result<(), EscrowError>,
)
    requires
        cancel_post(v0, v1, caller, k, t1, Ok(())),
        settle_post(v1, v2, taker, k, t2, r2),
    ensures
        r2 == Err::<(), EscrowError>(EscrowError::NotFound),
        v2 == v1,
{
}

} // verus!
