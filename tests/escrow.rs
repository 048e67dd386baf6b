use atomic_escrow::{
    derive_address, is_unlocked, EscrowAddress, EscrowError, EscrowRecord, Ledger, Vault,
    LOCK_DURATION, NATIVE, STORAGE_DEPOSIT,
};

const MAKER: u64 = 1;
const TAKER: u64 = 2;
const MINT_A: u64 = 10;
const MINT_B: u64 = 11;
const START: u64 = 1_000_000;
const LAMPORTS_PER_SOL: u64 = 1_000_000_000;

/// A ledger where the maker holds 1,000 tokens (six decimals) of asset A and
/// 10 units of native currency.
fn setup() -> Ledger {
    let mut ledger = Ledger::new();
    ledger.mint_to(MAKER, NATIVE, 10 * LAMPORTS_PER_SOL).unwrap();
    ledger.mint_to(MAKER, MINT_A, 1000000000).unwrap();
    ledger
}

fn make(ledger: &mut Ledger) -> EscrowAddress {
    ledger.create_escrow(MAKER, 123u64, MINT_A, MINT_B, 10, 10, START).unwrap()
}

#[test]
fn test_make() {
    let mut program = setup();
    let escrow = make(&mut program);
    assert_eq!(escrow, derive_address(MAKER, 123u64));

    let entry = program.escrow(escrow).unwrap();
    assert_eq!(entry.vault.amount, 10);
    assert_eq!(entry.vault.authority, escrow);
    assert_eq!(entry.vault.asset, MINT_A);

    let escrow_data = entry.record;
    assert_eq!(escrow_data.seed, 123u64);
    assert_eq!(escrow_data.maker, MAKER);
    assert_eq!(escrow_data.asset_a, MINT_A);
    assert_eq!(escrow_data.asset_b, MINT_B);
    assert_eq!(escrow_data.receive, 10);
    assert!(escrow_data.creation_time > 0);
}

#[test]
fn test_take() {
    let mut program = setup();
    let escrow = make(&mut program);

    program.mint_to(TAKER, NATIVE, 5 * LAMPORTS_PER_SOL).unwrap();
    program.mint_to(TAKER, MINT_B, 1000000000).unwrap();

    // Taking at once fails: the escrow is locked.
    assert!(program.settle_escrow(TAKER, escrow, START).is_err());

    let now = START + 2000000;
    program.settle_escrow(TAKER, escrow, now).unwrap();

    assert_eq!(program.balance(MAKER, MINT_B), 10);
    assert_eq!(program.balance(TAKER, MINT_A), 10);
    assert!(program.escrow(escrow).is_none());
}

#[test]
fn test_refund() {
    let mut program = setup();
    let escrow = make(&mut program);

    // Refunding at once fails: the escrow is locked.
    assert!(program.cancel_escrow(MAKER, escrow, START).is_err());

    let now = START + 2000000;
    program.cancel_escrow(MAKER, escrow, now).unwrap();

    assert!(program.escrow(escrow).is_none());
    assert_eq!(program.balance(MAKER, MINT_A), 1000000000);
}

#[test]
fn make_moves_deposit_and_storage_fee() {
    let mut l = setup();
    make(&mut l);
    assert_eq!(l.balance(MAKER, MINT_A), 1000000000 - 10);
    assert_eq!(l.balance(MAKER, NATIVE), 10 * LAMPORTS_PER_SOL - STORAGE_DEPOSIT);
    assert_eq!(l.supply(MINT_A), 1000000000);
    assert_eq!(l.supply(NATIVE), 10 * LAMPORTS_PER_SOL);
}

#[test]
fn create_twice_is_already_exists() {
    let mut l = setup();
    make(&mut l);
    let before_a = l.balance(MAKER, MINT_A);
    assert_eq!(
        l.create_escrow(MAKER, 123, MINT_A, MINT_B, 5, 7, START + 1),
        Err(EscrowError::AlreadyExists)
    );
    assert_eq!(
        l.create_escrow(MAKER, 123, MINT_A, MINT_B, 0, 0, START + 1),
        Err(EscrowError::AlreadyExists)
    );
    assert_eq!(l.balance(MAKER, MINT_A), before_a);
    // Another seed is another escrow.
    assert!(l.create_escrow(MAKER, 124, MINT_A, MINT_B, 5, 7, START).is_ok());
}

#[test]
fn create_rejects_zero_amounts() {
    let mut l = setup();
    assert_eq!(
        l.create_escrow(MAKER, 1, MINT_A, MINT_B, 0, 10, START),
        Err(EscrowError::InvalidAmount)
    );
    assert_eq!(
        l.create_escrow(MAKER, 1, MINT_A, MINT_B, 10, 0, START),
        Err(EscrowError::InvalidAmount)
    );
}

#[test]
fn create_rejects_same_or_native_asset() {
    let mut l = setup();
    assert_eq!(
        l.create_escrow(MAKER, 1, MINT_A, MINT_A, 10, 10, START),
        Err(EscrowError::AssetTypeMismatch)
    );
    assert_eq!(
        l.create_escrow(MAKER, 1, NATIVE, MINT_B, 10, 10, START),
        Err(EscrowError::AssetTypeMismatch)
    );
    assert_eq!(
        l.create_escrow(MAKER, 1, MINT_A, NATIVE, 10, 10, START),
        Err(EscrowError::AssetTypeMismatch)
    );
}

#[test]
fn create_needs_funds() {
    let mut l = setup();
    assert_eq!(
        l.create_escrow(MAKER, 1, MINT_A, MINT_B, 1000000001, 10, START),
        Err(EscrowError::InsufficientFunds)
    );
    let mut poor = Ledger::new();
    poor.mint_to(MAKER, MINT_A, 100).unwrap();
    poor.mint_to(MAKER, NATIVE, STORAGE_DEPOSIT - 1).unwrap();
    assert_eq!(
        poor.create_escrow(MAKER, 1, MINT_A, MINT_B, 10, 10, START),
        Err(EscrowError::InsufficientFunds)
    );
    assert_eq!(poor.balance(MAKER, MINT_A), 100);
}

#[test]
fn lock_window_ends_exactly_at_unlock_time() {
    let mut l = setup();
    let k = make(&mut l);
    l.mint_to(TAKER, MINT_B, 10).unwrap();
    let unlock = START + LOCK_DURATION;
    assert_eq!(l.settle_escrow(TAKER, k, unlock - 1), Err(EscrowError::Locked));
    assert_eq!(l.cancel_escrow(MAKER, k, unlock - 1), Err(EscrowError::Locked));
    // A stranger's cancel inside the window is also reported as locked.
    assert_eq!(l.cancel_escrow(TAKER, k, unlock - 1), Err(EscrowError::Locked));
    assert_eq!(l.settle_escrow(TAKER, k, unlock), Ok(()));
}

#[test]
fn cancel_exactly_at_unlock_time() {
    let mut l = setup();
    let k = make(&mut l);
    assert_eq!(l.cancel_escrow(MAKER, k, START + LOCK_DURATION), Ok(()));
}

#[test]
fn is_unlocked_boundary() {
    let r = EscrowRecord {
        seed: 1,
        maker: MAKER,
        asset_a: MINT_A,
        asset_b: MINT_B,
        receive: 1,
        creation_time: 100,
    };
    assert!(!is_unlocked(&r, 100 + LOCK_DURATION - 1));
    assert!(is_unlocked(&r, 100 + LOCK_DURATION));
    assert!(!is_unlocked(&r, 0));
    let late = EscrowRecord { creation_time: u64::MAX - 1, ..r };
    assert!(!is_unlocked(&late, u64::MAX));
}

#[test]
fn settle_needs_taker_funds() {
    let mut l = setup();
    let k = make(&mut l);
    l.mint_to(TAKER, MINT_B, 9).unwrap();
    let now = START + LOCK_DURATION;
    assert_eq!(l.settle_escrow(TAKER, k, now), Err(EscrowError::InsufficientFunds));
    assert_eq!(l.escrow(k).unwrap().vault.amount, 10);
    assert_eq!(l.balance(TAKER, MINT_B), 9);
}

#[test]
fn settle_conserves_and_returns_deposit() {
    let mut l = setup();
    let maker_native = l.balance(MAKER, NATIVE);
    let k = make(&mut l);
    l.mint_to(TAKER, MINT_B, 25).unwrap();
    l.settle_escrow(TAKER, k, START + LOCK_DURATION).unwrap();
    assert_eq!(l.balance(TAKER, MINT_A), 10);
    assert_eq!(l.balance(TAKER, MINT_B), 15);
    assert_eq!(l.balance(MAKER, MINT_B), 10);
    assert_eq!(l.balance(MAKER, MINT_A), 1000000000 - 10);
    assert_eq!(l.balance(MAKER, NATIVE), maker_native);
    assert_eq!(l.supply(MINT_A), 1000000000);
    assert_eq!(l.supply(MINT_B), 25);
    assert_eq!(l.supply(NATIVE), 10 * LAMPORTS_PER_SOL);
}

#[test]
fn cancel_restores_maker() {
    let mut l = setup();
    let k = make(&mut l);
    l.cancel_escrow(MAKER, k, START + LOCK_DURATION + 5).unwrap();
    assert_eq!(l.balance(MAKER, MINT_A), 1000000000);
    assert_eq!(l.balance(MAKER, NATIVE), 10 * LAMPORTS_PER_SOL);
    assert!(l.escrow(k).is_none());
}

#[test]
fn cancel_by_other_party_is_unauthorized() {
    let mut l = setup();
    let k = make(&mut l);
    assert_eq!(
        l.cancel_escrow(TAKER, k, START + LOCK_DURATION),
        Err(EscrowError::Unauthorized)
    );
    assert!(l.escrow(k).is_some());
}

#[test]
fn unknown_escrow_is_not_found() {
    let mut l = setup();
    let k = derive_address(MAKER, 999);
    assert_eq!(l.settle_escrow(TAKER, k, u64::MAX), Err(EscrowError::NotFound));
    assert_eq!(l.cancel_escrow(MAKER, k, u64::MAX), Err(EscrowError::NotFound));
}

#[test]
fn settle_then_cancel_loses_the_race() {
    let mut l = setup();
    let k = make(&mut l);
    l.mint_to(TAKER, MINT_B, 10).unwrap();
    let now = START + LOCK_DURATION;
    assert_eq!(l.settle_escrow(TAKER, k, now), Ok(()));
    assert_eq!(l.cancel_escrow(MAKER, k, now), Err(EscrowError::NotFound));
    assert_eq!(l.settle_escrow(TAKER, k, now), Err(EscrowError::NotFound));
}

#[test]
fn cancel_then_settle_loses_the_race() {
    let mut l = setup();
    let k = make(&mut l);
    l.mint_to(TAKER, MINT_B, 10).unwrap();
    let now = START + LOCK_DURATION;
    assert_eq!(l.cancel_escrow(MAKER, k, now), Ok(()));
    assert_eq!(l.settle_escrow(TAKER, k, now), Err(EscrowError::NotFound));
    assert_eq!(l.balance(TAKER, MINT_B), 10);
}

#[test]
fn mint_beyond_u64_supply_is_refused() {
    let mut l = Ledger::new();
    l.mint_to(TAKER, MINT_B, u64::MAX - 5).unwrap();
    assert_eq!(l.mint_to(MAKER, MINT_B, 6), Err(EscrowError::SupplyExceeded));
    assert_eq!(l.balance(MAKER, MINT_B), 0);
    assert_eq!(l.mint_to(MAKER, MINT_B, 5), Ok(()));
    assert_eq!(l.supply(MINT_B), u64::MAX);
}

#[test]
fn escrows_of_one_maker_are_independent() {
    let mut l = setup();
    let k1 = l.create_escrow(MAKER, 1, MINT_A, MINT_B, 3, 4, START).unwrap();
    let k2 = l.create_escrow(MAKER, 2, MINT_A, MINT_B, 5, 6, START + 10).unwrap();
    assert_ne!(k1, k2);
    l.cancel_escrow(MAKER, k1, START + LOCK_DURATION).unwrap();
    assert!(l.escrow(k1).is_none());
    assert_eq!(l.escrow(k2).unwrap().vault.amount, 5);
    assert_eq!(l.supply(MINT_A), 1000000000);
}

#[test]
fn vault_pays_out_only_to_its_authority() {
    let k = derive_address(MAKER, 5);
    let mut v = Vault { authority: k, asset: MINT_A, amount: 42 };
    assert_eq!(v.payout(derive_address(MAKER, 6)), Err(EscrowError::Unauthorized));
    assert_eq!(v.amount, 42);
    assert_eq!(v.close(), Err(EscrowError::VaultNotEmpty));
    assert_eq!(v.payout(k), Ok(42));
    assert_eq!(v.amount, 0);
    assert_eq!(v.close(), Ok(()));
}

#[test]
fn address_is_a_function_of_maker_and_seed() {
    assert_eq!(derive_address(7, 123), derive_address(7, 123));
    assert_ne!(derive_address(7, 123), derive_address(7, 124));
    assert_ne!(derive_address(7, 123), derive_address(8, 123));
    assert_eq!(derive_address(7, 123), EscrowAddress { maker: 7, seed: 123 });
}
