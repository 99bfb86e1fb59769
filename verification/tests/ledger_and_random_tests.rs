use blake2::{Blake2b128, Digest};
use kitties::assets::{Config, Pallet};
use kitties::ledger::Ledger;
use parity_scale_codec::Encode;

#[test]
fn deposit_and_read_balances() {
    let mut l = Ledger::new(1);
    assert!(l.deposit(1, 500));
    assert_eq!(l.free_balance(1), 500);
    assert_eq!(l.reserved_balance(1), 0);
    assert_eq!(l.free_balance(9), 0);
}

#[test]
fn reserve_moves_free_into_escrow() {
    let mut l = Ledger::new(1);
    assert!(l.deposit(1, 500));
    assert!(l.reserve(1, 200));
    assert_eq!(l.free_balance(1), 300);
    assert_eq!(l.reserved_balance(1), 200);
    assert!(!l.reserve(1, 301));
    assert_eq!(l.free_balance(1), 300);
}

#[test]
fn unreserve_is_clamped() {
    let mut l = Ledger::new(1);
    assert!(l.deposit(1, 500));
    assert!(l.reserve(1, 200));
    l.unreserve(1, 1_000);
    assert_eq!(l.free_balance(1), 500);
    assert_eq!(l.reserved_balance(1), 0);
}

#[test]
fn keep_alive_transfer_respects_the_minimum() {
    let mut l = Ledger::new(100);
    assert!(l.deposit(1, 500));
    // leaving 99 behind would sink below the minimum of 100
    assert!(!l.transfer(1, 2, 401, true));
    assert_eq!(l.free_balance(1), 500);
    assert_eq!(l.free_balance(2), 0);
    // leaving exactly the minimum is allowed
    assert!(l.transfer(1, 2, 400, true));
    assert_eq!(l.free_balance(1), 100);
    assert_eq!(l.free_balance(2), 400);
}

#[test]
fn zero_amount_keep_alive_transfer_always_succeeds() {
    let mut l = Ledger::new(100);
    assert!(l.deposit(1, 50));
    // account 1 already sits below the minimum, but moving nothing
    // reduces nothing
    assert!(l.transfer(1, 2, 0, true));
    assert_eq!(l.free_balance(1), 50);
    assert_eq!(l.free_balance(2), 0);
}

#[test]
fn transfer_without_keep_alive_may_drain() {
    let mut l = Ledger::new(100);
    assert!(l.deposit(1, 500));
    assert!(l.transfer(1, 2, 500, false));
    assert_eq!(l.free_balance(1), 0);
    assert_eq!(l.free_balance(2), 500);
    assert!(!l.transfer(1, 2, 1, false));
}

#[test]
fn genome_is_the_digest_of_the_encoded_payload() {
    let entropy: Vec<u8> = vec![7, 7, 7, 7];
    let mut ledger = Ledger::new(1);
    assert!(ledger.deposit(1, 100));
    let mut p = Pallet::new(Config { stake: 10 }, ledger, entropy.clone(), 3);
    assert_eq!(p.create(1), Ok(1));
    let payload = (&entropy, 1u64, 3u64).encode();
    let expected: [u8; 16] = Blake2b128::digest(payload.as_slice()).into();
    assert_eq!(p.kitties(1).unwrap().0, expected);
}

#[test]
fn genome_derivation_is_deterministic() {
    let make = || {
        let mut ledger = Ledger::new(1);
        assert!(ledger.deposit(1, 100));
        let mut p = Pallet::new(Config { stake: 10 }, ledger, vec![5, 6], 9);
        assert_eq!(p.create(1), Ok(1));
        p.kitties(1).unwrap().0
    };
    assert_eq!(make(), make());
}

#[test]
fn genome_depends_on_caller_and_call_index() {
    let mut ledger = Ledger::new(1);
    assert!(ledger.deposit(1, 100));
    assert!(ledger.deposit(2, 100));
    let mut p = Pallet::new(Config { stake: 10 }, ledger, vec![5, 6], 0);
    assert_eq!(p.create(1), Ok(1));
    p.set_call_index(1);
    assert_eq!(p.create(2), Ok(2));
    let g1 = p.kitties(1).unwrap().0;
    let g2 = p.kitties(2).unwrap().0;
    assert_ne!(g1, g2);
}
