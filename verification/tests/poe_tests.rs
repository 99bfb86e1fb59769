use kitties::claims::{Config, Error, Event, Pallet};

const CLAIM_SIZE: usize = 6;

fn new_claims() -> Pallet {
    Pallet::new(Config { max_claim_size: CLAIM_SIZE }, 1)
}

#[test]
fn create_claim_works() {
    let mut p = new_claims();
    let claim = vec![0; CLAIM_SIZE];
    assert!(p.create_claim(1, claim.clone()).is_ok());
    assert_eq!(p.proofs(&claim), Some((1, 1)));
}

#[test]
fn create_claim_failed_when_claim_already_exist() {
    let mut p = new_claims();
    let claim = vec![0, 1];
    let _ = p.create_claim(1, claim.clone());
    assert_eq!(p.create_claim(1, claim.clone()), Err(Error::AlreadyExists));
}

#[test]
fn revoke_claim_works() {
    let mut p = new_claims();
    let claim = vec![0, 1];
    let _ = p.create_claim(1, claim.clone());
    assert!(p.revoke_claim(1, claim.clone()).is_ok());
    assert_eq!(p.proofs(&claim), None);
}

#[test]
fn revoke_claim_failed_when_claim_is_not_exist() {
    let mut p = new_claims();
    let claim = vec![0, 1];
    assert_eq!(p.revoke_claim(1, claim.clone()), Err(Error::NotFound));
}

#[test]
fn revoke_claim_failed_when_origin_is_not_owner() {
    let mut p = new_claims();
    let claim = vec![0, 1];
    let _ = p.create_claim(1, claim.clone());
    assert_eq!(p.revoke_claim(2, claim.clone()), Err(Error::NotOwner));
}

#[test]
fn transfer_claim_works() {
    let mut p = new_claims();
    let claim = vec![0, 1];
    let _ = p.create_claim(1, claim.clone());
    assert!(p.transfer_claim(1, claim.clone(), 2).is_ok());
    assert_eq!(p.proofs(&claim), Some((2, 1)));
    assert_eq!(p.revoke_claim(1, claim.clone()), Err(Error::NotOwner));
}

#[test]
fn transfer_claim_failed_when_claim_is_not_exist() {
    let mut p = new_claims();
    let claim = vec![0, 1];
    assert_eq!(p.transfer_claim(1, claim.clone(), 2), Err(Error::NotFound));
}

#[test]
fn transfer_claim_failed_when_origin_is_not_owner() {
    let mut p = new_claims();
    let claim = vec![0, 1];
    let _ = p.create_claim(1, claim.clone());
    assert_eq!(p.transfer_claim(3, claim.clone(), 2), Err(Error::NotOwner));
}

#[test]
fn create_claim_failed_when_size_too_large() {
    let mut p = new_claims();
    let claim = vec![0; CLAIM_SIZE + 1];
    assert_eq!(p.create_claim(1, claim.clone()), Err(Error::KeyTooLarge));
}

#[test]
fn claim_round_trip_makes_key_reusable() {
    let mut p = new_claims();
    let claim = vec![1, 2, 3];
    assert!(p.create_claim(1, claim.clone()).is_ok());
    assert!(p.revoke_claim(1, claim.clone()).is_ok());
    assert_eq!(p.proofs(&claim), None);
    assert!(p.create_claim(1, claim.clone()).is_ok());
    assert_eq!(p.proofs(&claim), Some((1, 1)));
}

#[test]
fn oversized_claim_stores_nothing() {
    let mut p = new_claims();
    let claim = vec![9; CLAIM_SIZE + 1];
    assert_eq!(p.create_claim(1, claim.clone()), Err(Error::KeyTooLarge));
    assert_eq!(p.proofs(&claim), None);
    assert!(p.events().is_empty());
}

#[test]
fn empty_key_is_a_valid_claim() {
    let mut p = new_claims();
    let claim: Vec<u8> = vec![];
    assert!(p.create_claim(1, claim.clone()).is_ok());
    assert_eq!(p.proofs(&claim), Some((1, 1)));
}

#[test]
fn claims_record_the_current_block() {
    let mut p = new_claims();
    p.set_block_number(42);
    let claim = vec![0, 1];
    assert!(p.create_claim(1, claim.clone()).is_ok());
    assert_eq!(p.proofs(&claim), Some((1, 42)));
    p.set_block_number(43);
    assert!(p.transfer_claim(1, claim.clone(), 2).is_ok());
    assert_eq!(p.proofs(&claim), Some((2, 43)));
}

#[test]
fn claim_events_carry_the_key() {
    let mut p = new_claims();
    let claim = vec![0, 1];
    assert!(p.create_claim(1, claim.clone()).is_ok());
    assert!(p.transfer_claim(1, claim.clone(), 2).is_ok());
    assert!(p.revoke_claim(2, claim.clone()).is_ok());
    assert_eq!(
        p.events().as_slice(),
        &[
            Event::ClaimCreated(1, claim.clone()),
            Event::ClaimTransferred(1, claim.clone(), 2),
            Event::ClaimRevoked(2, claim.clone()),
        ]
    );
}

#[test]
fn distinct_keys_do_not_collide() {
    let mut p = new_claims();
    assert!(p.create_claim(1, vec![0, 1]).is_ok());
    assert!(p.create_claim(2, vec![0, 2]).is_ok());
    assert_eq!(p.proofs(&vec![0, 1]), Some((1, 1)));
    assert_eq!(p.proofs(&vec![0, 2]), Some((2, 1)));
    assert!(p.revoke_claim(1, vec![0, 1]).is_ok());
    assert_eq!(p.proofs(&vec![0, 1]), None);
    assert_eq!(p.proofs(&vec![0, 2]), Some((2, 1)));
}
