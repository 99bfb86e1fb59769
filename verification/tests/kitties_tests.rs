use kitties::assets::{Config, Error, Event, Pallet};
use kitties::ledger::Ledger;

const STAKE: u64 = 5_000_000_000;

fn new_registry() -> Pallet {
    let mut ledger = Ledger::new(1);
    assert!(ledger.deposit(1, 100_000_000_000));
    assert!(ledger.deposit(2, 100_000_000_000));
    assert!(ledger.deposit(5, 1_000_000_000));
    Pallet::new(Config { stake: STAKE }, ledger, vec![7, 7, 7, 7], 0)
}

#[test]
fn create_kitty_works() {
    let mut p = new_registry();
    assert!(p.create(1).is_ok());
    assert_eq!(p.kitty_owner(1), Some(1));
}

#[test]
fn create_kitty_when_count_is_overflow() {
    let mut p = new_registry();
    p.set_kitties_count(u32::MAX);
    assert_eq!(p.create(1), Err(Error::CapacityExhausted));
}

#[test]
fn create_kitty_when_money_is_not_enough() {
    let mut p = new_registry();
    assert_eq!(p.create(5), Err(Error::InsufficientFunds));
}

#[test]
fn transfer_kitty_works() {
    let mut p = new_registry();
    assert!(p.create(1).is_ok());
    assert!(p.transfer(1, 2, 1).is_ok());
    assert_eq!(p.kitty_owner(1), Some(2));
    assert_eq!(p.transfer(1, 3, 1), Err(Error::NotOwner));
}

#[test]
fn transfer_kitty_when_is_not_owner() {
    let mut p = new_registry();
    assert!(p.create(1).is_ok());
    assert_eq!(p.transfer(2, 2, 1), Err(Error::NotOwner));
}

#[test]
fn sell_kitty_works() {
    let mut p = new_registry();
    assert!(p.create(1).is_ok());
    assert!(p.sell_kitty(1, 1, 10_000_000_000).is_ok());
}

#[test]
fn sell_kitty_when_kitty_id_is_invalid() {
    let mut p = new_registry();
    assert!(p.create(1).is_ok());
    assert_eq!(p.sell_kitty(1, 2, 10_000_000_000), Err(Error::UnknownAsset));
}

#[test]
fn sell_kitty_when_is_not_owner() {
    let mut p = new_registry();
    assert!(p.create(1).is_ok());
    assert_eq!(p.sell_kitty(2, 1, 10_000_000_000), Err(Error::NotOwner));
}

#[test]
fn buy_kitty_works() {
    let mut p = new_registry();
    assert!(p.create(1).is_ok());
    assert!(p.sell_kitty(1, 1, 10_000_000_000).is_ok());
    assert!(p.buy_kitty(2, 1, 20_000_000_000).is_ok());
    assert_eq!(p.kitty_owner(1), Some(2));
}

#[test]
fn buy_kitty_when_kitty_id_is_invalid() {
    let mut p = new_registry();
    assert_eq!(p.buy_kitty(2, 1, 20_000_000_000), Err(Error::UnknownAsset));
}

#[test]
fn buy_kitty_when_buyer_is_same_to_owner() {
    let mut p = new_registry();
    assert!(p.create(1).is_ok());
    assert_eq!(p.buy_kitty(1, 1, 20_000_000_000), Err(Error::BuyerIsOwner));
}

#[test]
fn buy_kitty_when_kitty_is_not_on_sale() {
    let mut p = new_registry();
    assert!(p.create(1).is_ok());
    assert_eq!(p.buy_kitty(2, 1, 20_000_000_000), Err(Error::NotListed));
}

#[test]
fn buy_kitty_when_pay_money_is_not_enough() {
    let mut p = new_registry();
    assert!(p.create(1).is_ok());
    assert!(p.sell_kitty(1, 1, 10_000_000_000).is_ok());
    assert_eq!(p.buy_kitty(2, 1, 1_000_000_000), Err(Error::InsufficientOffer));
    assert_eq!(p.kitty_owner(1), Some(1));
}

#[test]
fn buy_kitty_when_banlance_money_is_not_enough() {
    let mut p = new_registry();
    assert!(p.create(1).is_ok());
    assert!(p.sell_kitty(1, 1, 10_000_000_000).is_ok());
    assert_eq!(p.buy_kitty(5, 1, 10_000_000_000), Err(Error::InsufficientFunds));
    assert_eq!(p.kitty_owner(1), Some(1));
}

#[test]
fn breed_kitty_works() {
    let mut p = new_registry();
    assert!(p.create(1).is_ok());
    assert!(p.create(1).is_ok());
    assert!(p.breed(1, 1, 2).is_ok());
    assert_eq!(p.kitties_count(), Some(4));
    assert_eq!(p.kitty_owner(3), Some(1));
}

#[test]
fn breed_kitty_when_the_same_parent() {
    let mut p = new_registry();
    assert!(p.create(1).is_ok());
    assert!(p.create(1).is_ok());
    assert_eq!(p.breed(1, 1, 1), Err(Error::SameParent));
}

#[test]
fn breed_kitty_when_kitty_id_is_invalid() {
    let mut p = new_registry();
    assert_eq!(p.breed(1, 1, 2), Err(Error::UnknownAsset));
}

#[test]
fn breed_kitty_when_kitty_count_is_overflow() {
    let mut p = new_registry();
    assert!(p.create(1).is_ok());
    assert!(p.create(1).is_ok());
    p.set_kitties_count(u32::MAX);
    assert_eq!(p.breed(1, 1, 2), Err(Error::CapacityExhausted));
}

#[test]
fn create_allocates_increasing_ids_and_counter() {
    let mut p = new_registry();
    assert_eq!(p.kitties_count(), None);
    assert_eq!(p.create(1), Ok(1));
    assert_eq!(p.kitties_count(), Some(2));
    assert_eq!(p.create(2), Ok(2));
    assert_eq!(p.kitties_count(), Some(3));
    assert_eq!(p.breed(1, 1, 2), Ok(3));
    assert_eq!(p.kitties_count(), Some(4));
    assert_eq!(p.kitty_owner(1), Some(1));
    assert_eq!(p.kitty_owner(2), Some(2));
    assert_eq!(p.kitty_owner(3), Some(1));
}

#[test]
fn failed_create_mutates_nothing() {
    let mut p = new_registry();
    assert_eq!(p.create(5), Err(Error::InsufficientFunds));
    assert_eq!(p.ledger().free_balance(5), 1_000_000_000);
    assert_eq!(p.ledger().reserved_balance(5), 0);
    assert_eq!(p.kitties_count(), None);
    assert!(p.events().is_empty());
}

#[test]
fn create_reserves_exactly_the_stake() {
    let mut p = new_registry();
    assert!(p.create(1).is_ok());
    assert_eq!(p.ledger().free_balance(1), 100_000_000_000 - STAKE);
    assert_eq!(p.ledger().reserved_balance(1), STAKE);
}

#[test]
fn transfer_moves_ownership_exactly_once() {
    let mut p = new_registry();
    assert!(p.create(1).is_ok());
    assert!(p.transfer(1, 2, 1).is_ok());
    assert_eq!(p.kitty_owner(1), Some(2));
    // the old owner lost control, the new owner has it
    assert_eq!(p.transfer(1, 1, 1), Err(Error::NotOwner));
    assert!(p.transfer(2, 1, 1).is_ok());
    assert_eq!(p.kitty_owner(1), Some(1));
}

#[test]
fn transfer_to_self_keeps_owner() {
    let mut p = new_registry();
    assert!(p.create(1).is_ok());
    assert!(p.transfer(1, 1, 1).is_ok());
    assert_eq!(p.kitty_owner(1), Some(1));
}

#[test]
fn breed_fails_on_same_parent_even_if_absent() {
    let mut p = new_registry();
    assert_eq!(p.breed(1, 7, 7), Err(Error::SameParent));
}

#[test]
fn breed_mixes_bits_from_both_parents_and_reserves_nothing() {
    let mut p = new_registry();
    assert!(p.create(1).is_ok());
    p.set_call_index(1);
    assert!(p.create(1).is_ok());
    let reserved_before = p.ledger().reserved_balance(1);
    let free_before = p.ledger().free_balance(1);
    p.set_call_index(2);
    assert_eq!(p.breed(1, 1, 2), Ok(3));
    let g1 = p.kitties(1).unwrap().0;
    let g2 = p.kitties(2).unwrap().0;
    let g3 = p.kitties(3).unwrap().0;
    for i in 0..16 {
        for j in 0..8 {
            let bit = (g3[i] >> j) & 1;
            assert!(bit == (g1[i] >> j) & 1 || bit == (g2[i] >> j) & 1);
        }
    }
    assert_eq!(p.ledger().reserved_balance(1), reserved_before);
    assert_eq!(p.ledger().free_balance(1), free_before);
}

#[test]
fn buy_by_owner_fails_even_when_listed() {
    let mut p = new_registry();
    assert!(p.create(1).is_ok());
    assert!(p.sell_kitty(1, 1, 10_000_000_000).is_ok());
    assert_eq!(p.buy_kitty(1, 1, 20_000_000_000), Err(Error::BuyerIsOwner));
}

#[test]
fn low_offer_changes_nothing() {
    let mut p = new_registry();
    assert!(p.create(1).is_ok());
    assert!(p.sell_kitty(1, 1, 10_000_000_000).is_ok());
    let buyer_free = p.ledger().free_balance(2);
    assert_eq!(p.buy_kitty(2, 1, 9_999_999_999), Err(Error::InsufficientOffer));
    assert_eq!(p.kitty_owner(1), Some(1));
    assert_eq!(p.kitties_price(1), Some(10_000_000_000));
    assert_eq!(p.ledger().free_balance(2), buyer_free);
}

#[test]
fn full_sale_scenario_settles_and_logs_events() {
    let price: u64 = 10_000_000_000;
    let mut p = new_registry();
    assert_eq!(p.create(1), Ok(1));
    assert_eq!(p.ledger().reserved_balance(1), STAKE);
    assert_eq!(p.kitties_count(), Some(2));
    assert!(p.sell_kitty(1, 1, price).is_ok());
    assert!(p.buy_kitty(2, 1, price).is_ok());
    assert_eq!(p.kitty_owner(1), Some(2));
    assert_eq!(p.kitties_price(1), None);
    // the seller's stake is released and the price arrives in full
    assert_eq!(p.ledger().reserved_balance(1), 0);
    assert_eq!(p.ledger().free_balance(1), 100_000_000_000 + price);
    // the buyer pays exactly the price
    assert_eq!(p.ledger().free_balance(2), 100_000_000_000 - price);
    assert_eq!(
        p.events().as_slice(),
        &[Event::Created(1, 1), Event::Listed(1, 1, price), Event::Bought(2, 1, price)]
    );
}

#[test]
fn buying_a_bred_kitty_releases_no_missing_stake() {
    let mut p = new_registry();
    assert!(p.create(1).is_ok());
    assert!(p.create(1).is_ok());
    // account 2 breeds from assets it does not own and holds no stake
    assert_eq!(p.breed(2, 1, 2), Ok(3));
    assert_eq!(p.kitty_owner(3), Some(2));
    assert_eq!(p.ledger().reserved_balance(2), 0);
    assert!(p.sell_kitty(2, 3, 1_000).is_ok());
    let seller_free = p.ledger().free_balance(2);
    assert!(p.buy_kitty(1, 3, 1_000).is_ok());
    // the release is clamped to the nothing that was held
    assert_eq!(p.ledger().reserved_balance(2), 0);
    assert_eq!(p.ledger().free_balance(2), seller_free + 1_000);
}

#[test]
fn zero_priced_listing_is_buyable_by_an_empty_account() {
    let mut p = new_registry();
    assert!(p.create(1).is_ok());
    assert!(p.sell_kitty(1, 1, 0).is_ok());
    // account 9 holds nothing, below the minimum balance, yet paying
    // nothing reduces nothing
    assert!(p.buy_kitty(9, 1, 0).is_ok());
    assert_eq!(p.kitty_owner(1), Some(9));
    assert_eq!(p.ledger().free_balance(9), 0);
}

#[test]
fn stale_listing_survives_a_plain_transfer() {
    let mut p = new_registry();
    assert!(p.create(1).is_ok());
    assert!(p.sell_kitty(1, 1, 42).is_ok());
    assert!(p.transfer(1, 2, 1).is_ok());
    assert_eq!(p.kitties_price(1), Some(42));
}

#[test]
fn relisting_overwrites_the_price() {
    let mut p = new_registry();
    assert!(p.create(1).is_ok());
    assert!(p.sell_kitty(1, 1, 10).is_ok());
    assert!(p.sell_kitty(1, 1, 20).is_ok());
    assert_eq!(p.kitties_price(1), Some(20));
}
