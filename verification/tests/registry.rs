use chargemanagement::olden::Ledger;
use chargemanagement::registry::Car;
use chargemanagement::registry::Error;
use chargemanagement::registry::Event;
use chargemanagement::registry::Payment;
use chargemanagement::registry::Registry;

const ALICE: u64 = 1;
const BOB: u64 = 2;
const CAROL: u64 = 3;

#[test]
fn mint_creates_zero_priced_asset() {
    let mut r = Registry::new();
    assert_eq!(r.mint(ALICE, 100), Ok(Event::Created(ALICE, 100)));
    assert_eq!(r.car(100), Some(Car { id: 100, price: 0, stored_fee: 0 }));
    assert_eq!(r.owner_of(100), Some(ALICE));
    assert_eq!(r.all_cars_count(), 1);
    assert_eq!(r.car_by_index(0), Some(100));
    assert_eq!(r.owned_car_count(ALICE), 1);
    assert_eq!(r.car_of_owner_by_index(ALICE, 0), Some(100));
    assert_eq!(r.current_nonce(), 1);
}

#[test]
fn mint_rejects_occupied_identifier() {
    let mut r = Registry::new();
    assert_eq!(r.mint(ALICE, 100), Ok(Event::Created(ALICE, 100)));
    assert_eq!(r.mint(BOB, 100), Err(Error::AlreadyExists));
    // The failed mint wrote nothing: owner, counts and nonce are untouched.
    assert_eq!(r.owner_of(100), Some(ALICE));
    assert_eq!(r.all_cars_count(), 1);
    assert_eq!(r.owned_car_count(BOB), 0);
    assert_eq!(r.current_nonce(), 1);
}

#[test]
fn two_mints_enumerate_both() {
    let mut r = Registry::new();
    assert_eq!(r.mint(ALICE, 7), Ok(Event::Created(ALICE, 7)));
    assert_eq!(r.mint(ALICE, 8), Ok(Event::Created(ALICE, 8)));
    assert_eq!(r.owned_car_count(ALICE), 2);
    assert_eq!(r.car_of_owner_by_index(ALICE, 0), Some(7));
    assert_eq!(r.car_of_owner_by_index(ALICE, 1), Some(8));
    assert_eq!(r.all_cars_count(), 2);
    assert_eq!(r.car_by_index(0), Some(7));
    assert_eq!(r.car_by_index(1), Some(8));
    assert_eq!(r.current_nonce(), 2);
}

#[test]
fn mint_then_transfer_moves_ownership() {
    let mut r = Registry::new();
    assert_eq!(r.mint(ALICE, 42), Ok(Event::Created(ALICE, 42)));
    assert_eq!(r.transfer(ALICE, BOB, 42), Ok(Event::Transferred(ALICE, BOB, 42)));
    assert_eq!(r.owner_of(42), Some(BOB));
    assert_eq!(r.owned_car_count(ALICE), 0);
    assert_eq!(r.car_of_owner_by_index(ALICE, 0), None);
    assert_eq!(r.owned_car_count(BOB), 1);
    assert_eq!(r.car_of_owner_by_index(BOB, 0), Some(42));
    // The global enumeration is untouched by a transfer.
    assert_eq!(r.all_cars_count(), 1);
    assert_eq!(r.car_by_index(0), Some(42));
}

#[test]
fn transfer_requires_ownership() {
    let mut r = Registry::new();
    assert_eq!(r.mint(ALICE, 42), Ok(Event::Created(ALICE, 42)));
    assert_eq!(r.transfer(BOB, CAROL, 42), Err(Error::NotOwner));
    assert_eq!(r.transfer(ALICE, BOB, 43), Err(Error::NotFound));
    assert_eq!(r.owner_of(42), Some(ALICE));
    assert_eq!(r.owned_car_count(ALICE), 1);
}

#[test]
fn swap_pop_keeps_row_dense() {
    let mut r = Registry::new();
    assert_eq!(r.mint(ALICE, 10), Ok(Event::Created(ALICE, 10)));
    assert_eq!(r.mint(ALICE, 11), Ok(Event::Created(ALICE, 11)));
    assert_eq!(r.mint(ALICE, 12), Ok(Event::Created(ALICE, 12)));
    // Removing the first entry moves the last one into its slot.
    assert_eq!(r.transfer(ALICE, BOB, 10), Ok(Event::Transferred(ALICE, BOB, 10)));
    assert_eq!(r.owned_car_count(ALICE), 2);
    assert_eq!(r.car_of_owner_by_index(ALICE, 0), Some(12));
    assert_eq!(r.car_of_owner_by_index(ALICE, 1), Some(11));
    assert_eq!(r.car_of_owner_by_index(ALICE, 2), None);
    // Removing the entry that is already last needs no swap.
    assert_eq!(r.transfer(ALICE, BOB, 11), Ok(Event::Transferred(ALICE, BOB, 11)));
    assert_eq!(r.owned_car_count(ALICE), 1);
    assert_eq!(r.car_of_owner_by_index(ALICE, 0), Some(12));
    assert_eq!(r.car_of_owner_by_index(ALICE, 1), None);
    assert_eq!(r.owned_car_count(BOB), 2);
    assert_eq!(r.car_of_owner_by_index(BOB, 0), Some(10));
    assert_eq!(r.car_of_owner_by_index(BOB, 1), Some(11));
}

#[test]
fn transfer_to_self_keeps_row() {
    let mut r = Registry::new();
    assert_eq!(r.mint(ALICE, 5), Ok(Event::Created(ALICE, 5)));
    assert_eq!(r.mint(ALICE, 6), Ok(Event::Created(ALICE, 6)));
    assert_eq!(r.transfer(ALICE, ALICE, 5), Ok(Event::Transferred(ALICE, ALICE, 5)));
    assert_eq!(r.owner_of(5), Some(ALICE));
    assert_eq!(r.owned_car_count(ALICE), 2);
    // The moved asset is re-appended at the end of the same row.
    assert_eq!(r.car_of_owner_by_index(ALICE, 0), Some(6));
    assert_eq!(r.car_of_owner_by_index(ALICE, 1), Some(5));
}

#[test]
fn set_price_by_owner_lists_for_sale() {
    let mut r = Registry::new();
    assert_eq!(r.mint(ALICE, 9), Ok(Event::Created(ALICE, 9)));
    assert_eq!(r.set_price(ALICE, 9, 250), Ok(Event::PriceSet(ALICE, 9, 250)));
    assert_eq!(r.car(9), Some(Car { id: 9, price: 250, stored_fee: 0 }));
}

#[test]
fn set_price_by_non_owner_rejected() {
    let mut r = Registry::new();
    assert_eq!(r.mint(ALICE, 9), Ok(Event::Created(ALICE, 9)));
    assert_eq!(r.set_price(ALICE, 9, 250), Ok(Event::PriceSet(ALICE, 9, 250)));
    assert_eq!(r.set_price(BOB, 9, 1), Err(Error::NotOwner));
    // The price is exactly as the owner left it.
    assert_eq!(r.car(9), Some(Car { id: 9, price: 250, stored_fee: 0 }));
}

#[test]
fn set_price_missing_asset_rejected() {
    let mut r = Registry::new();
    assert_eq!(r.set_price(ALICE, 9, 250), Err(Error::NotFound));
}

#[test]
fn buy_moves_ownership_price_and_balances() {
    let mut r = Registry::new();
    let mut ledger = Ledger::new();
    ledger.create_token(BOB, 100);
    ledger.create_token(ALICE, 10);
    assert_eq!(r.mint(ALICE, 77), Ok(Event::Created(ALICE, 77)));
    assert_eq!(r.set_price(ALICE, 77, 60), Ok(Event::PriceSet(ALICE, 77, 60)));
    // The host validates the sale, moves the price between the external
    // balances, and only then commits the ownership change.
    let payment = r.buy_prepare(BOB, 77);
    assert_eq!(payment, Ok(Payment { seller: ALICE, price: 60 }));
    let Payment { seller, price } = payment.unwrap();
    let buyer_funds = ledger.amount_of(BOB);
    assert!(buyer_funds >= price);
    ledger.create_token(BOB, buyer_funds - price);
    ledger.create_token(seller, ledger.amount_of(seller) + price);
    assert_eq!(r.buy_commit(BOB, 77), Ok(Event::Bought(BOB, ALICE, 77, 60)));
    assert_eq!(r.owner_of(77), Some(BOB));
    assert_eq!(r.car(77), Some(Car { id: 77, price: 0, stored_fee: 0 }));
    assert_eq!(r.owned_car_count(ALICE), 0);
    assert_eq!(r.owned_car_count(BOB), 1);
    assert_eq!(ledger.amount_of(BOB), 40);
    assert_eq!(ledger.amount_of(ALICE), 70);
}

#[test]
fn failed_currency_transfer_commits_nothing() {
    let mut r = Registry::new();
    let mut ledger = Ledger::new();
    ledger.create_token(BOB, 10);
    assert_eq!(r.mint(ALICE, 77), Ok(Event::Created(ALICE, 77)));
    assert_eq!(r.set_price(ALICE, 77, 60), Ok(Event::PriceSet(ALICE, 77, 60)));
    let payment = r.buy_prepare(BOB, 77);
    assert_eq!(payment, Ok(Payment { seller: ALICE, price: 60 }));
    // The external currency transfer fails on insufficient funds, so the
    // host never commits: ownership and price are exactly as before.
    let Payment { price, .. } = payment.unwrap();
    assert!(ledger.amount_of(BOB) < price);
    assert_eq!(r.owner_of(77), Some(ALICE));
    assert_eq!(r.car(77), Some(Car { id: 77, price: 60, stored_fee: 0 }));
    assert_eq!(r.owned_car_count(ALICE), 1);
    assert_eq!(r.owned_car_count(BOB), 0);
}

#[test]
fn buy_zero_priced_asset_rejected() {
    let mut r = Registry::new();
    assert_eq!(r.mint(ALICE, 77), Ok(Event::Created(ALICE, 77)));
    assert_eq!(r.buy_prepare(BOB, 77), Err(Error::NotForSale));
    assert_eq!(r.buy_commit(BOB, 77), Err(Error::NotForSale));
    // Nothing moved.
    assert_eq!(r.owner_of(77), Some(ALICE));
    assert_eq!(r.car(77), Some(Car { id: 77, price: 0, stored_fee: 0 }));
    assert_eq!(r.owned_car_count(ALICE), 1);
    assert_eq!(r.owned_car_count(BOB), 0);
}

#[test]
fn buy_own_asset_rejected() {
    let mut r = Registry::new();
    assert_eq!(r.mint(ALICE, 77), Ok(Event::Created(ALICE, 77)));
    assert_eq!(r.set_price(ALICE, 77, 60), Ok(Event::PriceSet(ALICE, 77, 60)));
    assert_eq!(r.buy_prepare(ALICE, 77), Err(Error::SelfTrade));
    assert_eq!(r.buy_commit(ALICE, 77), Err(Error::SelfTrade));
    assert_eq!(r.owner_of(77), Some(ALICE));
}

#[test]
fn buy_missing_asset_rejected() {
    let mut r = Registry::new();
    assert_eq!(r.buy_prepare(BOB, 77), Err(Error::NotFound));
    assert_eq!(r.buy_commit(BOB, 77), Err(Error::NotFound));
}

#[test]
fn accrue_fee_accumulates() {
    let mut r = Registry::new();
    assert_eq!(r.mint(ALICE, 4), Ok(Event::Created(ALICE, 4)));
    assert_eq!(r.accrue_fee(4, 30), Ok(Event::FeePaid(4, 30)));
    assert_eq!(r.accrue_fee(4, 12), Ok(Event::FeePaid(4, 12)));
    assert_eq!(r.car(4), Some(Car { id: 4, price: 0, stored_fee: 42 }));
}

#[test]
fn accrue_fee_overflow_rejected() {
    let mut r = Registry::new();
    assert_eq!(r.mint(ALICE, 4), Ok(Event::Created(ALICE, 4)));
    assert_eq!(r.accrue_fee(4, 42), Ok(Event::FeePaid(4, 42)));
    assert_eq!(r.accrue_fee(4, u64::MAX - 41), Err(Error::Overflow));
    // The stored fee is exactly its prior value.
    assert_eq!(r.car(4), Some(Car { id: 4, price: 0, stored_fee: 42 }));
    // The largest amount that still fits is accepted.
    assert_eq!(r.accrue_fee(4, u64::MAX - 42), Ok(Event::FeePaid(4, u64::MAX - 42)));
    assert_eq!(r.car(4), Some(Car { id: 4, price: 0, stored_fee: u64::MAX }));
}

#[test]
fn accrue_fee_missing_asset_rejected() {
    let mut r = Registry::new();
    assert_eq!(r.accrue_fee(4, 1), Err(Error::NotFound));
}

#[test]
fn create_token_overwrites_balance() {
    let mut ledger = Ledger::new();
    assert_eq!(ledger.amount_of(ALICE), 0);
    ledger.create_token(ALICE, 50);
    assert_eq!(ledger.amount_of(ALICE), 50);
    ledger.create_token(ALICE, 7);
    assert_eq!(ledger.amount_of(ALICE), 7);
    assert_eq!(ledger.amount_of(BOB), 0);
}

#[test]
fn counts_sum_to_global_count() {
    let mut r = Registry::new();
    assert_eq!(r.mint(ALICE, 1), Ok(Event::Created(ALICE, 1)));
    assert_eq!(r.mint(ALICE, 2), Ok(Event::Created(ALICE, 2)));
    assert_eq!(r.mint(BOB, 3), Ok(Event::Created(BOB, 3)));
    assert_eq!(r.transfer(ALICE, CAROL, 1), Ok(Event::Transferred(ALICE, CAROL, 1)));
    // The per-owner counters sum to the global counter.
    let sum = r.owned_car_count(ALICE) + r.owned_car_count(BOB) + r.owned_car_count(CAROL);
    assert_eq!(r.all_cars_count(), sum);
    // Each identifier sits in exactly one owner's row.
    for id in [1u64, 2, 3] {
        let mut appearances = 0;
        for owner in [ALICE, BOB, CAROL] {
            for pos in 0..r.owned_car_count(owner) {
                if r.car_of_owner_by_index(owner, pos) == Some(id) {
                    appearances += 1;
                }
            }
        }
        assert_eq!(appearances, 1);
    }
}
