use kitty::dna::{breed_dna, mint_id};
use kitty::{AccountId, Event, Kitty, KittyError, KittyId, KittyModule};

const MAX_OWNED: usize = 3;
const STAKE: u128 = 100;

struct Harness {
    module: KittyModule,
    draws: u128,
}

impl Harness {
    fn new() -> Harness {
        Harness { module: KittyModule::new(MAX_OWNED, STAKE), draws: 0 }
    }

    fn draw(&mut self) -> u128 {
        self.draws += 1;
        self.draws.wrapping_mul(0x9e37_79b9_7f4a_7c15_f39c_c060_5ced_c835)
    }

    fn create(&mut self, who: AccountId) -> Result<Event, KittyError> {
        let dna = self.draw();
        let salt = self.draw();
        self.module.create(who, dna, salt)
    }

    fn breed(&mut self, who: AccountId, a: KittyId, b: KittyId) -> Result<Event, KittyError> {
        let mask = self.draw();
        let salt = self.draw();
        self.module.breed(who, a, b, mask, salt)
    }

    fn owned(&self, who: AccountId) -> Vec<KittyId> {
        self.module.kitties_owned(who)
    }
}

#[test]
fn create_kitty_test() {
    let mut h = Harness::new();
    h.module.set_balance(1, 10000000, 0);
    assert_eq!(h.module.free_balance(1), 10000000);
    let ev = h.create(1).unwrap();
    let kitty_id = h.owned(1)[0];
    assert_eq!(ev, Event::Created { owner: 1, id: kitty_id });

    assert!(h.create(1).is_ok());
    assert!(h.create(1).is_ok());
    assert_eq!(h.create(1), Err(KittyError::ExceedMaxKittyOwned));
    assert_eq!(h.create(2), Err(KittyError::NotEnoughBalance));
}

#[test]
fn set_price_test() {
    let mut h = Harness::new();
    h.module.set_balance(1, 10000000, 0);
    assert_eq!(h.module.free_balance(1), 10000000);
    h.module.set_balance(2, 10000000, 0);

    assert!(h.create(1).is_ok());
    let kitty_id = h.owned(1)[0];
    assert_eq!(
        h.module.set_price(1, kitty_id, Some(32)),
        Ok(Event::PriceSet { owner: 1, id: kitty_id, price: Some(32) })
    );

    let test_id = KittyId::new([0u8; 32]);
    assert_eq!(h.module.set_price(2, test_id, Some(32)), Err(KittyError::KittyNotExist));
    assert_eq!(h.module.set_price(2, kitty_id, Some(32)), Err(KittyError::NotKittyOwner));
    assert_eq!(h.module.kitty(&kitty_id).unwrap().price, Some(32));
}

#[test]
fn sell_kitty_test() {
    let mut h = Harness::new();
    h.module.set_balance(1, 10000000, 0);
    assert_eq!(h.module.free_balance(1), 10000000);
    h.module.set_balance(2, 10000000, 0);

    assert!(h.create(1).is_ok());
    let kitty_id = h.owned(1)[0];
    assert_eq!(
        h.module.sell(1, 2, kitty_id),
        Ok(Event::Transferred { from: 1, to: 2, id: kitty_id })
    );
    assert_eq!(h.owned(2), vec![kitty_id]);
    assert!(h.owned(1).is_empty());
}

#[test]
fn buy_test() {
    let mut h = Harness::new();
    h.module.set_balance(1, 10000000, 0);
    assert_eq!(h.module.free_balance(1), 10000000);
    h.module.set_balance(2, 10000000, 0);

    let test_id = KittyId::new([0u8; 32]);
    assert_eq!(h.module.buy(1, test_id, 25), Err(KittyError::KittyNotExist));

    assert!(h.create(1).is_ok());
    let kitty_id = h.owned(1)[0];
    assert_eq!(h.module.buy(1, kitty_id, 25), Err(KittyError::BuyerIsKittyOwner));
    assert_eq!(h.module.buy(2, kitty_id, 25), Err(KittyError::KittyNotForSale));

    assert!(h.module.set_price(1, kitty_id, Some(10000)).is_ok());
    h.module.set_balance(3, 1000, 0);
    assert_eq!(h.module.buy(4, kitty_id, 25), Err(KittyError::KittyBidPriceTooLow));

    // The listed price is what is charged, so the buyer must hold less than
    // it for the payment to be refused.
    assert!(h.module.set_price(1, kitty_id, Some(1000)).is_ok());
    h.module.set_balance(3, 999, 0);
    assert_eq!(h.module.buy(3, kitty_id, 10002), Err(KittyError::NotEnoughBalance));

    assert!(h.create(2).is_ok());
    assert!(h.create(2).is_ok());
    assert!(h.create(2).is_ok());
    assert_eq!(h.module.buy(2, kitty_id, 10002), Err(KittyError::ExceedMaxKittyOwned));

    h.module.set_balance(4, 100000, 0);
    assert_eq!(
        h.module.buy(4, kitty_id, 10002),
        Ok(Event::Bought { buyer: 4, seller: 1, id: kitty_id, price: 1000 })
    );
    assert_eq!(h.module.free_balance(4), 99000);
    assert_eq!(h.module.free_balance(1), 10000000 - STAKE + 1000);
    assert_eq!(h.owned(4), vec![kitty_id]);
}

#[test]
fn transfer_test() {
    let mut h = Harness::new();
    h.module.set_balance(1, 10000000, 0);
    assert_eq!(h.module.free_balance(1), 10000000);
    h.module.set_balance(2, 10000000, 0);
    h.module.set_balance(3, 10000000, 0);

    assert!(h.create(1).is_ok());
    let kitty_id = h.owned(1)[0];

    assert_eq!(h.module.transfer(2, 1, kitty_id), Err(KittyError::NotKittyOwner));
    assert_eq!(h.module.transfer(1, 1, kitty_id), Err(KittyError::TransferToSelf));

    assert!(h.create(2).is_ok());
    assert!(h.create(2).is_ok());
    assert!(h.create(2).is_ok());
    assert_eq!(h.module.transfer(1, 2, kitty_id), Err(KittyError::ExceedMaxKittyOwned));

    assert!(h.create(1).is_ok());
    let kitty_id_2 = h.owned(1)[0];
    assert_eq!(
        h.module.transfer(1, 3, kitty_id),
        Ok(Event::Transferred { from: 1, to: 3, id: kitty_id_2 })
    );
}

#[test]
fn breed_test() {
    let mut h = Harness::new();
    h.module.set_balance(1, 10000000, 0);
    h.module.set_balance(2, 10000000, 0);
    assert_eq!(h.module.free_balance(1), 10000000);

    assert!(h.create(1).is_ok());
    assert!(h.create(1).is_ok());
    let kitty_id = h.owned(1)[0];
    let kitty_id_2 = h.owned(1)[1];
    assert_eq!(h.breed(2, kitty_id, kitty_id_2), Err(KittyError::NotKittyOwner));
    assert!(h.breed(1, kitty_id, kitty_id_2).is_ok());
    assert_eq!(h.owned(1).len(), 3);
}

#[test]
fn fourth_create_exceeds_capacity() {
    let mut h = Harness::new();
    h.module.set_balance(1, 10000000, 0);
    for _ in 0..3 {
        assert!(h.create(1).is_ok());
    }
    let before = h.owned(1);
    assert_eq!(h.create(1), Err(KittyError::ExceedMaxKittyOwned));
    assert_eq!(h.owned(1).len(), 3);
    assert_eq!(h.owned(1), before);
    assert_eq!(h.module.kitties_count(), 3);
    assert_eq!(h.module.reserved_balance(1), 3 * STAKE);
}

#[test]
fn listed_kitty_is_bought_at_price() {
    let mut h = Harness::new();
    h.module.set_balance(1, 10000, 0);
    h.module.set_balance(2, 1000, 0);
    assert!(h.create(1).is_ok());
    let id = h.owned(1)[0];
    assert!(h.module.set_price(1, id, Some(1000)).is_ok());
    let seller_before = h.module.free_balance(1);
    assert!(h.module.buy(2, id, 1000).is_ok());
    assert_eq!(h.owned(2), vec![id]);
    assert!(h.owned(1).is_empty());
    assert_eq!(h.module.free_balance(2), 0);
    assert_eq!(h.module.free_balance(1), seller_before + 1000);
    let k = h.module.kitty(&id).unwrap();
    assert_eq!(k.owner, 2);
    assert_eq!(k.price, None);
}

#[test]
fn self_transfer_changes_nothing() {
    let mut h = Harness::new();
    h.module.set_balance(1, 10000, 0);
    assert!(h.create(1).is_ok());
    let id = h.owned(1)[0];
    assert!(h.module.set_price(1, id, Some(5)).is_ok());
    let record = h.module.kitty(&id);
    assert_eq!(h.module.transfer(1, 1, id), Err(KittyError::TransferToSelf));
    assert_eq!(h.owned(1), vec![id]);
    assert_eq!(h.module.kitty(&id), record);
    assert_eq!(h.module.free_balance(1), 10000 - STAKE);
}

#[test]
fn bid_below_price_is_refused_and_bid_above_pays_price() {
    let mut h = Harness::new();
    h.module.set_balance(1, 10000, 0);
    h.module.set_balance(2, 5000, 0);
    assert!(h.create(1).is_ok());
    let id = h.owned(1)[0];
    assert!(h.module.set_price(1, id, Some(300)).is_ok());
    assert_eq!(h.module.buy(2, id, 299), Err(KittyError::KittyBidPriceTooLow));
    assert_eq!(h.module.free_balance(2), 5000);
    assert_eq!(
        h.module.buy(2, id, 4000),
        Ok(Event::Bought { buyer: 2, seller: 1, id, price: 300 })
    );
    assert_eq!(h.module.free_balance(2), 4700);
}

#[test]
fn create_reserves_stake() {
    let mut h = Harness::new();
    h.module.set_balance(7, 1000, 0);
    let ev = h.create(7).unwrap();
    let id = h.owned(7)[0];
    assert_eq!(ev, Event::Created { owner: 7, id });
    assert_eq!(h.module.free_balance(7), 900);
    assert_eq!(h.module.reserved_balance(7), 100);
    assert_eq!(h.module.kitties_count(), 1);
    let k = h.module.kitty(&id).unwrap();
    assert_eq!(k.owner, 7);
    assert_eq!(k.price, None);
}

#[test]
fn create_with_exact_stake_succeeds_and_below_fails() {
    let mut h = Harness::new();
    h.module.set_balance(1, STAKE, 0);
    h.module.set_balance(2, STAKE - 1, 0);
    assert!(h.create(1).is_ok());
    assert_eq!(h.module.free_balance(1), 0);
    assert_eq!(h.create(2), Err(KittyError::NotEnoughBalance));
    assert_eq!(h.module.free_balance(2), STAKE - 1);
    assert_eq!(h.module.reserved_balance(2), 0);
}

#[test]
fn same_draws_give_taken_identifier() {
    let mut m = KittyModule::new(MAX_OWNED, STAKE);
    m.set_balance(1, 10000, 0);
    assert!(m.create(1, 5, 6).is_ok());
    assert_eq!(m.create(1, 5, 6), Err(KittyError::KittyIdTaken));
    assert_eq!(m.kitties_owned(1).len(), 1);
    assert_eq!(m.kitties_count(), 1);
}

#[test]
fn identifier_is_blake2_256_of_payload() {
    let id = mint_id(1, 2, 3);
    let expected: [u8; 32] = [
        64, 93, 208, 185, 138, 141, 65, 89, 146, 240, 145, 147, 70, 236, 46, 235, 140, 34, 158,
        103, 79, 49, 239, 198, 181, 91, 108, 183, 146, 109, 32, 12,
    ];
    assert_eq!(id.bytes, expected);
    assert_ne!(mint_id(1, 2, 3), mint_id(2, 2, 3));
}

#[test]
fn created_identifier_matches_derivation() {
    let mut m = KittyModule::new(MAX_OWNED, STAKE);
    m.set_balance(1, 10000, 0);
    assert_eq!(m.create(1, 2, 3), Ok(Event::Created { owner: 1, id: mint_id(1, 2, 3) }));
}

#[test]
fn breed_mixes_bits_by_mask() {
    assert_eq!(breed_dna(0x1234, 0xABCD, 0x00FF), 0xAB34);
    assert_eq!(breed_dna(0xFF00, 0x0FF0, 0xF0F0), 0xFF00);
    assert_eq!(breed_dna(u128::MAX, 0, 0), 0);
    assert_eq!(breed_dna(u128::MAX, 0, u128::MAX), u128::MAX);
}

#[test]
fn breed_keeps_parents_and_mixes_their_dna() {
    let mut m = KittyModule::new(MAX_OWNED, STAKE);
    m.set_balance(1, 10000, 0);
    assert!(m.create(1, 0x1234, 10).is_ok());
    assert!(m.create(1, 0xABCD, 11).is_ok());
    let a = m.kitties_owned(1)[0];
    let b = m.kitties_owned(1)[1];
    let ka = m.kitty(&a).unwrap();
    let kb = m.kitty(&b).unwrap();
    let ev = m.breed(1, a, b, 0x00FF, 12).unwrap();
    let child = m.kitties_owned(1)[2];
    assert_eq!(ev, Event::Created { owner: 1, id: child });
    assert_eq!(m.kitty(&a), Some(ka));
    assert_eq!(m.kitty(&b), Some(kb));
    assert_eq!(m.kitty(&child), Some(Kitty { dna: 0xAB34, owner: 1, price: None }));
    assert_eq!(m.kitties_count(), 3);
    assert_eq!(m.reserved_balance(1), 3 * STAKE);
}

#[test]
fn breed_errors() {
    let mut m = KittyModule::new(MAX_OWNED, STAKE);
    m.set_balance(1, 10000, 0);
    assert!(m.create(1, 1, 1).is_ok());
    assert!(m.create(1, 2, 2).is_ok());
    let a = m.kitties_owned(1)[0];
    let b = m.kitties_owned(1)[1];
    let missing = KittyId::new([9u8; 32]);
    assert_eq!(m.breed(1, a, missing, 0, 0), Err(KittyError::KittyNotExist));
    assert!(m.create(1, 3, 3).is_ok());
    assert_eq!(m.breed(1, a, b, 0, 4), Err(KittyError::ExceedMaxKittyOwned));
    assert_eq!(m.kitties_count(), 3);
}

#[test]
fn breed_without_stake_is_refused() {
    let mut m = KittyModule::new(MAX_OWNED, STAKE);
    m.set_balance(1, 2 * STAKE, 0);
    assert!(m.create(1, 1, 1).is_ok());
    assert!(m.create(1, 2, 2).is_ok());
    let a = m.kitties_owned(1)[0];
    let b = m.kitties_owned(1)[1];
    assert_eq!(m.breed(1, a, b, 0, 4), Err(KittyError::NotEnoughBalance));
    assert_eq!(m.kitties_owned(1).len(), 2);
}

#[test]
fn transfer_keeps_order_and_clears_price() {
    let mut m = KittyModule::new(MAX_OWNED, STAKE);
    m.set_balance(1, 10000, 0);
    assert!(m.create(1, 1, 1).is_ok());
    assert!(m.create(1, 2, 2).is_ok());
    assert!(m.create(1, 3, 3).is_ok());
    let ids = m.kitties_owned(1);
    assert!(m.set_price(1, ids[1], Some(50)).is_ok());
    assert!(m.transfer(1, 2, ids[1]).is_ok());
    assert_eq!(m.kitties_owned(1), vec![ids[0], ids[2]]);
    assert_eq!(m.kitties_owned(2), vec![ids[1]]);
    assert_eq!(m.kitty(&ids[1]).unwrap().price, None);
    assert_eq!(m.kitty(&ids[1]).unwrap().owner, 2);
    assert_eq!(m.free_balance(2), 0);
    assert_eq!(m.transfer(1, 2, KittyId::new([1u8; 32])), Err(KittyError::KittyNotExist));
}

#[test]
fn delisted_kitty_is_not_for_sale() {
    let mut m = KittyModule::new(MAX_OWNED, STAKE);
    m.set_balance(1, 10000, 0);
    m.set_balance(2, 10000, 0);
    assert!(m.create(1, 1, 1).is_ok());
    let id = m.kitties_owned(1)[0];
    assert!(m.set_price(1, id, Some(10)).is_ok());
    assert!(m.set_price(1, id, None).is_ok());
    assert_eq!(m.buy(2, id, 10), Err(KittyError::KittyNotForSale));
}
