use nebula::effect::Effect;
use nebula::effect::ListingChange;
use nebula::identity::Identity;
use nebula::marketplace::Error;
use nebula::marketplace::MarketplaceContract;
use std::collections::HashMap;

/// A stand-in for the asset services: balances by asset and holder.
struct Ledger {
    balances: HashMap<(Identity, Identity), i128>,
}

impl Ledger {
    fn balance(&self, asset: Identity, who: Identity) -> i128 {
        *self.balances.get(&(asset, who)).unwrap_or(&0)
    }

    fn mint(&mut self, asset: Identity, who: Identity, amount: i128) {
        *self.balances.entry((asset, who)).or_insert(0) += amount;
    }

    fn carry_out(&mut self, effects: &[Effect]) {
        for e in effects {
            if let Effect::Transfer {
                asset,
                from,
                to,
                amount,
            } = *e
            {
                assert!(self.balance(asset, from) >= amount);
                *self.balances.entry((asset, from)).or_insert(0) -= amount;
                *self.balances.entry((asset, to)).or_insert(0) += amount;
            }
        }
    }
}

struct Setup {
    contract: MarketplaceContract,
    address: Identity,
    token: Identity,
    asset: Identity,
    seller: Identity,
    buyer: Identity,
    ledger: Ledger,
}

impl Setup {
    fn create_listing(&mut self, price: i128, quantity: i128) -> Result<u64, Error> {
        let balance = self.ledger.balance(self.asset, self.seller);
        let (id, effects) =
            self.contract
                .create_listing(self.seller, self.asset, price, quantity, balance)?;
        self.ledger.carry_out(&effects);
        Ok(id)
    }

    fn buy_listing(&mut self, id: u64) -> Result<Vec<Effect>, Error> {
        let balance = self.ledger.balance(self.token, self.buyer);
        let effects = self.contract.buy_listing(self.buyer, id, balance)?;
        self.ledger.carry_out(&effects);
        Ok(effects)
    }
}

fn setup_test() -> Setup {
    let address = Identity::program(0, 1000);
    let token = Identity::program(0, 2000);
    let asset = Identity::program(0, 3000);
    let admin = Identity::account(0, 1);
    let mut contract = MarketplaceContract::new();
    let effects = contract.init(address, token, admin).unwrap();
    assert_eq!(vec![Effect::Authorize(admin)], effects);
    Setup {
        contract,
        address,
        token,
        asset,
        seller: Identity::account(0, 10),
        buyer: Identity::account(0, 20),
        ledger: Ledger {
            balances: HashMap::new(),
        },
    }
}

#[test]
fn cannot_initialize_marketplace_twice() {
    let mut client = MarketplaceContract::new();

    let address = Identity::account(0, 5); // Address just for satisfying interfaces.
    client.init(address, address, address).unwrap();
    let r = client.init(address, address, address);
    assert_eq!(Err(Error::AlreadyInitialized), r);
    assert_eq!(1, r.unwrap_err().code());
}

#[test]
fn can_create_listing() {
    let mut s = setup_test();

    s.ledger.mint(s.asset, s.seller, 2); // Seller has 2 NFTs.

    let id = s.create_listing(100, 2).unwrap();
    let listing = s.contract.get_listing(id).unwrap().unwrap();

    assert_eq!(listing.id, 1);
    assert_eq!(listing.listed, true);
    assert_eq!(listing.owner, s.seller);
    assert_eq!(listing.asset_address, s.asset);

    assert_eq!(s.ledger.balance(s.asset, s.address), 2); // Now the contract has the ownership of the NFTs.
    assert_eq!(listing.price, 100);
    assert_eq!(listing.quantity, 2);
}

#[test]
fn create_listing_asks_for_the_seller_and_the_transfer() {
    let mut s = setup_test();
    let (id, effects) = s
        .contract
        .create_listing(s.seller, s.asset, 100, 2, 2)
        .unwrap();
    assert_eq!(
        effects,
        vec![
            Effect::Authorize(s.seller),
            Effect::Transfer {
                asset: s.asset,
                from: s.seller,
                to: s.address,
                amount: 2
            },
            Effect::Listing {
                change: ListingChange::Created,
                by: s.seller,
                id
            },
        ]
    );
}

#[test]
fn create_listing_increments_id() {
    let mut s = setup_test();

    s.ledger.mint(s.asset, s.seller, 4);

    let id_1 = s.create_listing(100, 2).unwrap();
    let id_2 = s.create_listing(100, 2).unwrap();

    assert_eq!(1, id_1);
    assert_eq!(2, id_2);
}

#[test]
fn cannot_create_negative_price_listing() {
    let mut s = setup_test();
    s.ledger.mint(s.asset, s.seller, 2);
    let r = s.create_listing(-100, 2);
    assert_eq!(Err(Error::InvalidAssetPrice), r);
    assert_eq!(2, r.unwrap_err().code());
}

#[test]
fn cannot_create_zero_price_listing() {
    let mut s = setup_test();
    s.ledger.mint(s.asset, s.seller, 2);
    let r = s.create_listing(0, 2);
    assert_eq!(Err(Error::InvalidAssetPrice), r);
    assert_eq!(2, r.unwrap_err().code());
}

#[test]
fn cannot_create_negative_quantity_listing() {
    let mut s = setup_test();
    s.ledger.mint(s.asset, s.seller, 2);
    let r = s.create_listing(100, -2);
    assert_eq!(Err(Error::InvalidQuantity), r);
    assert_eq!(7, r.unwrap_err().code());
}

#[test]
fn cannot_create_zero_quantity_listing() {
    let mut s = setup_test();
    s.ledger.mint(s.asset, s.seller, 2);
    let r = s.create_listing(100, 0);
    assert_eq!(Err(Error::InvalidQuantity), r);
    assert_eq!(7, r.unwrap_err().code());
}

#[test]
fn cannot_list_more_than_is_held() {
    let mut s = setup_test();
    s.ledger.mint(s.asset, s.seller, 1);
    let r = s.create_listing(100, 2);
    assert_eq!(Err(Error::BalanceTooLow), r);
    assert_eq!(3, r.unwrap_err().code());
    // Nothing stays behind: the next listing gets the first id.
    assert_eq!(Ok(None), s.contract.get_listing(1));
    assert_eq!(Ok(1), s.create_listing(100, 1));
}

#[test]
fn can_create_listing_and_pause() {
    let mut s = setup_test();

    s.ledger.mint(s.asset, s.seller, 2);
    let id = s.create_listing(100, 2).unwrap();
    let effects = s.contract.pause_listing(id).unwrap();
    assert_eq!(
        effects,
        vec![
            Effect::Authorize(s.seller),
            Effect::Listing {
                change: ListingChange::Paused,
                by: s.seller,
                id
            }
        ]
    );
    let listing = s.contract.get_listing(id).unwrap().unwrap();

    assert_eq!(listing.listed, false);
    assert_eq!(listing.owner, s.seller);
    assert_eq!(s.ledger.balance(s.asset, s.address), 2); // Now the contract keeps the ownership of the NFTs.
    assert_eq!(listing.price, 100);
    assert_eq!(listing.quantity, 2);

    s.contract.unpause_listing(id).unwrap();
    let listing = s.contract.get_listing(id).unwrap().unwrap();
    assert_eq!(listing.listed, true);
    assert_eq!(listing.price, 100);
    assert_eq!(listing.quantity, 2);
}

#[test]
fn a_sold_listing_is_paid_for_handed_over_and_gone() {
    let mut s = setup_test();

    s.ledger.mint(s.asset, s.seller, 2);
    let id = s.create_listing(100, 2).unwrap();

    s.ledger.mint(s.token, s.buyer, 400);

    let effects = s.buy_listing(id).unwrap();
    assert_eq!(
        effects,
        vec![
            Effect::Authorize(s.buyer),
            Effect::Transfer {
                asset: s.token,
                from: s.buyer,
                to: s.seller,
                amount: 200
            },
            Effect::Transfer {
                asset: s.asset,
                from: s.address,
                to: s.buyer,
                amount: 2
            },
            Effect::Listing {
                change: ListingChange::Bought,
                by: s.buyer,
                id
            },
        ]
    );

    // The listing is gone.
    assert_eq!(Ok(None), s.contract.get_listing(id));

    assert_eq!(s.ledger.balance(s.asset, s.address), 0); // Contract no longer the owner of the NFTS.
    assert_eq!(s.ledger.balance(s.asset, s.buyer), 2); // Now the buyer has the ownership of the NFTs.

    assert_eq!(
        s.ledger.balance(s.token, s.seller), // Seller has 200 tokens more.
        200
    );
    assert_eq!(
        s.ledger.balance(s.token, s.buyer), // Buyer has 200 tokes less.
        200
    );
}

#[test]
fn cannot_buy_without_the_funds() {
    let mut s = setup_test();
    s.ledger.mint(s.asset, s.seller, 2);
    let id = s.create_listing(100, 2).unwrap();
    s.ledger.mint(s.token, s.buyer, 199);
    assert_eq!(Err(Error::BalanceTooLow), s.buy_listing(id));
    assert!(s.contract.get_listing(id).unwrap().is_some());
    s.ledger.mint(s.token, s.buyer, 1);
    assert!(s.buy_listing(id).is_ok());
}

#[test]
fn a_cost_beyond_a_word_cannot_be_paid() {
    let mut s = setup_test();
    let (id, _) = s
        .contract
        .create_listing(s.seller, s.asset, i128::MAX, 2, 2)
        .unwrap();
    assert_eq!(
        Err(Error::BalanceTooLow),
        s.contract.buy_listing(s.buyer, id, i128::MAX)
    );
}

#[test]
fn can_update_a_listing() {
    let mut s = setup_test();

    s.ledger.mint(s.asset, s.seller, 10);
    let id = s.create_listing(100, 2).unwrap();

    let listing = s.contract.get_listing(id).unwrap().unwrap();

    assert_eq!(listing.listed, true);
    assert_eq!(listing.owner, s.seller);
    assert_eq!(listing.price, 100);
    assert_eq!(listing.quantity, 2);

    let effects = s.contract.update_price(id, 200).unwrap();
    assert_eq!(Effect::Authorize(s.seller), effects[0]);

    let listing = s.contract.get_listing(id).unwrap().unwrap();
    assert_eq!(listing.listed, true);
    assert_eq!(listing.owner, s.seller);
    assert_eq!(listing.price, 200);
    assert_eq!(listing.quantity, 2);
}

#[test]
fn cannot_sell_when_unlisted() {
    let mut s = setup_test();

    s.ledger.mint(s.asset, s.seller, 2);
    let id = s.create_listing(100, 2).unwrap();
    s.contract.pause_listing(id).unwrap();

    s.ledger.mint(s.token, s.buyer, 400);
    let r = s.buy_listing(id);
    assert_eq!(Err(Error::AssetNotListed), r);
    assert_eq!(4, r.unwrap_err().code());
}

#[test]
fn can_remove_a_listing() {
    let mut s = setup_test();

    s.ledger.mint(s.asset, s.seller, 2);

    let id: u64 = s.create_listing(100, 2).unwrap();
    let effects = s.contract.remove_listing(id).unwrap();
    assert_eq!(
        effects,
        vec![
            Effect::Authorize(s.seller),
            Effect::Listing {
                change: ListingChange::Removed,
                by: s.seller,
                id
            }
        ]
    );

    let listing = s.contract.get_listing(id).unwrap();
    assert!(listing.is_none());
}

#[test]
fn cannot_do_negative_update() {
    let mut s = setup_test();
    s.ledger.mint(s.asset, s.seller, 2);
    let id = s.create_listing(100, 2).unwrap();
    let r = s.contract.update_price(id, -1);
    assert_eq!(Err(Error::InvalidAssetPrice), r);
    assert_eq!(2, r.unwrap_err().code());
    assert_eq!(Err(Error::InvalidAssetPrice), s.contract.update_price(id, 0));
    assert_eq!(100, s.contract.get_listing(id).unwrap().unwrap().price);
}

#[test]
fn a_listing_that_is_not_there_cannot_be_changed() {
    let mut s = setup_test();
    assert_eq!(Err(Error::AssetNotListed), s.contract.update_price(9, 5));
    assert_eq!(Err(Error::AssetNotListed), s.contract.pause_listing(9));
    assert_eq!(Err(Error::AssetNotListed), s.contract.unpause_listing(9));
    assert_eq!(Err(Error::AssetNotListed), s.contract.remove_listing(9));
    assert_eq!(Err(Error::AssetNotListed), s.buy_listing(9));
}

#[test]
fn cannot_create_listing_without_initialize() {
    let mut client = MarketplaceContract::new();
    let r = client.create_listing(Identity::account(0, 1), Identity::program(0, 2), 100, 2, 2);
    assert_eq!(Error::NotInitialized, r.unwrap_err());
    assert_eq!(6, Error::NotInitialized.code());
}

#[test]
fn cannot_buy_listing_without_initialize() {
    let mut client = MarketplaceContract::new();
    let r = client.buy_listing(Identity::account(0, 1), 1, 100);
    assert_eq!(Err(Error::NotInitialized), r);
}

#[test]
fn cannot_get_listing_without_initialize() {
    let client = MarketplaceContract::new();
    assert_eq!(Err(Error::NotInitialized), client.get_listing(1));
    assert_eq!(Err(Error::NotInitialized), client.must_be_initialized());
}

#[test]
fn cannot_pause_listing_without_initialize() {
    let mut client = MarketplaceContract::new();
    assert_eq!(Err(Error::NotInitialized), client.pause_listing(1));
}

#[test]
fn cannot_unpause_listing_without_initialize() {
    let mut client = MarketplaceContract::new();
    assert_eq!(Err(Error::NotInitialized), client.unpause_listing(1));
}

#[test]
fn cannot_update_price_listing_without_initialize() {
    let mut client = MarketplaceContract::new();
    assert_eq!(Err(Error::NotInitialized), client.update_price(1, 100));
}

#[test]
fn cannot_remove_listing_without_initialize() {
    let mut client = MarketplaceContract::new();
    assert_eq!(Err(Error::NotInitialized), client.remove_listing(1));
}

#[test]
fn marketplace_register_asks_for_the_authorization() {
    let trader = Identity::account(0, 4);
    assert_eq!(
        vec![Effect::Authorize(trader)],
        MarketplaceContract::register(trader)
    );
}
