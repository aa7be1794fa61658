//! A marketplace of listings: sellers hand assets into the program's
//! custody, buyers pay the seller in the trading asset and get them.

use std::collections::HashMap;
use vstd::prelude::*;
use crate::effect::outcome;
use crate::effect::Effect;
use crate::effect::ListingChange;
use crate::identity::Identity;

verus! {

/// The failures of the program.
#[derive(Clone, Copy, Debug, PartialEq, Eq, Structural, PartialOrd, Ord)]
pub enum Error {
    /// The program is set up once only.
    AlreadyInitialized,
    /// The price is zero or negative.
    InvalidAssetPrice,
    /// A party does not hold what the operation moves.
    BalanceTooLow,
    /// There is no such listing, or it is paused.
    AssetNotListed,
    /// The program has not been set up.
    NotInitialized,
    /// The quantity is zero or negative.
    InvalidQuantity,
}

impl Error {
    /// The number under which the failure is reported to the caller.
    pub open spec fn spec_code(self) -> u32 {
        match self {
            Error::AlreadyInitialized => 1,
            Error::InvalidAssetPrice => 2,
            Error::BalanceTooLow => 3,
            Error::AssetNotListed => 4,
            Error::NotInitialized => 6,
            Error::InvalidQuantity => 7,
        }
    }

    /// The number under which the failure is reported to the caller.
    pub fn code(&self) -> (r: u32)
        ensures
            r == self.spec_code(),
    {
        match self {
            Error::AlreadyInitialized => 1,
            Error::InvalidAssetPrice => 2,
            Error::BalanceTooLow => 3,
            Error::AssetNotListed => 4,
            Error::NotInitialized => 6,
            Error::InvalidQuantity => 7,
        }
    }
}

/// A listed asset.
#[derive(Clone, Copy, Debug, PartialEq)]
pub struct Asset {
    /// The id that the program gave the listing.
    pub id: u64,
    /// The asset that is for sale.
    pub asset_address: Identity,
    /// Who listed it.
    pub owner: Identity,
    /// The price of one unit, in the trading asset.
    pub price: i128,
    /// How many units are for sale.
    pub quantity: i128,
    /// Whether the listing can be bought; a paused listing cannot.
    pub listed: bool,
}

/// The marketplace: its settings, the next id it will give, its listings.
#[derive(Debug)]
pub struct MarketplaceContract {
    pub initialized: bool,
    /// The program's own identity, which holds listed assets in custody.
    pub address: Identity,
    pub admin: Identity,
    /// The trading asset.
    pub token: Identity,
    /// The id of the next listing.
    pub last_id: u64,
    /// The listings by id.
    pub assets: HashMap<u64, Asset>,
}

/// Whether two states of the program have the same settings and next id.
pub open spec fn same_settings(a: MarketplaceContract, b: MarketplaceContract) -> bool {
    &&& a.initialized == b.initialized
    &&& a.address == b.address
    &&& a.admin == b.admin
    &&& a.token == b.token
    &&& a.last_id == b.last_id
}

/// Whether two states of the program are the same in all that can be seen.
pub open spec fn unchanged(a: MarketplaceContract, b: MarketplaceContract) -> bool {
    same_settings(a, b) && a.assets@ == b.assets@
}

/// Why the listing `id` cannot be changed, if it cannot.
pub open spec fn listing_error(s: MarketplaceContract, id: u64) -> Option<Error> {
    if !s.initialized {
        Some(Error::NotInitialized)
    } else if !s.assets@.dom().contains(id) {
        Some(Error::AssetNotListed)
    } else {
        None
    }
}

/// Whether `balance` covers the cost of a listing: price times quantity,
/// which has to fit a word.
pub open spec fn affordable(a: Asset, balance: i128) -> bool {
    i128::MIN <= a.price * a.quantity <= i128::MAX && balance >= a.price * a.quantity
}

/// What changing a listing asks of the host: its owner's authorization and
/// the announcement.
pub open spec fn change_effects(owner: Identity, change: ListingChange, id: u64) -> Seq<Effect> {
    seq![Effect::Authorize(owner), Effect::Listing { change, by: owner, id }]
}

impl MarketplaceContract {
    /// A marketplace that has not been set up.
    pub fn new() -> (r: MarketplaceContract)
        ensures
            !r.initialized,
            r.assets@ == Map::<u64, Asset>::empty(),
    {
        let nobody = Identity { program: false, hi: 0, lo: 0 };
        MarketplaceContract {
            initialized: false,
            address: nobody,
            admin: nobody,
            token: nobody,
            last_id: 0,
            assets: HashMap::new(),
        }
    }

    /// Sets the marketplace up, once, under the identity `contract`: without
    /// listings, the first of which will get the id 1. The admin must have
    /// authorized it.
    ///
    /// Fails, changing nothing, with `AlreadyInitialized` on a marketplace
    /// that is set up.
    pub fn init(&mut self, contract: Identity, token: Identity, admin: Identity) -> (r: Result<
        Vec<Effect>,
        Error,
    >)
        ensures
            old(self).initialized ==> outcome(r) == Err::<Seq<Effect>, Error>(
                Error::AlreadyInitialized,
            ) && unchanged(*final(self), *old(self)),
            !old(self).initialized ==> outcome(r) == Ok::<Seq<Effect>, Error>(
                seq![Effect::Authorize(admin)],
            ) && final(self).initialized && final(self).address == contract && final(self).admin
                == admin && final(self).token == token && final(self).last_id == 1 && final(self).assets@ == Map::<u64, Asset>::empty(),
    {
        if self.initialized {
            return Err(Error::AlreadyInitialized);
        }
        self.initialized = true;
        self.address = contract;
        self.admin = admin;
        self.token = token;
        self.last_id = 1;
        self.assets = HashMap::new();
        let mut effects: Vec<Effect> = Vec::new();
        effects.push(Effect::Authorize(admin));
        assert(effects@ =~= seq![Effect::Authorize(admin)]);
        Ok(effects)
    }

    /// What an invocation on behalf of `trader` asks of the host: the
    /// trader's authorization.
    pub fn register(trader: Identity) -> (r: Vec<Effect>)
        ensures
            r@ == seq![Effect::Authorize(trader)],
    {
        let mut effects: Vec<Effect> = Vec::new();
        effects.push(Effect::Authorize(trader));
        assert(effects@ =~= seq![Effect::Authorize(trader)]);
        effects
    }

    /// Fails with `NotInitialized` unless the marketplace has been set up.
    pub fn must_be_initialized(&self) -> (r: Result<(), Error>)
        ensures
            self.initialized ==> r == Ok::<(), Error>(()),
            !self.initialized ==> r == Err::<(), Error>(Error::NotInitialized),
    {
        if self.initialized {
            Ok(())
        } else {
            Err(Error::NotInitialized)
        }
    }

    /// The id for the next listing; the one after it is one more.
    pub fn current_id(&mut self) -> (r: u64)
        requires
            old(self).last_id < u64::MAX,
        ensures
            r == old(self).last_id,
            final(self).last_id == old(self).last_id + 1,
            final(self).initialized == old(self).initialized,
            final(self).address == old(self).address,
            final(self).admin == old(self).admin,
            final(self).token == old(self).token,
            final(self).assets@ == old(self).assets@,
    {
        let id = self.last_id;
        self.last_id = id + 1;
        id
    }

    /// The listing `id`, if there is one. Fails with `NotInitialized` on a
    /// marketplace that has not been set up.
    pub fn get_listing(&self, id: u64) -> (r: Result<Option<Asset>, Error>)
        ensures
            !self.initialized ==> r is Err && r->Err_0 == Error::NotInitialized,
            self.initialized ==> r is Ok && r->Ok_0 == (if self.assets@.dom().contains(id) {
                Some(self.assets@[id])
            } else {
                None
            }),
    {
        broadcast use vstd::std_specs::hash::group_hash_axioms;

        if !self.initialized {
            return Err(Error::NotInitialized);
        }
        match self.assets.get(&id) {
            Some(a) => Ok(Some(*a)),
            None => Ok(None),
        }
    }

    /// `seller` lists `quantity` units of `asset` at `price` a unit; they
    /// pass into the program's custody, and the listing gets the next id,
    /// which is returned. `balance` is what the seller holds of the asset.
    ///
    /// Fails, changing nothing: with `InvalidAssetPrice` unless `price` is
    /// positive; with `InvalidQuantity` unless `quantity` is; with
    /// `NotInitialized`; with `BalanceTooLow` where the seller holds less
    /// than `quantity`.
    pub fn create_listing(
        &mut self,
        seller: Identity,
        asset: Identity,
        price: i128,
        quantity: i128,
        balance: i128,
    ) -> (r: Result<(u64, Vec<Effect>), Error>)
        requires
            old(self).last_id < u64::MAX,
        ensures
            r is Err ==> unchanged(*final(self), *old(self)),
            r is Err <==> price <= 0 || quantity <= 0 || !old(self).initialized || balance
                < quantity,
            r is Err ==> r->Err_0 == (if price <= 0 {
                Error::InvalidAssetPrice
            } else if quantity <= 0 {
                Error::InvalidQuantity
            } else if !old(self).initialized {
                Error::NotInitialized
            } else {
                Error::BalanceTooLow
            }),
            r is Ok ==> {
                let id = old(self).last_id;
                &&& r->Ok_0.0 == id
                &&& r->Ok_0.1@ == seq![
                    Effect::Authorize(seller),
                    Effect::Transfer {
                        asset,
                        from: seller,
                        to: old(self).address,
                        amount: quantity,
                    },
                    Effect::Listing { change: ListingChange::Created, by: seller, id },
                ]
                &&& final(self).last_id == id + 1
                &&& final(self).assets@ == old(self).assets@.insert(
                    id,
                    Asset { id, asset_address: asset, owner: seller, price, quantity, listed: true },
                )
                &&& final(self).initialized
                &&& final(self).address == old(self).address
                &&& final(self).admin == old(self).admin
                &&& final(self).token == old(self).token
            },
    {
        broadcast use vstd::std_specs::hash::group_hash_axioms;

        if price <= 0 {
            return Err(Error::InvalidAssetPrice);
        }
        if quantity <= 0 {
            return Err(Error::InvalidQuantity);
        }
        if !self.initialized {
            return Err(Error::NotInitialized);
        }
        if balance < quantity {
            return Err(Error::BalanceTooLow);
        }
        let id = self.current_id();
        self.assets.insert(
            id,
            Asset { id, asset_address: asset, owner: seller, price, quantity, listed: true },
        );
        let mut effects: Vec<Effect> = Vec::new();
        effects.push(Effect::Authorize(seller));
        effects.push(
            Effect::Transfer { asset, from: seller, to: self.address, amount: quantity },
        );
        effects.push(Effect::Listing { change: ListingChange::Created, by: seller, id });
        assert(effects@ =~= seq![
            Effect::Authorize(seller),
            Effect::Transfer { asset, from: seller, to: old(self).address, amount: quantity },
            Effect::Listing { change: ListingChange::Created, by: seller, id },
        ]);
        Ok((id, effects))
    }

    /// `buyer` buys the listing `id`: it pays the seller price times
    /// quantity in the trading asset, gets the units out of custody, and the
    /// listing goes. `balance` is what the buyer holds of the trading asset.
    ///
    /// Fails, changing nothing: with `NotInitialized`; with `AssetNotListed`
    /// where there is no such listing or it is paused; with `BalanceTooLow`
    /// where the buyer holds less than the cost or the cost does not fit a
    /// word.
    pub fn buy_listing(&mut self, buyer: Identity, id: u64, balance: i128) -> (r: Result<
        Vec<Effect>,
        Error,
    >)
        ensures
            r is Err ==> unchanged(*final(self), *old(self)),
            listing_error(*old(self), id) is Some ==> r is Err && r->Err_0 == listing_error(
                *old(self),
                id,
            )->0,
            listing_error(*old(self), id) is None ==> {
                let a = old(self).assets@[id];
                &&& !a.listed ==> r is Err && r->Err_0 == Error::AssetNotListed
                &&& a.listed && !affordable(a, balance) ==> r is Err && r->Err_0
                    == Error::BalanceTooLow
                &&& a.listed && affordable(a, balance) ==> r is Ok && r->Ok_0@ == seq![
                    Effect::Authorize(buyer),
                    Effect::Transfer {
                        asset: old(self).token,
                        from: buyer,
                        to: a.owner,
                        amount: (a.price * a.quantity) as i128,
                    },
                    Effect::Transfer {
                        asset: a.asset_address,
                        from: old(self).address,
                        to: buyer,
                        amount: a.quantity,
                    },
                    Effect::Listing { change: ListingChange::Bought, by: buyer, id },
                ] && same_settings(*final(self), *old(self)) && final(self).assets@ == old(self).assets@.remove(id)
            },
    {
        broadcast use vstd::std_specs::hash::group_hash_axioms;

        if !self.initialized {
            return Err(Error::NotInitialized);
        }
        let a: Asset = match self.assets.get(&id) {
            Some(a) => *a,
            None => {
                return Err(Error::AssetNotListed);
            },
        };
        if !a.listed {
            return Err(Error::AssetNotListed);
        }
        let cost: i128 = match a.price.checked_mul(a.quantity) {
            Some(c) => c,
            None => {
                return Err(Error::BalanceTooLow);
            },
        };
        if balance < cost {
            return Err(Error::BalanceTooLow);
        }
        self.assets.remove(&id);
        let mut effects: Vec<Effect> = Vec::new();
        effects.push(Effect::Authorize(buyer));
        effects.push(Effect::Transfer { asset: self.token, from: buyer, to: a.owner, amount: cost });
        effects.push(
            Effect::Transfer {
                asset: a.asset_address,
                from: self.address,
                to: buyer,
                amount: a.quantity,
            },
        );
        effects.push(Effect::Listing { change: ListingChange::Bought, by: buyer, id });
        assert(effects@ =~= seq![
            Effect::Authorize(buyer),
            Effect::Transfer { asset: self.token, from: buyer, to: a.owner, amount: cost },
            Effect::Transfer {
                asset: a.asset_address,
                from: self.address,
                to: buyer,
                amount: a.quantity,
            },
            Effect::Listing { change: ListingChange::Bought, by: buyer, id },
        ]);
        Ok(effects)
    }

    fn change(&mut self, id: u64, changed: Asset, change: ListingChange) -> (r: Vec<Effect>)
        requires
            old(self).assets@.dom().contains(id),
        ensures
            r@ == change_effects(old(self).assets@[id].owner, change, id),
            same_settings(*final(self), *old(self)),
            final(self).assets@ == old(self).assets@.insert(id, changed),
    {
        broadcast use vstd::std_specs::hash::group_hash_axioms;

        let owner = match self.assets.get(&id) {
            Some(a) => a.owner,
            None => changed.owner,
        };
        self.assets.insert(id, changed);
        let mut effects: Vec<Effect> = Vec::new();
        effects.push(Effect::Authorize(owner));
        effects.push(Effect::Listing { change, by: owner, id });
        assert(effects@ =~= change_effects(owner, change, id));
        effects
    }

    fn listing(&self, id: u64) -> (r: Result<Asset, Error>)
        ensures
            listing_error(*self, id) is Some ==> r is Err && r->Err_0 == listing_error(
                *self,
                id,
            )->0,
            listing_error(*self, id) is None ==> r is Ok && r->Ok_0 == self.assets@[id],
    {
        broadcast use vstd::std_specs::hash::group_hash_axioms;

        if !self.initialized {
            return Err(Error::NotInitialized);
        }
        match self.assets.get(&id) {
            Some(a) => Ok(*a),
            None => Err(Error::AssetNotListed),
        }
    }

    /// The seller sets the price of the listing `id` to `new_price`. The
    /// seller must have authorized it.
    ///
    /// Fails, changing nothing: with `InvalidAssetPrice` unless `new_price`
    /// is positive; with `NotInitialized`; with `AssetNotListed` where there
    /// is no such listing.
    pub fn update_price(&mut self, id: u64, new_price: i128) -> (r: Result<Vec<Effect>, Error>)
        ensures
            r is Err ==> unchanged(*final(self), *old(self)),
            new_price <= 0 ==> r is Err && r->Err_0 == Error::InvalidAssetPrice,
            new_price > 0 && listing_error(*old(self), id) is Some ==> r is Err && r->Err_0
                == listing_error(*old(self), id)->0,
            new_price > 0 && listing_error(*old(self), id) is None ==> r is Ok && r->Ok_0@
                == change_effects(old(self).assets@[id].owner, ListingChange::PriceUpdated, id)
                && same_settings(*final(self), *old(self)) && final(self).assets@ == old(self).assets@.insert(id, Asset { price: new_price, id, ..old(self).assets@[id] }),
    {
        if new_price <= 0 {
            return Err(Error::InvalidAssetPrice);
        }
        let a = match self.listing(id) {
            Ok(a) => a,
            Err(e) => {
                return Err(e);
            },
        };
        let changed = Asset {
            id,
            asset_address: a.asset_address,
            owner: a.owner,
            price: new_price,
            quantity: a.quantity,
            listed: a.listed,
        };
        Ok(self.change(id, changed, ListingChange::PriceUpdated))
    }

    /// The seller pauses the listing `id`: it cannot be bought until it is
    /// unpaused. The seller must have authorized it.
    ///
    /// Fails, changing nothing, with `NotInitialized`, and with
    /// `AssetNotListed` where there is no such listing.
    pub fn pause_listing(&mut self, id: u64) -> (r: Result<Vec<Effect>, Error>)
        ensures
            r is Err ==> unchanged(*final(self), *old(self)),
            listing_error(*old(self), id) is Some ==> r is Err && r->Err_0 == listing_error(
                *old(self),
                id,
            )->0,
            listing_error(*old(self), id) is None ==> r is Ok && r->Ok_0@ == change_effects(
                old(self).assets@[id].owner,
                ListingChange::Paused,
                id,
            ) && same_settings(*final(self), *old(self)) && final(self).assets@ == old(self).assets@.insert(id, Asset { listed: false, id, ..old(self).assets@[id] }),
    {
        let a = match self.listing(id) {
            Ok(a) => a,
            Err(e) => {
                return Err(e);
            },
        };
        let changed = Asset {
            id,
            asset_address: a.asset_address,
            owner: a.owner,
            price: a.price,
            quantity: a.quantity,
            listed: false,
        };
        Ok(self.change(id, changed, ListingChange::Paused))
    }

    /// The seller unpauses the listing `id`: it can be bought again. The
    /// seller must have authorized it.
    ///
    /// Fails, changing nothing, with `NotInitialized`, and with
    /// `AssetNotListed` where there is no such listing.
    pub fn unpause_listing(&mut self, id: u64) -> (r: Result<Vec<Effect>, Error>)
        ensures
            r is Err ==> unchanged(*final(self), *old(self)),
            listing_error(*old(self), id) is Some ==> r is Err && r->Err_0 == listing_error(
                *old(self),
                id,
            )->0,
            listing_error(*old(self), id) is None ==> r is Ok && r->Ok_0@ == change_effects(
                old(self).assets@[id].owner,
                ListingChange::Unpaused,
                id,
            ) && same_settings(*final(self), *old(self)) && final(self).assets@ == old(self).assets@.insert(id, Asset { listed: true, id, ..old(self).assets@[id] }),
    {
        let a = match self.listing(id) {
            Ok(a) => a,
            Err(e) => {
                return Err(e);
            },
        };
        let changed = Asset {
            id,
            asset_address: a.asset_address,
            owner: a.owner,
            price: a.price,
            quantity: a.quantity,
            listed: true,
        };
        Ok(self.change(id, changed, ListingChange::Unpaused))
    }

    /// The seller removes the listing `id` for good. The seller must have
    /// authorized it.
    ///
    /// Fails, changing nothing, with `NotInitialized`, and with
    /// `AssetNotListed` where there is no such listing.
    pub fn remove_listing(&mut self, id: u64) -> (r: Result<Vec<Effect>, Error>)
        ensures
            r is Err ==> unchanged(*final(self), *old(self)),
            listing_error(*old(self), id) is Some ==> r is Err && r->Err_0 == listing_error(
                *old(self),
                id,
            )->0,
            listing_error(*old(self), id) is None ==> r is Ok && r->Ok_0@ == change_effects(
                old(self).assets@[id].owner,
                ListingChange::Removed,
                id,
            ) && same_settings(*final(self), *old(self)) && final(self).assets@ == old(self).assets@.remove(id),
    {
        broadcast use vstd::std_specs::hash::group_hash_axioms;

        let a = match self.listing(id) {
            Ok(a) => a,
            Err(e) => {
                return Err(e);
            },
        };
        self.assets.remove(&id);
        let mut effects: Vec<Effect> = Vec::new();
        effects.push(Effect::Authorize(a.owner));
        effects.push(Effect::Listing { change: ListingChange::Removed, by: a.owner, id });
        assert(effects@ =~= change_effects(a.owner, ListingChange::Removed, id));
        Ok(effects)
    }
}

} // verus!
