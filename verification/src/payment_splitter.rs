//! A program that splits a payment of its admin evenly among stakeholders.

use vstd::prelude::*;
use crate::effect::outcome;
use crate::effect::Effect;
use crate::identity::Identity;

verus! {

/// The failures of the program.
#[derive(Clone, Copy, Debug, PartialEq, Eq, Structural, PartialOrd, Ord)]
pub enum Error {
    AlreadyInitialized,
    Conversion,
    AdminKeyExpected,
    InvalidAmount,
    NoStakeholders,
    NotInitialized,
    TokenKeyExpected,
    PaymentSplitExpected,
}

impl Error {
    /// The number under which the failure is reported to the caller.
    pub open spec fn spec_code(self) -> u32 {
        match self {
            Error::AlreadyInitialized => 1,
            Error::Conversion => 2,
            Error::AdminKeyExpected => 3,
            Error::InvalidAmount => 4,
            Error::NoStakeholders => 5,
            Error::NotInitialized => 6,
            Error::TokenKeyExpected => 7,
            Error::PaymentSplitExpected => 8,
        }
    }

    /// The number under which the failure is reported to the caller.
    pub fn code(&self) -> (r: u32)
        ensures
            r == self.spec_code(),
    {
        match self {
            Error::AlreadyInitialized => 1,
            Error::Conversion => 2,
            Error::AdminKeyExpected => 3,
            Error::InvalidAmount => 4,
            Error::NoStakeholders => 5,
            Error::NotInitialized => 6,
            Error::TokenKeyExpected => 7,
            Error::PaymentSplitExpected => 8,
        }
    }
}

/// The places in which the program keeps its state.
#[derive(Clone, Copy, Debug, PartialEq, Eq, Structural)]
pub enum DataKey {
    AlreadyInitialized,
    Admin,
    Token,
    PaymentSplit,
}

impl DataKey {
    /// The number of the place.
    pub fn code(&self) -> (r: u32)
        ensures
            r == (match *self {
                DataKey::AlreadyInitialized => 0u32,
                DataKey::Admin => 1u32,
                DataKey::Token => 2u32,
                DataKey::PaymentSplit => 3u32,
            }),
    {
        match self {
            DataKey::AlreadyInitialized => 0,
            DataKey::Admin => 1,
            DataKey::Token => 2,
            DataKey::PaymentSplit => 3,
        }
    }
}

/// Among whom a payment is split.
#[derive(Debug, PartialEq)]
pub struct PaymentSplit {
    pub stakeholders: Vec<Identity>,
}

/// The program: its admin, its asset and its stakeholders, once set up.
#[derive(Debug)]
pub struct PaymentSplitterContract {
    pub initialized: bool,
    pub admin: Identity,
    pub token: Identity,
    pub split: PaymentSplit,
}

/// The transfers that pay `payout` of `token` from `admin` to each of
/// `stakeholders`, in their order.
pub open spec fn payouts(
    token: Identity,
    admin: Identity,
    stakeholders: Seq<Identity>,
    payout: i128,
) -> Seq<Effect> {
    stakeholders.map_values(
        |to: Identity| Effect::Transfer { asset: token, from: admin, to, amount: payout },
    )
}

impl PaymentSplitterContract {
    /// A program that has not been set up: without stakeholders, and with
    /// the account of key zero in the place of admin and asset.
    pub fn new() -> (r: PaymentSplitterContract)
        ensures
            !r.initialized,
            r.admin == (Identity { program: false, hi: 0, lo: 0 }),
            r.token == (Identity { program: false, hi: 0, lo: 0 }),
            r.split.stakeholders@ == Seq::<Identity>::empty(),
    {
        let nobody = Identity { program: false, hi: 0, lo: 0 };
        PaymentSplitterContract {
            initialized: false,
            admin: nobody,
            token: nobody,
            split: PaymentSplit { stakeholders: Vec::new() },
        }
    }

    /// Sets the program up, once, with the stakeholders among whom payments
    /// are split. The admin must have authorized it.
    ///
    /// Fails, changing nothing, with `NoStakeholders` where the list is
    /// empty, and with `AlreadyInitialized` on a program that is set up.
    pub fn init(&mut self, admin: Identity, token: Identity, stakeholders: Vec<Identity>) -> (r:
        Result<Vec<Effect>, Error>)
        ensures
            stakeholders@.len() == 0 ==> outcome(r) == Err::<Seq<Effect>, Error>(
                Error::NoStakeholders,
            ) && *final(self) == *old(self),
            stakeholders@.len() > 0 && old(self).initialized ==> outcome(r) == Err::<
                Seq<Effect>,
                Error,
            >(Error::AlreadyInitialized) && *final(self) == *old(self),
            stakeholders@.len() > 0 && !old(self).initialized ==> outcome(r) == Ok::<
                Seq<Effect>,
                Error,
            >(seq![Effect::Authorize(admin)]) && final(self).initialized && final(self).admin
                == admin && final(self).token == token && final(self).split.stakeholders
                == stakeholders,
    {
        if stakeholders.len() == 0 {
            return Err(Error::NoStakeholders);
        }
        if self.initialized {
            return Err(Error::AlreadyInitialized);
        }
        self.initialized = true;
        self.admin = admin;
        self.token = token;
        self.split = PaymentSplit { stakeholders };
        let mut effects: Vec<Effect> = Vec::new();
        effects.push(Effect::Authorize(admin));
        assert(effects@ =~= seq![Effect::Authorize(admin)]);
        Ok(effects)
    }

    /// Splits `amount` of the admin's funds among the stakeholders: each gets
    /// the amount divided by their number, rounded down; `balance` is what
    /// the admin holds on the ledger. The admin must have authorized it.
    ///
    /// Fails with `InvalidAmount` unless `amount` is positive, with
    /// `NotInitialized` on a program that has not been set up, with
    /// `PaymentSplitExpected` where it holds no stakeholders, and with
    /// `InvalidAmount` where `amount` is more than `balance`.
    pub fn split(&self, amount: i128, balance: i128) -> (r: Result<Vec<Effect>, Error>)
        ensures
            outcome(r) == (if amount <= 0 {
                Err::<Seq<Effect>, Error>(Error::InvalidAmount)
            } else if !self.initialized {
                Err(Error::NotInitialized)
            } else if self.split.stakeholders@.len() == 0 {
                Err(Error::PaymentSplitExpected)
            } else if amount > balance {
                Err(Error::InvalidAmount)
            } else {
                let payout = ((amount as int) / (self.split.stakeholders@.len() as int)) as i128;
                Ok(
                    seq![Effect::Authorize(self.admin)] + payouts(
                        self.token,
                        self.admin,
                        self.split.stakeholders@,
                        payout,
                    ) + seq![Effect::SplitPaid { admin: self.admin, payout }],
                )
            }),
    {
        if amount <= 0 {
            return Err(Error::InvalidAmount);
        }
        if !self.initialized {
            return Err(Error::NotInitialized);
        }
        let count: usize = self.split.stakeholders.len();
        if count == 0 {
            return Err(Error::PaymentSplitExpected);
        }
        if amount > balance {
            return Err(Error::InvalidAmount);
        }
        let payout: i128 = amount / (count as i128);
        let mut effects: Vec<Effect> = Vec::new();
        effects.push(Effect::Authorize(self.admin));
        let mut i: usize = 0;
        while i < count
            invariant
                i <= count,
                count == self.split.stakeholders@.len(),
                effects@ == seq![Effect::Authorize(self.admin)] + payouts(
                    self.token,
                    self.admin,
                    self.split.stakeholders@.take(i as int),
                    payout,
                ),
            decreases count - i,
        {
            effects.push(
                Effect::Transfer {
                    asset: self.token,
                    from: self.admin,
                    to: self.split.stakeholders[i],
                    amount: payout,
                },
            );
            proof {
                let all = self.split.stakeholders@;
                assert(payouts(self.token, self.admin, all.take(i as int + 1), payout)
                    =~= payouts(self.token, self.admin, all.take(i as int), payout).push(
                    Effect::Transfer {
                        asset: self.token,
                        from: self.admin,
                        to: all[i as int],
                        amount: payout,
                    },
                ));
                assert(effects@ =~= seq![Effect::Authorize(self.admin)] + payouts(
                    self.token,
                    self.admin,
                    all.take(i as int + 1),
                    payout,
                ));
            }
            i += 1;
        }
        effects.push(Effect::SplitPaid { admin: self.admin, payout });
        proof {
            assert(self.split.stakeholders@.take(count as int) =~= self.split.stakeholders@);
            assert(payout == (amount as int) / (count as int));
            assert(effects@ =~= seq![Effect::Authorize(self.admin)] + payouts(
                self.token,
                self.admin,
                self.split.stakeholders@,
                payout,
            ) + seq![Effect::SplitPaid { admin: self.admin, payout }]);
        }
        Ok(effects)
    }
}

} // verus!
