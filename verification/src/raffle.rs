//! A raffle: whoever buys a ticket is a candidate, and the admin draws the
//! winners, who share the pool.

use rand::Rng;
use rand::SeedableRng;
use vstd::prelude::*;
use crate::effect::Effect;
use crate::identity::Identity;

verus! {

/// The failures of the program.
#[derive(Clone, Copy, Debug, PartialEq, Eq, Structural, PartialOrd, Ord)]
pub enum Error {
    /// The raffle is set up once only.
    AlreadyInitialized,
    /// The buyer's funds do not exceed the price of a ticket.
    InsufficientFunds,
    /// The raffle is played once only, and sells no tickets after.
    AlreadyPlayed,
    /// Nobody has bought a ticket.
    MinParticipantsNotSatisfied,
    /// No winner is to be drawn.
    InvalidMaxWinners,
    /// The price of a ticket is zero or negative.
    InvalidTicketPrice,
    /// The raffle has not been set up.
    NotInitialized,
}

impl Error {
    /// The number under which the failure is reported to the caller.
    pub open spec fn spec_code(self) -> u32 {
        match self {
            Error::AlreadyInitialized => 1,
            Error::InsufficientFunds => 2,
            Error::AlreadyPlayed => 3,
            Error::MinParticipantsNotSatisfied => 4,
            Error::InvalidMaxWinners => 5,
            Error::InvalidTicketPrice => 6,
            Error::NotInitialized => 7,
        }
    }

    /// The number under which the failure is reported to the caller.
    pub fn code(&self) -> (r: u32)
        ensures
            r == self.spec_code(),
    {
        match self {
            Error::AlreadyInitialized => 1,
            Error::InsufficientFunds => 2,
            Error::AlreadyPlayed => 3,
            Error::MinParticipantsNotSatisfied => 4,
            Error::InvalidMaxWinners => 5,
            Error::InvalidTicketPrice => 6,
            Error::NotInitialized => 7,
        }
    }
}

/// `SmallRng` of the rand crate, a generator of pseudo-random numbers: a
/// value that is handed on and never looked into.
#[verifier::external_type_specification]
#[verifier::external_body]
pub struct ExSmallRng(rand::rngs::SmallRng);

/// `SmallRng::seed_from_u64` of the rand crate: a generator seeded with
/// `seed`. Which numbers it will give is left open: the algorithm behind
/// `SmallRng` depends on the platform.
#[verifier::external_body]
fn seeded(seed: u64) -> (rng: rand::rngs::SmallRng) {
    rand::rngs::SmallRng::seed_from_u64(seed)
}

/// `Rng::gen_range` of the rand crate on the range from zero up to, not
/// including, `bound`: the number it gives lies in that range. An empty
/// range makes it panic, so `bound` is positive.
#[verifier::external_body]
fn below(rng: &mut rand::rngs::SmallRng, bound: u32) -> (r: u32)
    requires
        bound > 0,
    ensures
        r < bound,
{
    rng.gen_range(0..bound)
}

/// Whether a list rises strictly from each entry to the next.
pub open spec fn rising(list: Seq<u32>) -> bool {
    forall|i: int, j: int| 0 <= i < j < list.len() ==> list[i] < list[j]
}

/// Puts `x` into a strictly rising list, at its place; a number that the
/// list holds already is not put in again.
pub fn insert_rising(list: &mut Vec<u32>, x: u32)
    requires
        rising(old(list)@),
    ensures
        rising(final(list)@),
        final(list)@.to_set() == old(list)@.to_set().insert(x),
        old(list)@.contains(x) ==> final(list)@ == old(list)@,
        !old(list)@.contains(x) ==> final(list)@.len() == old(list)@.len() + 1,
{
    let mut i: usize = 0;
    while i < list.len() && list[i] < x
        invariant
            i <= list.len(),
            *list == *old(list),
            forall|j: int| 0 <= j < i ==> list@[j] < x,
        decreases list.len() - i,
    {
        i += 1;
    }
    if i < list.len() && list[i] == x {
        assert(list@.to_set() =~= list@.to_set().insert(x));
        return ;
    }
    proof {
        assert(!list@.contains(x)) by {
            if list@.contains(x) {
                let j = choose|j: int| 0 <= j < list@.len() && list@[j] == x;
                if j > i {
                    assert(list@[i as int] < list@[j]);
                }
            }
        }
    }
    let ghost before = list@;
    list.insert(i, x);
    proof {
        assert(list@ =~= before.insert(i as int, x));
        assert forall|a: int, b: int| 0 <= a < b < list@.len() implies list@[a] < list@[b] by {
            let a0 = if a < i { a } else { a - 1 };
            let b0 = if b < i { b } else { b - 1 };
            if a != i && b != i {
                assert(list@[a] == before[a0]);
                assert(list@[b] == before[b0]);
            } else if a == i {
                assert(list@[b] == before[b0]);
                assert(before[i as int] <= before[b0]);
            } else {
                assert(list@[a] == before[a0]);
            }
        }
        assert(list@.to_set() =~= before.to_set().insert(x)) by {
            assert forall|v: u32| list@.to_set().contains(v) <==> before.to_set().insert(
                x,
            ).contains(v) by {
                if list@.contains(v) {
                    let j = choose|j: int| 0 <= j < list@.len() && list@[j] == v;
                    if j != i {
                        let j0 = if j < i { j } else { j - 1 };
                        assert(before[j0] == v);
                    }
                }
                if before.contains(v) {
                    let j0 = choose|j: int| 0 <= j < before.len() && before[j] == v;
                    let j = if j0 < i { j0 } else { j0 + 1 };
                    assert(list@[j] == v);
                }
                if v == x {
                    assert(list@[i as int] == x);
                }
            }
        }
    }
}

/// The numbers drawn, each once, in rising order.
pub fn distinct_rising(draws: &Vec<u32>) -> (r: Vec<u32>)
    ensures
        rising(r@),
        r@.to_set() == draws@.to_set(),
        r@.len() <= draws@.len(),
        draws@.len() > 0 ==> r@.len() > 0,
{
    let mut out: Vec<u32> = Vec::new();
    let mut i: usize = 0;
    proof {
        assert(out@.to_set() =~= draws@.take(0).to_set());
    }
    while i < draws.len()
        invariant
            i <= draws.len(),
            rising(out@),
            out@.to_set() == draws@.take(i as int).to_set(),
            out@.len() <= i,
            i > 0 ==> out@.len() > 0,
        decreases draws.len() - i,
    {
        proof {
            assert(draws@.take(i as int + 1) =~= draws@.take(i as int).push(draws@[i as int]));
            draws@.take(i as int).lemma_push_to_set_commute(draws@[i as int]);
        }
        insert_rising(&mut out, draws[i]);
        i += 1;
    }
    proof {
        assert(draws@.take(i as int) =~= draws@);
    }
    out
}

/// What a draw of winners among `players` candidates has to be: places in
/// the list of candidates, each once, in rising order, at most `max` of
/// them, and at least one where a winner is to be drawn.
pub open spec fn valid_winners(winners: Seq<u32>, max: u32, players: u32) -> bool {
    &&& rising(winners)
    &&& forall|i: int| 0 <= i < winners.len() ==> winners[i] < players
    &&& winners.len() <= max
    &&& max > 0 ==> winners.len() > 0
}

/// Draws the winners among `candidates_len` candidates: `max_winners_count`
/// draws from a generator seeded with `random_seed`; a candidate drawn more
/// than once wins once, so there may be fewer winners than draws.
pub fn calculate_winners(max_winners_count: u32, candidates_len: u32, random_seed: u64) -> (r: Vec<
    u32,
>)
    requires
        max_winners_count > 0 ==> candidates_len > 0,
    ensures
        valid_winners(r@, max_winners_count, candidates_len),
{
    let mut rng = seeded(random_seed);
    let mut draws: Vec<u32> = Vec::new();
    let mut n: u32 = 0;
    while n < max_winners_count
        invariant
            n <= max_winners_count,
            max_winners_count > 0 ==> candidates_len > 0,
            draws@.len() == n,
            forall|i: int| 0 <= i < draws@.len() ==> draws@[i] < candidates_len,
        decreases max_winners_count - n,
    {
        let winner = below(&mut rng, candidates_len);
        draws.push(winner);
        n += 1;
    }
    let winners = distinct_rising(&draws);
    proof {
        assert forall|i: int| 0 <= i < winners@.len() implies winners@[i] < candidates_len by {
            assert(winners@.to_set().contains(winners@[i]));
            assert(draws@.contains(winners@[i]));
        }
    }
    winners
}

/// The raffle: its settings, its candidates, and whether it has been played.
#[derive(Debug)]
pub struct RaffleContract {
    pub initialized: bool,
    pub admin: Identity,
    pub token: Identity,
    pub max_winners_count: u32,
    pub ticket_price: i128,
    /// Who bought a ticket, once per ticket, in the order of buying.
    pub candidates: Vec<Identity>,
    pub already_played: bool,
}

/// What paying `payout` to each winner asks of the host: for each winner in
/// turn, the transfer and the announcement.
pub open spec fn prizes(candidates: Seq<Identity>, winners: Seq<u32>, payout: i128) -> Seq<Effect>
    decreases winners.len(),
{
    if winners.len() == 0 {
        Seq::<Effect>::empty()
    } else {
        let winner = candidates[winners.last() as int];
        prizes(candidates, winners.drop_last(), payout) + seq![
            Effect::TransferOut { to: winner, amount: payout },
            Effect::Winner { candidate: winner, payout },
        ]
    }
}

/// What each winner gets of a pool: the pool divided by the number of
/// winners to be drawn, rounded towards zero.
pub open spec fn share(pool: i128, max_winners_count: u32) -> int {
    if pool >= 0 {
        pool as int / max_winners_count as int
    } else {
        -((-(pool as int)) / max_winners_count as int)
    }
}

impl RaffleContract {
    /// A raffle that has not been set up: not played, without candidates,
    /// with the account of key zero in the place of admin and asset, and
    /// with no winner to draw and no price.
    pub fn new() -> (r: RaffleContract)
        ensures
            !r.initialized,
            !r.already_played,
            r.candidates@ == Seq::<Identity>::empty(),
            r.admin == (Identity { program: false, hi: 0, lo: 0 }),
            r.token == (Identity { program: false, hi: 0, lo: 0 }),
            r.max_winners_count == 0,
            r.ticket_price == 0,
    {
        let nobody = Identity { program: false, hi: 0, lo: 0 };
        RaffleContract {
            initialized: false,
            admin: nobody,
            token: nobody,
            max_winners_count: 0,
            ticket_price: 0,
            candidates: Vec::new(),
            already_played: false,
        }
    }

    /// Why the raffle cannot be set up so, if it cannot.
    pub open spec fn init_error(&self, max_winners_count: u32, ticket_price: i128) -> Option<
        Error,
    > {
        if max_winners_count == 0 {
            Some(Error::InvalidMaxWinners)
        } else if ticket_price <= 0 {
            Some(Error::InvalidTicketPrice)
        } else if self.initialized {
            Some(Error::AlreadyInitialized)
        } else {
            None
        }
    }

    /// Sets the raffle up, once. The admin must have authorized it.
    ///
    /// Fails, changing nothing, with `InvalidMaxWinners` where no winner is
    /// to be drawn, with `InvalidTicketPrice` unless the price is positive,
    /// and with `AlreadyInitialized` on a raffle that is set up.
    pub fn init(
        &mut self,
        admin: Identity,
        token: Identity,
        max_winners_count: u32,
        ticket_price: i128,
    ) -> (r: Result<Vec<Effect>, Error>)
        ensures
            r is Err ==> *final(self) == *old(self),
            old(self).init_error(max_winners_count, ticket_price) is Some ==> r is Err
                && r->Err_0 == old(self).init_error(max_winners_count, ticket_price)->0,
            old(self).init_error(max_winners_count, ticket_price) is None ==> r is Ok
                && r->Ok_0@ == seq![Effect::Authorize(admin)] && final(self).initialized && final(self).admin == admin && final(self).token == token && final(self).max_winners_count
                == max_winners_count && final(self).ticket_price == ticket_price && final(self).candidates@.len() == 0 && !final(self).already_played,
    {
        if max_winners_count == 0 {
            return Err(Error::InvalidMaxWinners);
        }
        if ticket_price <= 0 {
            return Err(Error::InvalidTicketPrice);
        }
        if self.initialized {
            return Err(Error::AlreadyInitialized);
        }
        self.initialized = true;
        self.admin = admin;
        self.token = token;
        self.max_winners_count = max_winners_count;
        self.ticket_price = ticket_price;
        self.candidates = Vec::new();
        self.already_played = false;
        let mut effects: Vec<Effect> = Vec::new();
        effects.push(Effect::Authorize(admin));
        assert(effects@ =~= seq![Effect::Authorize(admin)]);
        Ok(effects)
    }

    /// Why `by` cannot buy a ticket, if it cannot.
    pub open spec fn purchase_error(&self, balance: i128) -> Option<Error> {
        if !self.initialized {
            Some(Error::NotInitialized)
        } else if self.already_played {
            Some(Error::AlreadyPlayed)
        } else if balance <= self.ticket_price {
            Some(Error::InsufficientFunds)
        } else {
            None
        }
    }

    /// `by` buys a ticket and becomes a candidate once more; `balance` is
    /// what it holds on the ledger, which must be more than the price. The
    /// number returned is the number of tickets sold.
    ///
    /// Fails, changing nothing, with `NotInitialized` before set-up, with
    /// `AlreadyPlayed` once the raffle has been played, and with
    /// `InsufficientFunds` unless `balance` is more than the price.
    pub fn buy_ticket(&mut self, by: Identity, balance: i128) -> (r: Result<
        (u32, Vec<Effect>),
        Error,
    >)
        requires
            old(self).candidates@.len() < u32::MAX,
        ensures
            r is Err ==> *final(self) == *old(self),
            old(self).purchase_error(balance) is Some ==> r is Err && r->Err_0 == old(self).purchase_error(balance)->0,
            old(self).purchase_error(balance) is None ==> r is Ok && r->Ok_0.0 == old(self).candidates@.len() + 1 && r->Ok_0.1@ == seq![
                Effect::Authorize(by),
                Effect::TransferIn { from: by, amount: old(self).ticket_price },
            ] && final(self).candidates@ == old(self).candidates@.push(by) && final(self).initialized
                && final(self).admin == old(self).admin && final(self).token == old(self).token
                && final(self).max_winners_count == old(self).max_winners_count && final(self).ticket_price == old(self).ticket_price && final(self).already_played == old(self).already_played,
    {
        if !self.initialized {
            return Err(Error::NotInitialized);
        }
        if self.already_played {
            return Err(Error::AlreadyPlayed);
        }
        let price = self.ticket_price;
        if balance <= price {
            return Err(Error::InsufficientFunds);
        }
        self.candidates.push(by);
        let count: usize = self.candidates.len();
        let mut effects: Vec<Effect> = Vec::new();
        effects.push(Effect::Authorize(by));
        effects.push(Effect::TransferIn { from: by, amount: price });
        assert(effects@ =~= seq![
            Effect::Authorize(by),
            Effect::TransferIn { from: by, amount: price },
        ]);
        Ok((count as u32, effects))
    }

    /// What paying the winners out of a pool of `balance` asks of the host:
    /// each winner gets its share, and its win is announced.
    pub fn pay_winners(&self, winners: &Vec<u32>, balance: i128) -> (r: Vec<Effect>)
        requires
            self.max_winners_count > 0,
            forall|i: int| 0 <= i < winners@.len() ==> winners@[i] < self.candidates@.len(),
        ensures
            r@ == prizes(
                self.candidates@,
                winners@,
                share(balance, self.max_winners_count) as i128,
            ),
    {
        let divisor: i128 = self.max_winners_count as i128;
        let payout: i128 = if balance >= 0 {
            balance / divisor
        } else if balance == i128::MIN {
            -(i128::MAX / divisor) - (if (i128::MAX % divisor) + 1 == divisor {
                1i128
            } else {
                0i128
            })
        } else {
            -((-balance) / divisor)
        };
        proof {
            assert(payout == share(balance, self.max_winners_count)) by {
                if balance == i128::MIN {
                    let d = divisor as int;
                    let m = i128::MAX as int;
                    vstd::arithmetic::div_mod::lemma_fundamental_div_mod(m, d);
                    vstd::arithmetic::div_mod::lemma_fundamental_div_mod(m + 1, d);
                    vstd::arithmetic::div_mod::lemma_mod_bound(m, d);
                    vstd::arithmetic::div_mod::lemma_mod_bound(m + 1, d);
                    let q = m / d;
                    assert((q + 1) * d == d * q + d) by (nonlinear_arith);
                    assert(q * d == d * q) by (nonlinear_arith);
                    if (m % d) + 1 == d {
                        vstd::arithmetic::div_mod::lemma_fundamental_div_mod_converse(
                            m + 1,
                            d,
                            m / d + 1,
                            0,
                        );
                    } else {
                        vstd::arithmetic::div_mod::lemma_fundamental_div_mod_converse(
                            m + 1,
                            d,
                            m / d,
                            m % d + 1,
                        );
                    }
                }
            }
        }
        let mut effects: Vec<Effect> = Vec::new();
        let mut i: usize = 0;
        while i < winners.len()
            invariant
                i <= winners.len(),
                forall|j: int| 0 <= j < winners@.len() ==> winners@[j] < self.candidates@.len(),
                effects@ == prizes(self.candidates@, winners@.take(i as int), payout),
            decreases winners.len() - i,
        {
            let candidate = self.candidates[winners[i] as usize];
            effects.push(Effect::TransferOut { to: candidate, amount: payout });
            effects.push(Effect::Winner { candidate, payout });
            proof {
                let next = winners@.take(i as int + 1);
                assert(next.drop_last() =~= winners@.take(i as int));
                assert(next.last() == winners@[i as int]);
                assert(effects@ =~= prizes(self.candidates@, winners@.take(i as int), payout)
                    + seq![
                    Effect::TransferOut { to: candidate, amount: payout },
                    Effect::Winner { candidate, payout },
                ]);
            }
            i += 1;
        }
        proof {
            assert(winners@.take(i as int) =~= winners@);
        }
        effects
    }

    /// Why the raffle cannot be played, if it cannot.
    pub open spec fn play_error(&self) -> Option<Error> {
        if !self.initialized {
            Some(Error::NotInitialized)
        } else if self.already_played {
            Some(Error::AlreadyPlayed)
        } else if self.candidates@.len() == 0 {
            Some(Error::MinParticipantsNotSatisfied)
        } else if self.max_winners_count == 0 {
            Some(Error::InvalidMaxWinners)
        } else {
            None
        }
    }

    /// Plays the raffle, once: draws the winners with `random_seed` and the
    /// time `now`, and shares the pool of `balance` among them. The admin
    /// must have authorized it.
    ///
    /// Fails, changing nothing, with `NotInitialized` before set-up, with
    /// `AlreadyPlayed` on a raffle that has been played, with
    /// `MinParticipantsNotSatisfied` where nobody bought a ticket, and with
    /// `InvalidMaxWinners` where no winner is to be drawn.
    pub fn play_raffle(&mut self, random_seed: u64, now: u64, balance: i128) -> (r: Result<
        Vec<Effect>,
        Error,
    >)
        requires
            old(self).candidates@.len() <= u32::MAX,
            random_seed + now <= u64::MAX,
        ensures
            r is Err ==> *final(self) == *old(self),
            old(self).play_error() is Some ==> r is Err && r->Err_0 == old(self).play_error()->0,
            old(self).play_error() is None ==> r is Ok && final(self).already_played && final(self).candidates == old(self).candidates && final(self).initialized && final(self).admin
                == old(self).admin && final(self).token == old(self).token && final(self).max_winners_count == old(self).max_winners_count && final(self).ticket_price == old(self).ticket_price && exists|winners: Seq<u32>|
                valid_winners(
                    winners,
                    old(self).max_winners_count,
                    old(self).candidates@.len() as u32,
                ) && r->Ok_0@ == seq![Effect::Authorize(old(self).admin)] + #[trigger] prizes(
                    old(self).candidates@,
                    winners,
                    share(balance, old(self).max_winners_count) as i128,
                ),
    {
        if !self.initialized {
            return Err(Error::NotInitialized);
        }
        if self.already_played {
            return Err(Error::AlreadyPlayed);
        }
        if self.candidates.len() == 0 {
            return Err(Error::MinParticipantsNotSatisfied);
        }
        if self.max_winners_count == 0 {
            return Err(Error::InvalidMaxWinners);
        }
        let players: u32 = self.candidates.len() as u32;
        let winners_idx = calculate_winners(self.max_winners_count, players, random_seed + now);
        let mut paid = self.pay_winners(&winners_idx, balance);
        let mut effects: Vec<Effect> = Vec::new();
        effects.push(Effect::Authorize(self.admin));
        effects.append(&mut paid);
        self.already_played = true;
        proof {
            assert(effects@ =~= seq![Effect::Authorize(old(self).admin)] + prizes(
                old(self).candidates@,
                winners_idx@,
                share(balance, old(self).max_winners_count) as i128,
            ));
        }
        Ok(effects)
    }
}

/// Paying the winners moves their number of shares out of the pool.
pub proof fn lemma_prizes_outflow(candidates: Seq<Identity>, winners: Seq<u32>, payout: i128)
    ensures
        crate::effect::net_inflow(prizes(candidates, winners, payout)) == -(winners.len() * payout),
    decreases winners.len(),
{
    if winners.len() > 0 {
        let winner = candidates[winners.last() as int];
        let paid = Effect::TransferOut { to: winner, amount: payout };
        let told = Effect::Winner { candidate: winner, payout };
        let rest = prizes(candidates, winners.drop_last(), payout);
        lemma_prizes_outflow(candidates, winners.drop_last(), payout);
        assert(seq![paid, told] =~= seq![paid] + seq![told]);
        crate::laws::lemma_inflow_one(paid);
        crate::laws::lemma_inflow_one(told);
        crate::laws::lemma_inflow_concat(seq![paid], seq![told]);
        crate::laws::lemma_inflow_concat(rest, seq![paid, told]);
        assert(winners.len() * payout == (winners.len() - 1) * payout + payout)
            by (nonlinear_arith);
    } else {
        assert(winners.len() * payout == 0) by (nonlinear_arith)
            requires
                winners.len() == 0,
        ;
    }
}

/// A raffle pays out no more than its pool: as many shares as there are
/// winners, of which there are no more than were to be drawn.
pub proof fn lemma_raffle_within_pool(
    candidates: Seq<Identity>,
    winners: Seq<u32>,
    pool: i128,
    max_winners_count: u32,
    players: u32,
)
    requires
        pool >= 0,
        valid_winners(winners, max_winners_count, players),
        max_winners_count > 0,
    ensures
        0 <= -crate::effect::net_inflow(
            prizes(candidates, winners, share(pool, max_winners_count) as i128),
        ) <= pool,
{
    let each = share(pool, max_winners_count);
    let m = max_winners_count as int;
    vstd::arithmetic::div_mod::lemma_fundamental_div_mod(pool as int, m);
    vstd::arithmetic::div_mod::lemma_mod_bound(pool as int, m);
    vstd::arithmetic::div_mod::lemma_div_pos_is_pos(pool as int, m);
    vstd::arithmetic::div_mod::lemma_div_is_ordered_by_denominator(pool as int, 1, m);
    assert(pool as int / 1 == pool);
    lemma_prizes_outflow(candidates, winners, each as i128);
    assert(0 <= winners.len() * each <= m * each) by (nonlinear_arith)
        requires
            0 <= winners.len() <= m,
            each >= 0,
    ;
}

} // verus!
