//! Proposals and the rules of voting on them.

use vstd::prelude::*;
use crate::balances::Balances;
use crate::identity::Identity;
use crate::sum::sum_over;
use crate::voters::Voters;
use crate::wide::product_at_least;
use crate::wide::two_128;

verus! {

/// Basis points in one whole.
pub const BPS: u64 = 10_000;

/// The failures of the voting program.
#[derive(Clone, Copy, Debug, PartialEq, Eq, Structural, PartialOrd, Ord)]
pub enum Error {
    AlreadyInitialized,
    Conversion,
    KeyExpected,
    NotFound,
    AlreadyVoted,
    DuplicatedEntity,
    Overflow,
    VotingClosed,
    NotValidID,
    InvalidVotingPeriod,
    InvalidTargetApprovalRate,
    NotEnoughParticipants,
}

impl Error {
    /// The number under which the failure is reported to the caller.
    pub open spec fn spec_code(self) -> u32 {
        match self {
            Error::AlreadyInitialized => 1,
            Error::Conversion => 2,
            Error::KeyExpected => 3,
            Error::NotFound => 4,
            Error::AlreadyVoted => 5,
            Error::DuplicatedEntity => 6,
            Error::Overflow => 7,
            Error::VotingClosed => 8,
            Error::NotValidID => 9,
            Error::InvalidVotingPeriod => 10,
            Error::InvalidTargetApprovalRate => 11,
            Error::NotEnoughParticipants => 12,
        }
    }

    /// The number under which the failure is reported to the caller.
    pub fn code(&self) -> (r: u32)
        ensures
            r == self.spec_code(),
    {
        match self {
            Error::AlreadyInitialized => 1,
            Error::Conversion => 2,
            Error::KeyExpected => 3,
            Error::NotFound => 4,
            Error::AlreadyVoted => 5,
            Error::DuplicatedEntity => 6,
            Error::Overflow => 7,
            Error::VotingClosed => 8,
            Error::NotValidID => 9,
            Error::InvalidVotingPeriod => 10,
            Error::InvalidTargetApprovalRate => 11,
            Error::NotEnoughParticipants => 12,
        }
    }
}

/// What a proposal asks for.
#[derive(Clone, Copy, Debug, PartialEq)]
pub enum ProposalPayload {
    /// Replace the curator by this identity.
    NewCurator(Identity),
    /// Replace the program's code by the code with this hash.
    CodeUpgrade([u8; 32]),
    /// A comment put to the vote, with no further action.
    Comment([u8; 32]),
}

/// A proposal and the votes cast on it.
#[derive(Debug)]
pub struct Proposal {
    pub id: u64,
    pub payload: ProposalPayload,
    /// The identity that created the proposal.
    pub proposer: Identity,
    /// Seconds since the epoch; voting ends when this time is reached.
    pub voting_end_time: u64,
    /// The weight of the votes cast.
    pub participation: u128,
    /// The approval rate that the proposal needs, in basis points.
    pub target_approval_rate_bps: u32,
    /// The weight that could be cast at most.
    pub total_participation: u128,
    /// Who has voted.
    pub voters: Voters,
}

/// A proposal as a mathematical value.
pub struct ProposalView {
    pub id: u64,
    pub payload: ProposalPayload,
    pub proposer: Identity,
    pub voting_end_time: u64,
    pub participation: u128,
    pub target_approval_rate_bps: u32,
    pub total_participation: u128,
    pub voters: Set<Identity>,
}

/// What an amount weighs in a vote: itself, or, for a negative amount, what
/// its 128 bits read as an unsigned number.
pub open spec fn weight(amount: i128) -> int {
    if amount >= 0 {
        amount as int
    } else {
        amount + two_128()
    }
}

/// The weight that a snapshot gives to each identity.
pub open spec fn weight_in(b: Map<Identity, i128>) -> spec_fn(Identity) -> int {
    |k: Identity| weight(b[k])
}

/// The weight that a snapshot gives to a set of identities together.
pub open spec fn weight_of(who: Set<Identity>, b: Map<Identity, i128>) -> int {
    sum_over(who, weight_in(b))
}

impl ProposalView {
    /// Voting is closed once the end time is reached or all weight is cast.
    pub open spec fn is_closed(self, now: u64) -> bool {
        now >= self.voting_end_time || self.participation == self.total_participation
    }

    /// The approval rate in basis points: the share of the total weight that
    /// was cast, rounded down; zero where there is no weight to cast.
    pub open spec fn approval_rate(self) -> int {
        if self.total_participation == 0 {
            0
        } else {
            (self.participation * 10_000) / (self.total_participation as int)
        }
    }

    /// Whether the approval rate reaches the target.
    pub open spec fn is_approved(self) -> bool {
        self.approval_rate() >= self.target_approval_rate_bps
    }

    /// The approval rate as the program reports it: the rate, or `Overflow`
    /// where the product or the rate is too large for its word.
    pub open spec fn rate_result(self) -> Result<u32, Error> {
        if self.participation == 0 || self.total_participation == 0 {
            Ok(0u32)
        } else if self.participation * 10_000 > u128::MAX || self.approval_rate() > u32::MAX {
            Err(Error::Overflow)
        } else {
            Ok(self.approval_rate() as u32)
        }
    }

    /// How a vote of `voter` with `weight` at time `now` ends.
    pub open spec fn vote_result(self, now: u64, voter: Identity, weight: u128) -> Result<
        (),
        Error,
    > {
        if self.is_closed(now) {
            Err(Error::VotingClosed)
        } else if self.voters.contains(voter) {
            Err(Error::AlreadyVoted)
        } else if self.participation + weight > u128::MAX {
            Err(Error::Overflow)
        } else {
            Ok(())
        }
    }

    /// The proposal after a vote: with the weight added and the voter
    /// recorded where the vote succeeds, unchanged where it fails.
    pub open spec fn after_vote(self, now: u64, voter: Identity, weight: u128) -> ProposalView {
        if self.vote_result(now, voter, weight) is Ok {
            ProposalView {
                participation: (self.participation + weight) as u128,
                voters: self.voters.insert(voter),
                ..self
            }
        } else {
            self
        }
    }

    /// How recomputing the weights from a snapshot ends: `NotFound` where a
    /// voter has no entry or the voters' weights exceed a word, `Overflow`
    /// where all the weights together do.
    pub open spec fn recount_result(self, b: Map<Identity, i128>) -> Result<(), Error> {
        if !self.voters.subset_of(b.dom()) || weight_of(self.voters, b) > u128::MAX {
            Err(Error::NotFound)
        } else if weight_of(b.dom(), b) > u128::MAX {
            Err(Error::Overflow)
        } else {
            Ok(())
        }
    }

    /// The proposal after recomputing the weights from a snapshot: the
    /// participation is the weight of the voters, the total the weight of all
    /// entries; unchanged where the recomputation fails.
    pub open spec fn after_recount(self, b: Map<Identity, i128>) -> ProposalView {
        if self.recount_result(b) is Ok {
            ProposalView {
                participation: weight_of(self.voters, b) as u128,
                total_participation: weight_of(b.dom(), b) as u128,
                ..self
            }
        } else {
            self
        }
    }
}

impl View for Proposal {
    type V = ProposalView;

    open spec fn view(&self) -> ProposalView {
        ProposalView {
            id: self.id,
            payload: self.payload,
            proposer: self.proposer,
            voting_end_time: self.voting_end_time,
            participation: self.participation,
            target_approval_rate_bps: self.target_approval_rate_bps,
            total_participation: self.total_participation,
            voters: self.voters@,
        }
    }
}

impl Clone for Proposal {
    fn clone(&self) -> (r: Self)
        ensures
            r@ == self@,
    {
        Proposal {
            id: self.id,
            payload: self.payload,
            proposer: self.proposer,
            voting_end_time: self.voting_end_time,
            participation: self.participation,
            target_approval_rate_bps: self.target_approval_rate_bps,
            total_participation: self.total_participation,
            voters: self.voters.clone(),
        }
    }
}

/// A quotient reaches a bound exactly when the dividend reaches the bound
/// times the divisor.
pub proof fn lemma_quotient_bound(x: int, t: int, k: int)
    requires
        x >= 0,
        t > 0,
    ensures
        (x / t >= k) <==> (x >= k * t),
{
    vstd::arithmetic::div_mod::lemma_fundamental_div_mod(x, t);
    let q = x / t;
    let r = x % t;
    assert(0 <= r < t) by {
        vstd::arithmetic::div_mod::lemma_mod_bound(x, t);
    }
    if q >= k {
        assert(t * q >= k * t) by (nonlinear_arith)
            requires
                q >= k,
                t > 0,
        ;
    } else {
        assert(t * q + t <= k * t) by (nonlinear_arith)
            requires
                q + 1 <= k,
                t > 0,
        ;
    }
}

/// The weight of an amount.
pub fn weigh(amount: i128) -> (r: u128)
    ensures
        r == weight(amount),
{
    if amount >= 0 {
        amount as u128
    } else {
        let below: i128 = -(amount + 1);
        u128::MAX - (below as u128)
    }
}

/// The weight that a snapshot gives to a list of identities together: `None`
/// where one of them has no entry or the weights exceed a word.
pub fn weigh_all(who: &Vec<Identity>, balance: &Balances) -> (r: Option<u128>)
    requires
        who@.no_duplicates(),
    ensures
        r is Some <==> (who@.to_set().subset_of(balance@.dom()) && weight_of(
            who@.to_set(),
            balance@,
        ) <= u128::MAX),
        r is Some ==> r->0 == weight_of(who@.to_set(), balance@),
{
    let ghost f = weight_in(balance@);
    let ghost all = who@.to_set();
    let mut acc: u128 = 0;
    let mut i: usize = 0;
    proof {
        assert(who@.take(0).to_set() =~= Set::<Identity>::empty());
        crate::sum::lemma_sum_empty(f);
        vstd::seq_lib::seq_to_set_is_finite(who@);
    }
    while i < who.len()
        invariant
            i <= who.len(),
            who@.no_duplicates(),
            f == weight_in(balance@),
            all == who@.to_set(),
            all.finite(),
            who@.take(i as int).to_set().subset_of(balance@.dom()),
            acc == sum_over(who@.take(i as int).to_set(), f),
        decreases who.len() - i,
    {
        let ghost seen = who@.take(i as int).to_set();
        let k = who[i];
        proof {
            vstd::seq_lib::seq_to_set_is_finite(who@.take(i as int));
            assert(!seen.contains(k)) by {
                if who@.take(i as int).contains(k) {
                    let j = choose|j: int| 0 <= j < i && who@.take(i as int)[j] == k;
                    assert(who@[j] == who@[i as int]);
                }
            }
            assert(who@.take(i as int + 1) =~= who@.take(i as int).push(k));
            who@.take(i as int).lemma_push_to_set_commute(k);
            crate::sum::lemma_sum_insert(seen, f, k);
            assert(all.contains(k)) by {
                assert(who@[i as int] == k);
            }
            assert(seen.insert(k).subset_of(all)) by {
                assert forall|x: Identity| seen.insert(k).contains(x) implies all.contains(x) by {
                    if who@.take(i as int).contains(x) {
                        let j = choose|j: int| 0 <= j < i && who@.take(i as int)[j] == x;
                        assert(who@[j] == x);
                    }
                }
            }
        }
        match balance.get(k) {
            None => {
                return None;
            },
            Some(amount) => {
                let w = weigh(amount);
                if w > u128::MAX - acc {
                    proof {
                        if all.subset_of(balance@.dom()) {
                            assert forall|x: Identity| all.contains(x) implies f(x) >= 0 by {}
                            crate::sum::lemma_sum_monotone(seen.insert(k), all, f);
                        }
                    }
                    return None;
                }
                acc = acc + w;
            },
        }
        i += 1;
    }
    proof {
        assert(who@.take(i as int) =~= who@);
    }
    Some(acc)
}

impl Proposal {
    /// Casts a vote of `weight` for `voter` at time `current_time`.
    ///
    /// Fails with `VotingClosed` once voting is closed, with `AlreadyVoted`
    /// where the voter is on record, with `Overflow` where the weight does
    /// not fit; a failed vote changes nothing.
    pub fn vote(&mut self, current_time: u64, voter: Identity, weight: u128) -> (r: Result<
        (),
        Error,
    >)
        ensures
            r == old(self)@.vote_result(current_time, voter, weight),
            final(self)@ == old(self)@.after_vote(current_time, voter, weight),
    {
        if self.is_closed(current_time) {
            return Err(Error::VotingClosed);
        }
        if self.voters.contains(voter) {
            return Err(Error::AlreadyVoted);
        }
        if weight > u128::MAX - self.participation {
            return Err(Error::Overflow);
        }
        self.participation = self.participation + weight;
        self.voters.insert(voter);
        Ok(())
    }

    /// Whether voting is closed at `current_time`.
    pub fn is_closed(&self, current_time: u64) -> (r: bool)
        ensures
            r == self@.is_closed(current_time),
    {
        current_time >= self.voting_end_time || self.participation == self.total_participation
    }

    /// The approval rate in basis points, rounded down; 1043 stands for
    /// 10.43 %.
    pub fn approval_rate_bps(&self) -> (r: Result<u32, Error>)
        ensures
            r == self@.rate_result(),
    {
        if self.participation == 0 || self.total_participation == 0 {
            return Ok(0);
        }
        if self.participation > u128::MAX / 10_000 {
            proof {
                assert(self.participation * 10_000 > u128::MAX);
            }
            return Err(Error::Overflow);
        }
        let scaled: u128 = self.participation * 10_000;
        let rate: u128 = scaled / self.total_participation;
        if rate > 0xffff_ffff {
            return Err(Error::Overflow);
        }
        Ok(rate as u32)
    }

    /// Whether the approval rate reaches the target, decided exactly whatever
    /// the size of the weights.
    pub fn is_approved(&self) -> (r: bool)
        ensures
            r == self@.is_approved(),
    {
        if self.total_participation == 0 {
            return self.target_approval_rate_bps == 0;
        }
        proof {
            lemma_quotient_bound(
                self.participation * 10_000,
                self.total_participation as int,
                self.target_approval_rate_bps as int,
            );
            assert(self.target_approval_rate_bps * self.total_participation
                == self.total_participation * self.target_approval_rate_bps) by (nonlinear_arith);
        }
        product_at_least(
            self.participation,
            BPS,
            self.total_participation,
            self.target_approval_rate_bps as u64,
        )
    }

    /// What the proposal asks for.
    pub fn payload(&self) -> (r: &ProposalPayload)
        ensures
            *r == self@.payload,
    {
        &self.payload
    }

    /// Recomputes the weights from a snapshot of balances: the participation
    /// becomes the weight of the voters, the total the weight of all entries.
    ///
    /// Fails with `NotFound` where a voter has no entry in the snapshot or the
    /// voters' weights exceed a word, with `Overflow` where all the weights
    /// together do; a failed recomputation changes nothing.
    pub fn set_participation_from_balance(&mut self, balance: &Balances) -> (r: Result<(), Error>)
        ensures
            r == old(self)@.recount_result(balance@),
            final(self)@ == old(self)@.after_recount(balance@),
    {
        let members = self.voters.members();
        let cast = match weigh_all(&members, balance) {
            Some(w) => w,
            None => {
                return Err(Error::NotFound);
            },
        };
        let holders = balance.holders();
        let all = match weigh_all(&holders, balance) {
            Some(w) => w,
            None => {
                return Err(Error::Overflow);
            },
        };
        self.participation = cast;
        self.total_participation = all;
        Ok(())
    }
}

} // verus!
