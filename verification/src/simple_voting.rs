//! A voting program that holds a single proposal, created when it is set up.

use vstd::prelude::*;
use crate::identity::Identity;
use crate::voters::Voters;

verus! {

/// The failures of the program.
#[derive(Clone, Copy, Debug, PartialEq, Eq, Structural, PartialOrd, Ord)]
pub enum Error {
    AlreadyInitialized,
    Conversion,
    KeyExpected,
    AlreadyVoted,
    Overflow,
    VotingClosed,
}

impl Error {
    /// The number under which the failure is reported to the caller.
    pub open spec fn spec_code(self) -> u32 {
        match self {
            Error::AlreadyInitialized => 1,
            Error::Conversion => 2,
            Error::KeyExpected => 3,
            Error::AlreadyVoted => 4,
            Error::Overflow => 5,
            Error::VotingClosed => 6,
        }
    }

    /// The number under which the failure is reported to the caller.
    pub fn code(&self) -> (r: u32)
        ensures
            r == self.spec_code(),
    {
        match self {
            Error::AlreadyInitialized => 1,
            Error::Conversion => 2,
            Error::KeyExpected => 3,
            Error::AlreadyVoted => 4,
            Error::Overflow => 5,
            Error::VotingClosed => 6,
        }
    }
}

/// The places in which the program keeps its state.
#[derive(Clone, Copy, Debug, PartialEq, Eq, Structural)]
pub enum DataKey {
    AlreadyInitialized,
    Proposal,
}

impl DataKey {
    /// The number of the place.
    pub fn code(&self) -> (r: u32)
        ensures
            r == (match *self {
                DataKey::AlreadyInitialized => 0u32,
                DataKey::Proposal => 1u32,
            }),
    {
        match self {
            DataKey::AlreadyInitialized => 0,
            DataKey::Proposal => 1,
        }
    }
}

/// The proposal and the votes cast on it.
#[derive(Debug)]
pub struct Proposal {
    /// Seconds since the epoch; voting ends when this time is reached.
    pub voting_end_time: u64,
    /// The number of votes cast.
    pub votes: u32,
    /// The approval rate that the proposal needs, in basis points.
    pub target_approval_rate_bps: u32,
    /// The number of voters expected at most.
    pub total_voters: u32,
    /// Who has voted.
    pub voters: Voters,
}

/// The proposal as a mathematical value.
pub struct ProposalView {
    pub voting_end_time: u64,
    pub votes: u32,
    pub target_approval_rate_bps: u32,
    pub total_voters: u32,
    pub voters: Set<Identity>,
}

impl ProposalView {
    /// Voting is closed once the end time is reached or as many have voted
    /// as were expected.
    pub open spec fn is_closed(self, now: u64) -> bool {
        now >= self.voting_end_time || self.voters.len() == self.total_voters
    }

    /// The approval rate in basis points, rounded down; zero where no
    /// voters are expected.
    pub open spec fn approval_rate(self) -> int {
        if self.total_voters == 0 {
            0
        } else {
            (self.votes * 10_000) / (self.total_voters as int)
        }
    }

    /// Whether the approval rate reaches the target.
    pub open spec fn is_approved(self) -> bool {
        self.approval_rate() >= self.target_approval_rate_bps
    }

    /// The approval rate as the program reports it: zero without votes, else
    /// `Overflow` where the product exceeds its word or no voters are
    /// expected, else the rate.
    pub open spec fn rate_result(self) -> Result<u32, Error> {
        if self.votes == 0 {
            Ok(0u32)
        } else if self.votes * 10_000 > u32::MAX || self.total_voters == 0 {
            Err(Error::Overflow)
        } else {
            Ok(self.approval_rate() as u32)
        }
    }

    /// How a vote of `voter` at time `now` ends.
    pub open spec fn vote_result(self, now: u64, voter: Identity) -> Result<(), Error> {
        if self.is_closed(now) {
            Err(Error::VotingClosed)
        } else if self.voters.contains(voter) {
            Err(Error::AlreadyVoted)
        } else if self.votes + 1 > u32::MAX {
            Err(Error::Overflow)
        } else {
            Ok(())
        }
    }

    /// The proposal after a vote: counted and recorded where the vote
    /// succeeds, unchanged where it fails.
    pub open spec fn after_vote(self, now: u64, voter: Identity) -> ProposalView {
        if self.vote_result(now, voter) is Ok {
            ProposalView {
                votes: (self.votes + 1) as u32,
                voters: self.voters.insert(voter),
                ..self
            }
        } else {
            self
        }
    }
}

impl View for Proposal {
    type V = ProposalView;

    open spec fn view(&self) -> ProposalView {
        ProposalView {
            voting_end_time: self.voting_end_time,
            votes: self.votes,
            target_approval_rate_bps: self.target_approval_rate_bps,
            total_voters: self.total_voters,
            voters: self.voters@,
        }
    }
}

impl Clone for Proposal {
    fn clone(&self) -> (r: Self)
        ensures
            r@ == self@,
    {
        Proposal {
            voting_end_time: self.voting_end_time,
            votes: self.votes,
            target_approval_rate_bps: self.target_approval_rate_bps,
            total_voters: self.total_voters,
            voters: self.voters.clone(),
        }
    }
}

impl Proposal {
    /// Casts the vote of `voter` at time `current_time`.
    ///
    /// Fails, changing nothing, with `VotingClosed` once voting is closed,
    /// with `AlreadyVoted` where the voter is on record, and with `Overflow`
    /// where the count does not fit its word.
    pub fn vote(&mut self, current_time: u64, voter: Identity) -> (r: Result<(), Error>)
        ensures
            r == old(self)@.vote_result(current_time, voter),
            final(self)@ == old(self)@.after_vote(current_time, voter),
    {
        if self.is_closed(current_time) {
            return Err(Error::VotingClosed);
        }
        if self.voters.contains(voter) {
            return Err(Error::AlreadyVoted);
        }
        if self.votes == u32::MAX {
            return Err(Error::Overflow);
        }
        self.votes = self.votes + 1;
        self.voters.insert(voter);
        Ok(())
    }

    /// Whether voting is closed at `current_time`.
    pub fn is_closed(&self, current_time: u64) -> (r: bool)
        ensures
            r == self@.is_closed(current_time),
    {
        let expected: u64 = self.total_voters as u64;
        let voted: usize = self.voters.len();
        current_time >= self.voting_end_time || (voted as u64) == expected
    }

    /// The approval rate in basis points, rounded down; 1043 stands for
    /// 10.43 %.
    pub fn approval_rate_bps(&self) -> (r: Result<u32, Error>)
        ensures
            r == self@.rate_result(),
    {
        if self.votes == 0 {
            return Ok(0);
        }
        if self.votes > u32::MAX / 10_000 {
            return Err(Error::Overflow);
        }
        if self.total_voters == 0 {
            return Err(Error::Overflow);
        }
        let scaled: u32 = self.votes * 10_000;
        Ok(scaled / self.total_voters)
    }

    /// Whether the approval rate reaches the target, decided exactly whatever
    /// the size of the counts.
    pub fn is_approved(&self) -> (r: bool)
        ensures
            r == self@.is_approved(),
    {
        if self.total_voters == 0 {
            return self.target_approval_rate_bps == 0;
        }
        let votes: u64 = self.votes as u64;
        let total: u64 = self.total_voters as u64;
        let target: u64 = self.target_approval_rate_bps as u64;
        proof {
            crate::voting::lemma_quotient_bound(votes * 10_000, total as int, target as int);
            assert(votes * 10_000 <= 0xffff_ffff * 10_000) by (nonlinear_arith)
                requires
                    votes <= 0xffff_ffff,
            ;
            assert(target * total <= 0xffff_ffff * 0xffff_ffff) by (nonlinear_arith)
                requires
                    target <= 0xffff_ffff,
                    total <= 0xffff_ffff,
            ;
        }
        votes * 10_000 >= target * total
    }
}

/// A vote that was recorded: the voter, whose authorization the invocation
/// must carry, and the approval rate after the vote, which is published.
#[derive(Clone, Copy, Debug, PartialEq)]
pub struct Voted {
    pub voter: Identity,
    pub approval_rate_bps: Result<u32, Error>,
}

/// The program: its one proposal, once it has been set up.
#[derive(Debug)]
pub struct ProposalVotingContract {
    /// The proposal; none before set-up.
    pub proposal: Option<Proposal>,
}

impl ProposalVotingContract {
    /// A program that has not been set up.
    pub fn new() -> (r: ProposalVotingContract)
        ensures
            r.proposal is None,
    {
        ProposalVotingContract { proposal: None }
    }

    /// Sets the program up at time `now`, once, with its proposal: open for
    /// `voting_period_secs`, with no votes yet.
    ///
    /// Fails, changing nothing, with `AlreadyInitialized` on a program that
    /// is set up, and with `Overflow` where the end time does not fit its
    /// word.
    pub fn init(
        &mut self,
        now: u64,
        voting_period_secs: u64,
        target_approval_rate_bps: u32,
        total_voters: u32,
    ) -> (r: Result<(), Error>)
        ensures
            old(self).proposal is Some ==> r == Err::<(), Error>(Error::AlreadyInitialized)
                && *final(self) == *old(self),
            old(self).proposal is None && now + voting_period_secs > u64::MAX ==> r == Err::<
                (),
                Error,
            >(Error::Overflow) && *final(self) == *old(self),
            old(self).proposal is None && now + voting_period_secs <= u64::MAX ==> r == Ok::<
                (),
                Error,
            >(()) && final(self).proposal is Some && final(self).proposal->0@ == (ProposalView {
                voting_end_time: (now + voting_period_secs) as u64,
                votes: 0,
                target_approval_rate_bps,
                total_voters,
                voters: Set::empty(),
            }),
    {
        if self.proposal.is_some() {
            return Err(Error::AlreadyInitialized);
        }
        if voting_period_secs > u64::MAX - now {
            return Err(Error::Overflow);
        }
        self.create_proposal(now, voting_period_secs, target_approval_rate_bps, total_voters);
        Ok(())
    }

    fn create_proposal(
        &mut self,
        now: u64,
        voting_period_secs: u64,
        target_approval_rate_bps: u32,
        total_voters: u32,
    )
        requires
            now + voting_period_secs <= u64::MAX,
        ensures
            final(self).proposal is Some,
            final(self).proposal->0@ == (ProposalView {
                voting_end_time: (now + voting_period_secs) as u64,
                votes: 0,
                target_approval_rate_bps,
                total_voters,
                voters: Set::empty(),
            }),
    {
        self.proposal = Some(
            Proposal {
                voting_end_time: now + voting_period_secs,
                target_approval_rate_bps,
                votes: 0,
                voters: Voters::new(),
                total_voters,
            },
        );
    }

    /// Casts the vote of `voter` at time `now`.
    ///
    /// Fails, changing nothing, with `KeyExpected` on a program that has not
    /// been set up, and as `Proposal::vote` does.
    pub fn vote(&mut self, now: u64, voter: Identity) -> (r: Result<Voted, Error>)
        ensures
            old(self).proposal is None ==> r is Err && r->Err_0 == Error::KeyExpected
                && *final(self) == *old(self),
            old(self).proposal is Some ==> {
                let before = old(self).proposal->0@;
                &&& final(self).proposal is Some
                &&& final(self).proposal->0@ == before.after_vote(now, voter)
                &&& before.vote_result(now, voter) is Err ==> r is Err && r->Err_0
                    == before.vote_result(now, voter)->Err_0
                &&& before.vote_result(now, voter) is Ok ==> r is Ok && r->Ok_0 == (Voted {
                    voter,
                    approval_rate_bps: before.after_vote(now, voter).rate_result(),
                })
            },
    {
        let mut proposal = match &self.proposal {
            None => {
                return Err(Error::KeyExpected);
            },
            Some(p) => p.clone(),
        };
        match proposal.vote(now, voter) {
            Err(e) => {
                return Err(e);
            },
            Ok(_) => {},
        }
        let updated_approval_rate = proposal.approval_rate_bps();
        self.proposal = Some(proposal);
        Ok(Voted { voter, approval_rate_bps: updated_approval_rate })
    }
}

} // verus!
