//! The proposal and voting program.

use vstd::prelude::*;
use crate::effect::outcome;
use crate::effect::Effect;
use crate::identity::Identity;
use crate::voters::Voters;
use crate::voting::Error;
use crate::voting::Proposal;
use crate::voting::ProposalPayload;
use crate::voting::ProposalView;

verus! {

/// The proposals that the program holds, one per id.
#[derive(Debug)]
pub struct ProposalTable {
    list: Vec<Proposal>,
}

/// The ids of a list of proposals, in the order of the list.
pub open spec fn ids_of(list: Seq<Proposal>) -> Seq<u64> {
    list.map_values(|p: Proposal| p.id)
}

impl View for ProposalTable {
    type V = Map<u64, ProposalView>;

    closed spec fn view(&self) -> Map<u64, ProposalView> {
        Map::new(
            |id: u64| ids_of(self.list@).contains(id),
            |id: u64| self.list@[ids_of(self.list@).index_of(id)]@,
        )
    }
}

/// The table that results from filing the proposals of a list one after the
/// other; of two proposals with one id the later one stays.
pub open spec fn filed_in_order(list: Seq<ProposalView>) -> Map<u64, ProposalView>
    decreases list.len(),
{
    if list.len() == 0 {
        Map::empty()
    } else {
        filed_in_order(list.drop_last()).insert(list.last().id, list.last())
    }
}

/// A table of proposals is sound when it is finite and files every proposal
/// under the proposal's own id.
pub open spec fn proposals_wf(m: Map<u64, ProposalView>) -> bool {
    &&& m.dom().finite()
    &&& forall|id: u64| #[trigger] m.dom().contains(id) ==> m[id].id == id && m[id].voters.finite()
}

impl ProposalTable {
    #[verifier::type_invariant]
    spec fn unique(self) -> bool {
        ids_of(self.list@).no_duplicates()
    }

    proof fn lemma_wf(self)
        ensures
            proposals_wf(self@),
    {
        let ids = ids_of(self.list@);
        vstd::seq_lib::seq_to_set_is_finite(ids);
        assert(self@.dom() =~= ids.to_set());
        assert forall|id: u64| #[trigger] self@.dom().contains(id) implies self@[id].id == id
            && self@[id].voters.finite() by {
            let j = ids.index_of(id);
            assert(0 <= j < ids.len() && ids[j] == id);
            self.list@[j].voters.lemma_finite();
        }
    }

    /// A table without proposals.
    pub fn new() -> (r: ProposalTable)
        ensures
            r@ == Map::<u64, ProposalView>::empty(),
    {
        let r = ProposalTable { list: Vec::new() };
        assert(r@ =~= Map::<u64, ProposalView>::empty());
        r
    }

    /// The table that holds the proposals of `list`, filed one after the
    /// other.
    pub fn restore(list: Vec<Proposal>) -> (r: ProposalTable)
        ensures
            proposals_wf(r@),
            r@ == filed_in_order(list@.map_values(|p: Proposal| p@)),
    {
        let mut table = ProposalTable::new();
        let ghost views = list@.map_values(|p: Proposal| p@);
        let mut i: usize = 0;
        proof {
            table.lemma_wf();
        }
        while i < list.len()
            invariant
                i <= list.len(),
                views == list@.map_values(|p: Proposal| p@),
                table@ == filed_in_order(views.take(i as int)),
                proposals_wf(table@),
            decreases list.len() - i,
        {
            proof {
                assert(views.take(i as int + 1).drop_last() =~= views.take(i as int));
            }
            table.set(list[i].clone());
            i += 1;
        }
        proof {
            assert(views.take(i as int) =~= views);
        }
        table
    }

    fn position(&self, id: u64) -> (r: Option<usize>)
        ensures
            proposals_wf(self@),
            match r {
                Some(i) => i < self.list@.len() && self.list@[i as int].id == id
                    && self@.dom().contains(id) && self@[id] == self.list@[i as int]@,
                None => !self@.dom().contains(id),
            },
    {
        proof {
            use_type_invariant(self);
            self.lemma_wf();
        }
        let ghost ids = ids_of(self.list@);
        let mut i: usize = 0;
        while i < self.list.len()
            invariant
                i <= self.list.len(),
                ids == ids_of(self.list@),
                ids.no_duplicates(),
                proposals_wf(self@),
                forall|j: int| 0 <= j < i ==> ids[j] != id,
            decreases self.list.len() - i,
        {
            if self.list[i].id == id {
                proof {
                    assert(ids[i as int] == id);
                    let j = ids.index_of(id);
                    assert(0 <= j < ids.len() && ids[j] == id);
                    assert(j == i);
                }
                return Some(i);
            }
            i += 1;
        }
        None
    }

    /// Whether a proposal is filed under `id`.
    pub fn contains_key(&self, id: u64) -> (r: bool)
        ensures
            proposals_wf(self@),
            r == self@.dom().contains(id),
    {
        self.position(id).is_some()
    }

    /// The proposal filed under `id`, if there is one.
    pub fn get(&self, id: u64) -> (r: Option<Proposal>)
        ensures
            proposals_wf(self@),
            self@.dom().contains(id) ==> r is Some && r->0@ == self@[id],
            !self@.dom().contains(id) ==> r is None,
    {
        match self.position(id) {
            Some(i) => Some(self.list[i].clone()),
            None => None,
        }
    }

    /// Files `proposal` under its id, in place of an earlier one with that id.
    pub fn set(&mut self, proposal: Proposal)
        ensures
            proposals_wf(final(self)@),
            final(self)@ == old(self)@.insert(proposal.id, proposal@),
    {
        proof {
            use_type_invariant(&*self);
        }
        let id = proposal.id;
        let ghost filed = proposal@;
        let found = self.position(id);
        let mut list: Vec<Proposal> = Vec::new();
        std::mem::swap(&mut list, &mut self.list);
        let ghost before = list@;
        let ghost ids = ids_of(before);
        match found {
            Some(i) => {
                list.set(i, proposal);
                assert(ids_of(list@) =~= ids);
            },
            None => {
                list.push(proposal);
                assert(ids_of(list@) =~= ids.push(id));
                assert(!ids.contains(id));
            },
        }
        proof {
            let after = ids_of(list@);
            assert(after.no_duplicates());
            assert forall|k: u64| #[trigger] after.contains(k) <==> (k == id || ids.contains(k)) by {
                if ids.contains(k) {
                    let j = ids.index_of(k);
                    assert(after[j] == k);
                }
                if k == id {
                    match found {
                        Some(i) => {
                            assert(after[i as int] == id);
                        },
                        None => {
                            assert(after[after.len() - 1] == id);
                        },
                    }
                }
            }
            assert forall|k: u64| after.contains(k) implies list@[after.index_of(k)]@ == (if k
                == id {
                filed
            } else {
                before[ids.index_of(k)]@
            }) by {
                let j = after.index_of(k);
                assert(0 <= j < after.len() && after[j] == k);
                if k != id {
                    let j0 = ids.index_of(k);
                    assert(0 <= j0 < ids.len() && ids[j0] == k);
                    assert(after[j0] == k);
                    assert(j == j0);
                } else {
                    match found {
                        Some(i) => {
                            assert(after[i as int] == id);
                            assert(j == i);
                        },
                        None => {
                            assert(after[after.len() - 1] == id);
                            assert(j == after.len() - 1);
                        },
                    }
                }
            }
        }
        self.list = list;
        proof {
            assert(self@ =~= old(self)@.insert(id, filed));
            self.lemma_wf();
        }
    }

    /// The proposals of the table, one per id.
    pub fn proposals(&self) -> (r: Vec<Proposal>)
        ensures
            proposals_wf(self@),
            ids_of(r@).no_duplicates(),
            forall|id: u64| #[trigger] self@.dom().contains(id) <==> ids_of(r@).contains(id),
            forall|i: int| 0 <= i < r@.len() ==> self@[(#[trigger] r@[i]).id] == r@[i]@,
    {
        proof {
            use_type_invariant(self);
            self.lemma_wf();
        }
        let ghost ids = ids_of(self.list@);
        let mut out: Vec<Proposal> = Vec::new();
        let mut i: usize = 0;
        while i < self.list.len()
            invariant
                i <= self.list.len(),
                out@.len() == i,
                forall|j: int| 0 <= j < i ==> (#[trigger] out@[j])@ == self.list@[j]@,
            decreases self.list.len() - i,
        {
            out.push(self.list[i].clone());
            i += 1;
        }
        proof {
            assert(ids_of(out@) =~= ids) by {
                assert forall|j: int| 0 <= j < ids.len() implies ids_of(out@)[j] == ids[j] by {
                    assert(out@[j]@ == self.list@[j]@);
                }
            }
            assert forall|j: int| 0 <= j < out@.len() implies self@[(#[trigger] out@[j]).id]
                == out@[j]@ by {
                assert(out@[j]@ == self.list@[j]@);
                let k = out@[j].id;
                assert(ids[j] == k);
                let j0 = ids.index_of(k);
                assert(0 <= j0 < ids.len() && ids[j0] == k);
                assert(j0 == j);
            }
        }
        out
    }
}

/// The voting program: its settings and the proposals it holds. A program
/// that has not been set up holds nothing and refuses every operation.
#[derive(Debug)]
pub struct ProposalVotingContract {
    initialized: bool,
    admin: Identity,
    voting_period_secs: u64,
    target_approval_rate_bps: u32,
    total_voters: u128,
    admin_mode: bool,
    proposals: ProposalTable,
}

/// The voting program as a mathematical value.
pub struct VotingView {
    /// Whether the program has been set up.
    pub initialized: bool,
    /// The identity that creates and updates proposals.
    pub admin: Identity,
    /// For how many seconds a new proposal is open, unless it says otherwise.
    pub voting_period_secs: u64,
    /// The approval rate a new proposal needs, unless it says otherwise.
    pub target_approval_rate_bps: u32,
    /// The total weight of a new proposal, unless it says otherwise.
    pub total_voters: u128,
    /// Whether voting and reading need the admin's authorization too.
    pub admin_mode: bool,
    /// The proposals by id.
    pub proposals: Map<u64, ProposalView>,
}

/// The state after an operation and what the operation returned.
pub struct VotingStep {
    pub next: VotingView,
    pub result: Result<Seq<Effect>, Error>,
}

impl VotingView {
    /// Every reachable state is sound: the table of proposals is.
    pub open spec fn wf(self) -> bool {
        proposals_wf(self.proposals)
    }

    /// The authorization that admin mode adds to voting and reading.
    pub open spec fn guard(self) -> Seq<Effect> {
        if self.admin_mode {
            seq![Effect::Authorize(self.admin)]
        } else {
            Seq::<Effect>::empty()
        }
    }

    /// Setting the program up.
    pub open spec fn init(
        self,
        admin: Identity,
        voting_period_secs: u64,
        target_approval_rate_bps: u32,
        participation: u128,
        admin_mode: bool,
    ) -> VotingStep {
        if self.initialized {
            VotingStep { next: self, result: Err(Error::AlreadyInitialized) }
        } else if voting_period_secs == 0 {
            VotingStep { next: self, result: Err(Error::InvalidVotingPeriod) }
        } else if target_approval_rate_bps == 0 {
            VotingStep { next: self, result: Err(Error::InvalidTargetApprovalRate) }
        } else if participation == 0 {
            VotingStep { next: self, result: Err(Error::NotEnoughParticipants) }
        } else {
            VotingStep {
                next: VotingView {
                    initialized: true,
                    admin,
                    voting_period_secs,
                    target_approval_rate_bps,
                    total_voters: participation,
                    admin_mode,
                    proposals: Map::empty(),
                },
                result: Ok(Seq::<Effect>::empty()),
            }
        }
    }

    /// The proposal that creation files.
    pub open spec fn created(
        now: u64,
        id: u64,
        payload: ProposalPayload,
        proposer: Identity,
        voting_period_secs: u64,
        target_approval_rate_bps: u32,
        total_participation: u128,
    ) -> ProposalView {
        ProposalView {
            id,
            payload,
            proposer,
            voting_end_time: (now + voting_period_secs) as u64,
            participation: 0,
            target_approval_rate_bps,
            total_participation,
            voters: Set::empty(),
        }
    }

    /// Creating a proposal with parameters of its own.
    pub open spec fn create_custom(
        self,
        now: u64,
        id: u64,
        payload: ProposalPayload,
        proposer: Identity,
        voting_period_secs: u64,
        target_approval_rate_bps: u32,
        total_participation: u128,
    ) -> VotingStep {
        if !self.initialized {
            VotingStep { next: self, result: Err(Error::KeyExpected) }
        } else if id == 0 {
            VotingStep { next: self, result: Err(Error::NotValidID) }
        } else if voting_period_secs == 0 {
            VotingStep { next: self, result: Err(Error::InvalidVotingPeriod) }
        } else if target_approval_rate_bps == 0 {
            VotingStep { next: self, result: Err(Error::InvalidTargetApprovalRate) }
        } else if total_participation == 0 {
            VotingStep { next: self, result: Err(Error::NotEnoughParticipants) }
        } else if self.proposals.dom().contains(id) {
            VotingStep { next: self, result: Err(Error::DuplicatedEntity) }
        } else if now + voting_period_secs > u64::MAX {
            VotingStep { next: self, result: Err(Error::Overflow) }
        } else {
            VotingStep {
                next: VotingView {
                    proposals: self.proposals.insert(
                        id,
                        Self::created(
                            now,
                            id,
                            payload,
                            proposer,
                            voting_period_secs,
                            target_approval_rate_bps,
                            total_participation,
                        ),
                    ),
                    ..self
                },
                result: Ok(
                    seq![
                        Effect::Authorize(proposer),
                        Effect::Authorize(self.admin),
                        Effect::ProposalCreated { id, payload, proposer },
                    ],
                ),
            }
        }
    }

    /// Creating a proposal with the program's own parameters.
    pub open spec fn create(
        self,
        now: u64,
        proposer: Identity,
        id: u64,
        payload: ProposalPayload,
    ) -> VotingStep {
        self.create_custom(
            now,
            id,
            payload,
            proposer,
            self.voting_period_secs,
            self.target_approval_rate_bps,
            self.total_voters,
        )
    }

    /// Voting, with the weight of one, on the proposal `id`.
    pub open spec fn vote(self, now: u64, voter: Identity, id: u64) -> VotingStep {
        if !self.initialized {
            VotingStep { next: self, result: Err(Error::KeyExpected) }
        } else if !self.proposals.dom().contains(id) {
            VotingStep { next: self, result: Err(Error::NotFound) }
        } else {
            let before = self.proposals[id];
            match before.vote_result(now, voter, 1) {
                Err(e) => VotingStep { next: self, result: Err(e) },
                Ok(_) => {
                    let after = before.after_vote(now, voter, 1);
                    VotingStep {
                        next: VotingView { proposals: self.proposals.insert(id, after), ..self },
                        result: Ok(
                            seq![Effect::Authorize(voter)] + self.guard() + seq![
                                Effect::ProposalVoted {
                                    id,
                                    voter,
                                    approval_rate_bps: after.rate_result(),
                                },
                            ],
                        ),
                    }
                },
            }
        }
    }

    /// Reading the proposal `id`: the proposal, and the authorization that
    /// reading it needs.
    pub open spec fn find(self, id: u64) -> Result<(ProposalView, Seq<Effect>), Error> {
        if !self.initialized {
            Err(Error::KeyExpected)
        } else if !self.proposals.dom().contains(id) {
            Err(Error::NotFound)
        } else {
            Ok((self.proposals[id], self.guard()))
        }
    }

    /// Recomputing the weights of the proposal `id` from a snapshot of
    /// balances, and filing the result.
    pub open spec fn recount(self, id: u64, b: Map<Identity, i128>) -> VotingStep {
        if !self.initialized {
            VotingStep { next: self, result: Err(Error::KeyExpected) }
        } else if !self.proposals.dom().contains(id) {
            VotingStep { next: self, result: Err(Error::NotFound) }
        } else {
            match self.proposals[id].recount_result(b) {
                Err(e) => VotingStep { next: self, result: Err(e) },
                Ok(_) => VotingStep {
                    next: VotingView {
                        proposals: self.proposals.insert(id, self.proposals[id].after_recount(b)),
                        ..self
                    },
                    result: Ok(seq![Effect::Authorize(self.admin)]),
                },
            }
        }
    }

    /// Replacing the proposal that has the id of `proposal`.
    pub open spec fn update(self, proposal: ProposalView) -> VotingStep {
        if !self.initialized {
            VotingStep { next: self, result: Err(Error::KeyExpected) }
        } else if !self.proposals.dom().contains(proposal.id) {
            VotingStep { next: self, result: Err(Error::NotFound) }
        } else {
            VotingStep {
                next: VotingView { proposals: self.proposals.insert(proposal.id, proposal), ..self },
                result: Ok(seq![Effect::Authorize(self.admin)]),
            }
        }
    }
}

impl View for ProposalVotingContract {
    type V = VotingView;

    closed spec fn view(&self) -> VotingView {
        VotingView {
            initialized: self.initialized,
            admin: self.admin,
            voting_period_secs: self.voting_period_secs,
            target_approval_rate_bps: self.target_approval_rate_bps,
            total_voters: self.total_voters,
            admin_mode: self.admin_mode,
            proposals: self.proposals@,
        }
    }
}

impl ProposalVotingContract {
    /// A program that has not been set up.
    pub fn new() -> (r: ProposalVotingContract)
        ensures
            !r@.initialized,
            r@.proposals == Map::<u64, ProposalView>::empty(),
            r@.wf(),
    {
        let proposals = ProposalTable::new();
        proposals.contains_key(0);
        ProposalVotingContract {
            initialized: false,
            admin: Identity { program: false, hi: 0, lo: 0 },
            voting_period_secs: 0,
            target_approval_rate_bps: 0,
            total_voters: 0,
            admin_mode: false,
            proposals,
        }
    }

    /// Sets the program up, once: with its admin, the parameters that new
    /// proposals get, and whether voting and reading need the admin too.
    ///
    /// Fails, changing nothing, with `AlreadyInitialized` on a program that
    /// is set up, and with `InvalidVotingPeriod`, `InvalidTargetApprovalRate`
    /// or `NotEnoughParticipants` where the period, the rate or the
    /// participation is zero.
    pub fn init(
        &mut self,
        admin: Identity,
        voting_period_secs: u64,
        target_approval_rate_bps: u32,
        participation: u128,
        admin_mode: bool,
    ) -> (r: Result<(), Error>)
        ensures
            final(self)@ == old(self)@.init(
                admin,
                voting_period_secs,
                target_approval_rate_bps,
                participation,
                admin_mode,
            ).next,
            r is Ok <==> old(self)@.init(
                admin,
                voting_period_secs,
                target_approval_rate_bps,
                participation,
                admin_mode,
            ).result is Ok,
            r is Err ==> r->Err_0 == old(self)@.init(
                admin,
                voting_period_secs,
                target_approval_rate_bps,
                participation,
                admin_mode,
            ).result->Err_0,
            final(self)@.wf(),
    {
        self.proposals.contains_key(0);
        if self.initialized {
            return Err(Error::AlreadyInitialized);
        }
        if voting_period_secs == 0 {
            return Err(Error::InvalidVotingPeriod);
        }
        if target_approval_rate_bps == 0 {
            return Err(Error::InvalidTargetApprovalRate);
        }
        if participation == 0 {
            return Err(Error::NotEnoughParticipants);
        }
        self.initialized = true;
        self.admin = admin;
        self.voting_period_secs = voting_period_secs;
        self.target_approval_rate_bps = target_approval_rate_bps;
        self.total_voters = participation;
        self.admin_mode = admin_mode;
        self.proposals = ProposalTable::new();
        self.proposals.contains_key(0);
        Ok(())
    }

    /// The authorization that admin mode adds to voting and reading: that of
    /// the admin where the mode is on, none where it is off. Fails with
    /// `KeyExpected` on a program that has not been set up.
    pub fn check_admin_mode(&self) -> (r: Result<Vec<Effect>, Error>)
        ensures
            self@.wf(),
            !self@.initialized ==> r is Err && r->Err_0 == Error::KeyExpected,
            self@.initialized ==> r is Ok && r->Ok_0@ == self@.guard(),
    {
        self.proposals.contains_key(0);
        if !self.initialized {
            return Err(Error::KeyExpected);
        }
        let mut effects: Vec<Effect> = Vec::new();
        if self.admin_mode {
            effects.push(Effect::Authorize(self.admin));
        }
        assert(effects@ =~= self@.guard());
        Ok(effects)
    }

    /// Creates a proposal with the program's own parameters; see
    /// `create_custom_proposal`.
    pub fn create_proposal(
        &mut self,
        now: u64,
        proposer: Identity,
        id: u64,
        payload: ProposalPayload,
    ) -> (r: Result<Vec<Effect>, Error>)
        ensures
            final(self)@ == old(self)@.create(now, proposer, id, payload).next,
            outcome(r) == old(self)@.create(now, proposer, id, payload).result,
            final(self)@.wf(),
    {
        let voting_period_secs = self.voting_period_secs;
        let target_approval_rate_bps = self.target_approval_rate_bps;
        let total_participation = self.total_voters;
        self.create_custom_proposal(
            now,
            id,
            payload,
            proposer,
            voting_period_secs,
            target_approval_rate_bps,
            total_participation,
        )
    }

    /// Creates the proposal `id`, open for `voting_period_secs` from `now`,
    /// with nobody on record and no weight cast. The proposer and the admin
    /// must both have authorized it.
    ///
    /// Fails, changing nothing: with `KeyExpected` on a program that has not
    /// been set up; with `NotValidID` where `id` is zero; with
    /// `InvalidVotingPeriod`, `InvalidTargetApprovalRate` or
    /// `NotEnoughParticipants` where the period, the rate or the total is
    /// zero; with `DuplicatedEntity` where the id is taken; with `Overflow`
    /// where the end time does not fit its word.
    pub fn create_custom_proposal(
        &mut self,
        now: u64,
        id: u64,
        payload: ProposalPayload,
        proposer: Identity,
        voting_period_secs: u64,
        target_approval_rate_bps: u32,
        total_participation: u128,
    ) -> (r: Result<Vec<Effect>, Error>)
        ensures
            final(self)@ == old(self)@.create_custom(
                now,
                id,
                payload,
                proposer,
                voting_period_secs,
                target_approval_rate_bps,
                total_participation,
            ).next,
            outcome(r) == old(self)@.create_custom(
                now,
                id,
                payload,
                proposer,
                voting_period_secs,
                target_approval_rate_bps,
                total_participation,
            ).result,
            final(self)@.wf(),
    {
        let taken = self.proposals.contains_key(id);
        if !self.initialized {
            return Err(Error::KeyExpected);
        }
        if id == 0 {
            return Err(Error::NotValidID);
        }
        if voting_period_secs == 0 {
            return Err(Error::InvalidVotingPeriod);
        }
        if target_approval_rate_bps == 0 {
            return Err(Error::InvalidTargetApprovalRate);
        }
        if total_participation == 0 {
            return Err(Error::NotEnoughParticipants);
        }
        if taken {
            return Err(Error::DuplicatedEntity);
        }
        if voting_period_secs > u64::MAX - now {
            return Err(Error::Overflow);
        }
        let proposal = Proposal {
            id,
            payload,
            proposer,
            voting_end_time: now + voting_period_secs,
            participation: 0,
            target_approval_rate_bps,
            total_participation,
            voters: Voters::new(),
        };
        self.proposals.set(proposal);
        let mut effects: Vec<Effect> = Vec::new();
        effects.push(Effect::Authorize(proposer));
        effects.push(Effect::Authorize(self.admin));
        effects.push(Effect::ProposalCreated { id, payload, proposer });
        assert(effects@ =~= seq![
            Effect::Authorize(proposer),
            Effect::Authorize(self.admin),
            Effect::ProposalCreated { id, payload, proposer },
        ]);
        Ok(effects)
    }

    /// Casts the vote of `voter`, with the weight of one, on the proposal
    /// `id` at time `now`. The voter must have authorized it, and in admin
    /// mode the admin too; the rate after the vote is published.
    ///
    /// Fails, changing nothing: with `KeyExpected` on a program that has not
    /// been set up; with `NotFound` where there is no such proposal; and as
    /// `Proposal::vote` does.
    pub fn vote(&mut self, now: u64, voter: Identity, id: u64) -> (r: Result<Vec<Effect>, Error>)
        ensures
            final(self)@ == old(self)@.vote(now, voter, id).next,
            outcome(r) == old(self)@.vote(now, voter, id).result,
            final(self)@.wf(),
    {
        let found = self.proposals.get(id);
        if !self.initialized {
            return Err(Error::KeyExpected);
        }
        let mut proposal = match found {
            Some(p) => p,
            None => {
                return Err(Error::NotFound);
            },
        };
        match proposal.vote(now, voter, 1) {
            Err(e) => {
                return Err(e);
            },
            Ok(_) => {},
        }
        let updated_approval_rate = proposal.approval_rate_bps();
        let mut effects: Vec<Effect> = Vec::new();
        effects.push(Effect::Authorize(voter));
        if self.admin_mode {
            effects.push(Effect::Authorize(self.admin));
        }
        effects.push(
            Effect::ProposalVoted { id, voter, approval_rate_bps: updated_approval_rate },
        );
        proof {
            assert(effects@ =~= seq![Effect::Authorize(voter)] + self@.guard() + seq![
                Effect::ProposalVoted { id, voter, approval_rate_bps: updated_approval_rate },
            ]);
            assert(proposal.id == id);
        }
        self.proposals.set(proposal);
        Ok(effects)
    }

    /// The proposal `id`, with the authorization that reading it needs: that
    /// of the admin in admin mode, none otherwise.
    ///
    /// Fails with `KeyExpected` on a program that has not been set up, and
    /// with `NotFound` where there is no such proposal.
    pub fn find_proposal(&self, id: u64) -> (r: Result<(Proposal, Vec<Effect>), Error>)
        ensures
            self@.wf(),
            match (r, self@.find(id)) {
                (Ok(found), Ok(expected)) => found.0@ == expected.0 && found.1@ == expected.1,
                (Err(e), Err(expected)) => e == expected,
                _ => false,
            },
    {
        let found = self.proposals.get(id);
        let effects = match self.check_admin_mode() {
            Ok(effects) => effects,
            Err(e) => {
                return Err(e);
            },
        };
        match found {
            Some(p) => Ok((p, effects)),
            None => Err(Error::NotFound),
        }
    }

    /// Replaces the proposal that has the id of `new_proposal`. The admin
    /// must have authorized it.
    ///
    /// Fails, changing nothing, with `KeyExpected` on a program that has not
    /// been set up, and with `NotFound` where there is no proposal with that
    /// id.
    pub fn update_proposal(&mut self, new_proposal: Proposal) -> (r: Result<Vec<Effect>, Error>)
        ensures
            final(self)@ == old(self)@.update(new_proposal@).next,
            outcome(r) == old(self)@.update(new_proposal@).result,
            final(self)@.wf(),
    {
        let known = self.proposals.contains_key(new_proposal.id);
        if !self.initialized {
            return Err(Error::KeyExpected);
        }
        if !known {
            return Err(Error::NotFound);
        }
        self.proposals.set(new_proposal);
        let mut effects: Vec<Effect> = Vec::new();
        effects.push(Effect::Authorize(self.admin));
        assert(effects@ =~= seq![Effect::Authorize(self.admin)]);
        Ok(effects)
    }

    /// Recomputes the weights of the proposal `id` from a snapshot of
    /// balances and files the result. The admin must have authorized it.
    ///
    /// Fails, changing nothing: with `KeyExpected` on a program that has not
    /// been set up; with `NotFound` where there is no such proposal; and as
    /// `Proposal::set_participation_from_balance` does.
    pub fn set_participation_from_balance(
        &mut self,
        id: u64,
        balance: &crate::balances::Balances,
    ) -> (r: Result<Vec<Effect>, Error>)
        ensures
            final(self)@ == old(self)@.recount(id, balance@).next,
            outcome(r) == old(self)@.recount(id, balance@).result,
            final(self)@.wf(),
    {
        let found = self.proposals.get(id);
        if !self.initialized {
            return Err(Error::KeyExpected);
        }
        let mut proposal = match found {
            Some(p) => p,
            None => {
                return Err(Error::NotFound);
            },
        };
        match proposal.set_participation_from_balance(balance) {
            Err(e) => {
                return Err(e);
            },
            Ok(_) => {},
        }
        self.proposals.set(proposal);
        let mut effects: Vec<Effect> = Vec::new();
        effects.push(Effect::Authorize(self.admin));
        assert(effects@ =~= seq![Effect::Authorize(self.admin)]);
        Ok(effects)
    }

    /// The program with the state that was stored: its settings, and the
    /// proposals of `proposals` filed one after the other.
    pub fn restore(
        initialized: bool,
        admin: Identity,
        voting_period_secs: u64,
        target_approval_rate_bps: u32,
        total_voters: u128,
        admin_mode: bool,
        proposals: Vec<Proposal>,
    ) -> (r: ProposalVotingContract)
        ensures
            r@.wf(),
            r@ == (VotingView {
                initialized,
                admin,
                voting_period_secs,
                target_approval_rate_bps,
                total_voters,
                admin_mode,
                proposals: filed_in_order(proposals@.map_values(|p: Proposal| p@)),
            }),
    {
        ProposalVotingContract {
            initialized,
            admin,
            voting_period_secs,
            target_approval_rate_bps,
            total_voters,
            admin_mode,
            proposals: ProposalTable::restore(proposals),
        }
    }

    /// The proposals that the program holds.
    pub fn proposals(&self) -> (r: &ProposalTable)
        ensures
            r@ == self@.proposals,
    {
        &self.proposals
    }

    /// For how many seconds a new proposal is open.
    pub fn voting_period_secs(&self) -> (r: u64)
        ensures
            r == self@.voting_period_secs,
    {
        self.voting_period_secs
    }

    /// The approval rate that a new proposal needs.
    pub fn target_approval_rate_bps(&self) -> (r: u32)
        ensures
            r == self@.target_approval_rate_bps,
    {
        self.target_approval_rate_bps
    }

    /// The total weight of a new proposal.
    pub fn total_voters(&self) -> (r: u128)
        ensures
            r == self@.total_voters,
    {
        self.total_voters
    }

    /// Whether voting and reading need the admin's authorization too.
    pub fn admin_mode(&self) -> (r: bool)
        ensures
            r == self@.admin_mode,
    {
        self.admin_mode
    }

    /// The identity that creates and updates proposals.
    pub fn admin(&self) -> (r: Identity)
        ensures
            r == self@.admin,
    {
        self.admin
    }

    /// Whether the program has been set up.
    pub fn is_initialized(&self) -> (r: bool)
        ensures
            r == self@.initialized,
    {
        self.initialized
    }
}

} // verus!
