//! The membership and staking program.

use vstd::prelude::*;
use crate::effect::outcome;
use crate::effect::Effect;
use crate::identity::Identity;
use crate::participant::table_wf;
use crate::participant::whitelisted_stakes;
use crate::participant::Participant;
use crate::participant::ParticipantView;
use crate::participant::Repository;
use crate::voting::ProposalPayload;
use crate::voting_contract::ProposalVotingContract;
use crate::voting_contract::VotingView;

verus! {

/// The failures of the membership program. A failure of the voting program
/// that it calls is handed on inside `Voting`.
#[derive(Clone, Copy, Debug, PartialEq, Eq, Structural, PartialOrd, Ord)]
pub enum Error {
    /// The program is set up once only.
    AlreadyInitialized,
    /// The funds at hand do not cover the amount.
    InsufficientFunds,
    /// The amount is zero or negative.
    InvalidAmount,
    /// The identity is not a participant.
    ParticipantNotFound,
    /// The participant has not been whitelisted by the curator.
    ParticipantNotWhitelisted,
    /// A part of the program's state that set-up writes is missing.
    ExpectedStorageKeyNotFound,
    /// The proposal has not reached its target approval rate.
    ProposalNeedsApproval,
    /// Only the proposer executes a proposal.
    OnlyAuthorCanExecuteProposals,
    /// A proposal is executed once only.
    AlreadyExecuted,
    /// The program has not been set up.
    NotInitialized,
    /// The voting program failed.
    Voting(crate::voting::Error),
}

impl Error {
    /// The number under which the failure is reported to the caller; a
    /// failure of the voting program has the number that program gives it,
    /// and a hundred more.
    pub open spec fn spec_code(self) -> u32 {
        match self {
            Error::AlreadyInitialized => 1,
            Error::InsufficientFunds => 2,
            Error::InvalidAmount => 3,
            Error::ParticipantNotFound => 4,
            Error::ParticipantNotWhitelisted => 5,
            Error::ExpectedStorageKeyNotFound => 6,
            Error::ProposalNeedsApproval => 7,
            Error::OnlyAuthorCanExecuteProposals => 8,
            Error::AlreadyExecuted => 9,
            Error::NotInitialized => 10,
            Error::Voting(e) => (100 + e.spec_code()) as u32,
        }
    }

    /// The number under which the failure is reported to the caller.
    pub fn code(&self) -> (r: u32)
        ensures
            r == self.spec_code(),
    {
        match self {
            Error::AlreadyInitialized => 1,
            Error::InsufficientFunds => 2,
            Error::InvalidAmount => 3,
            Error::ParticipantNotFound => 4,
            Error::ParticipantNotWhitelisted => 5,
            Error::ExpectedStorageKeyNotFound => 6,
            Error::ProposalNeedsApproval => 7,
            Error::OnlyAuthorCanExecuteProposals => 8,
            Error::AlreadyExecuted => 9,
            Error::NotInitialized => 10,
            Error::Voting(e) => 100 + e.code(),
        }
    }
}

/// The ids of the proposals that have been executed, each held once.
#[derive(Debug)]
pub struct ExecutedProposals {
    ids: Vec<u64>,
}

impl View for ExecutedProposals {
    type V = Set<u64>;

    closed spec fn view(&self) -> Set<u64> {
        self.ids@.to_set()
    }
}

impl ExecutedProposals {
    #[verifier::type_invariant]
    spec fn unique(self) -> bool {
        self.ids@.no_duplicates()
    }

    /// No proposal executed yet.
    pub fn new() -> (r: ExecutedProposals)
        ensures
            r@ == Set::<u64>::empty(),
    {
        let r = ExecutedProposals { ids: Vec::new() };
        assert(r@ =~= Set::<u64>::empty());
        r
    }

    /// The set that holds the ids of `list`.
    pub fn restore(list: Vec<u64>) -> (r: ExecutedProposals)
        ensures
            r@ == list@.to_set(),
            r@.finite(),
    {
        let mut set = ExecutedProposals::new();
        let mut i: usize = 0;
        proof {
            assert(list@.take(0).to_set() =~= Set::<u64>::empty());
        }
        while i < list.len()
            invariant
                i <= list.len(),
                set@ == list@.take(i as int).to_set(),
            decreases list.len() - i,
        {
            proof {
                assert(list@.take(i as int + 1) =~= list@.take(i as int).push(list@[i as int]));
                list@.take(i as int).lemma_push_to_set_commute(list@[i as int]);
            }
            set.set(list[i]);
            i += 1;
        }
        proof {
            assert(list@.take(i as int) =~= list@);
            vstd::seq_lib::seq_to_set_is_finite(list@);
        }
        set
    }

    /// Whether the proposal `id` has been executed.
    pub fn contains_key(&self, id: u64) -> (r: bool)
        ensures
            r == self@.contains(id),
            self@.finite(),
    {
        proof {
            vstd::seq_lib::seq_to_set_is_finite(self.ids@);
        }
        let mut i: usize = 0;
        while i < self.ids.len()
            invariant
                i <= self.ids.len(),
                forall|j: int| 0 <= j < i ==> self.ids@[j] != id,
            decreases self.ids.len() - i,
        {
            if self.ids[i] == id {
                return true;
            }
            i += 1;
        }
        false
    }

    /// Marks the proposal `id` as executed.
    pub fn set(&mut self, id: u64)
        ensures
            final(self)@ == old(self)@.insert(id),
            final(self)@.finite(),
    {
        proof {
            use_type_invariant(&*self);
        }
        if !self.contains_key(id) {
            let mut list: Vec<u64> = Vec::new();
            std::mem::swap(&mut list, &mut self.ids);
            proof {
                list@.lemma_push_to_set_commute(id);
            }
            list.push(id);
            self.ids = list;
        } else {
            assert(self@ =~= self@.insert(id));
        }
        proof {
            vstd::seq_lib::seq_to_set_is_finite(self.ids@);
        }
    }

    /// The ids of the executed proposals, each listed once.
    pub fn ids(&self) -> (r: Vec<u64>)
        ensures
            r@.no_duplicates(),
            r@.to_set() == self@,
    {
        proof {
            use_type_invariant(self);
        }
        let mut out: Vec<u64> = Vec::new();
        let mut i: usize = 0;
        while i < self.ids.len()
            invariant
                i <= self.ids.len(),
                out@ == self.ids@.take(i as int),
            decreases self.ids.len() - i,
        {
            out.push(self.ids[i]);
            assert(out@ =~= self.ids@.take(i as int + 1));
            i += 1;
        }
        assert(out@ =~= self.ids@);
        out
    }
}

/// The membership program: who takes part with what stake, who the curator
/// is, which proposals have been executed, and the voting program that it
/// administers. A program that has not been set up refuses every operation.
#[derive(Debug)]
pub struct GovernanceContract {
    initialized: bool,
    address: Identity,
    curator: Identity,
    token: Identity,
    participants: Repository,
    executed: ExecutedProposals,
    voting: ProposalVotingContract,
}

/// The membership program as a mathematical value.
pub struct GovernanceView {
    /// Whether the program has been set up.
    pub initialized: bool,
    /// The program's own identity, which holds the stakes in custody.
    pub address: Identity,
    /// The identity that whitelists participants.
    pub curator: Identity,
    /// The base asset in which stakes are held.
    pub token: Identity,
    /// The participants by identity.
    pub participants: Map<Identity, ParticipantView>,
    /// The ids of the proposals that have been executed.
    pub executed: Set<u64>,
    /// The voting program.
    pub voting: VotingView,
}

/// The state after an operation and what the operation returned.
pub struct Step {
    pub next: GovernanceView,
    pub result: Result<Seq<Effect>, Error>,
}

/// The effects of taking `amount` from `who` into custody.
pub open spec fn staking(who: Identity, amount: i128) -> Seq<Effect> {
    seq![
        Effect::TransferIn { from: who, amount },
        Effect::Staked { participant: who, amount },
    ]
}

/// The effects of handing `amount` back to `who`.
pub open spec fn withdrawing(who: Identity, amount: i128) -> Seq<Effect> {
    seq![
        Effect::TransferOut { to: who, amount },
        Effect::Withdrawn { participant: who, amount },
    ]
}

/// What executing a payload asks of the host.
pub open spec fn applying(payload: ProposalPayload) -> Seq<Effect> {
    match payload {
        ProposalPayload::CodeUpgrade(wasm_hash) => seq![Effect::InstallCode { wasm_hash }],
        _ => Seq::<Effect>::empty(),
    }
}

impl GovernanceView {
    /// Every reachable state is sound: no negative stake, every record under
    /// its own identity, finitely many of everything.
    pub open spec fn wf(self) -> bool {
        &&& table_wf(self.participants)
        &&& self.executed.finite()
        &&& self.voting.wf()
    }

    /// The operation failed and changed nothing.
    pub open spec fn fail(self, e: Error) -> Step {
        Step { next: self, result: Err(e) }
    }

    /// Why `who` may not act as a member, if it may not.
    pub open spec fn member_error(self, who: Identity) -> Option<Error> {
        if !self.initialized {
            Some(Error::NotInitialized)
        } else if !self.participants.dom().contains(who) {
            Some(Error::ParticipantNotFound)
        } else {
            None
        }
    }

    /// Why `who` may not act as a whitelisted member, if it may not.
    pub open spec fn whitelisted_error(self, who: Identity) -> Option<Error> {
        if self.member_error(who) is Some {
            self.member_error(who)
        } else if !self.participants[who].whitelisted {
            Some(Error::ParticipantNotWhitelisted)
        } else {
            None
        }
    }

    /// Setting the program up, with a voting program of its own in admin
    /// mode whose proposals have no bound on their total weight.
    pub open spec fn init(
        self,
        contract: Identity,
        curator: Identity,
        token: Identity,
        voting_period_secs: u64,
        target_approval_rate_bps: u32,
    ) -> Step {
        if self.initialized {
            self.fail(Error::AlreadyInitialized)
        } else {
            let fresh = VotingView { initialized: false, ..self.voting };
            let set_up = fresh.init(
                contract,
                voting_period_secs,
                target_approval_rate_bps,
                u128::MAX,
                true,
            );
            match set_up.result {
                Err(e) => self.fail(Error::Voting(e)),
                Ok(_) => Step {
                    next: GovernanceView {
                        initialized: true,
                        address: contract,
                        curator,
                        token,
                        participants: Map::empty(),
                        executed: Set::empty(),
                        voting: set_up.next,
                    },
                    result: Ok(seq![Effect::VotingInitialized]),
                },
            }
        }
    }

    /// Joining with a first stake of `amount`, of which `available` is at
    /// hand on the ledger.
    pub open spec fn join(self, who: Identity, amount: i128, available: i128) -> Step {
        if !self.initialized {
            self.fail(Error::NotInitialized)
        } else if amount <= 0 {
            self.fail(Error::InvalidAmount)
        } else if available < amount {
            self.fail(Error::InsufficientFunds)
        } else {
            Step {
                next: GovernanceView {
                    participants: self.participants.insert(
                        who,
                        ParticipantView { address: who, whitelisted: false, balance: amount },
                    ),
                    ..self
                },
                result: Ok(
                    seq![Effect::Authorize(who)] + staking(who, amount) + seq![
                        Effect::ParticipantJoined { participant: who },
                    ],
                ),
            }
        }
    }

    /// Whether `stake` can hold the sum: the one demand it makes.
    pub open spec fn stake_fits(self, who: Identity, amount: i128, available: i128) -> bool {
        self.member_error(who) is None && 0 < amount <= available ==> self.participants[who].balance
            + amount <= i128::MAX
    }

    /// Staking `amount` more.
    pub open spec fn stake(self, who: Identity, amount: i128, available: i128) -> Step {
        if self.member_error(who) is Some {
            self.fail(self.member_error(who)->0)
        } else if amount <= 0 {
            self.fail(Error::InvalidAmount)
        } else if available < amount {
            self.fail(Error::InsufficientFunds)
        } else {
            let p = self.participants[who];
            Step {
                next: GovernanceView {
                    participants: self.participants.insert(
                        who,
                        ParticipantView { balance: (p.balance + amount) as i128, ..p },
                    ),
                    ..self
                },
                result: Ok(seq![Effect::Authorize(who)] + staking(who, amount)),
            }
        }
    }

    /// Taking `amount` of the stake back.
    pub open spec fn withdraw(self, who: Identity, amount: i128) -> Step {
        if self.member_error(who) is Some {
            self.fail(self.member_error(who)->0)
        } else if amount <= 0 {
            self.fail(Error::InvalidAmount)
        } else if amount > self.participants[who].balance {
            self.fail(Error::InsufficientFunds)
        } else {
            let p = self.participants[who];
            Step {
                next: GovernanceView {
                    participants: self.participants.insert(
                        who,
                        ParticipantView { balance: (p.balance - amount) as i128, ..p },
                    ),
                    ..self
                },
                result: Ok(seq![Effect::Authorize(who)] + withdrawing(who, amount)),
            }
        }
    }

    /// Leaving: the whole stake goes back and the record goes.
    pub open spec fn leave(self, who: Identity) -> Step {
        if self.member_error(who) is Some {
            self.fail(self.member_error(who)->0)
        } else if self.participants[who].balance <= 0 {
            self.fail(Error::InvalidAmount)
        } else {
            let amount = self.participants[who].balance;
            Step {
                next: GovernanceView { participants: self.participants.remove(who), ..self },
                result: Ok(
                    seq![Effect::Authorize(who)] + withdrawing(who, amount) + seq![
                        Effect::ParticipantLeft { participant: who },
                    ],
                ),
            }
        }
    }

    /// The curator whitelisting `who`.
    pub open spec fn whitelist(self, who: Identity) -> Step {
        if self.member_error(who) is Some {
            self.fail(self.member_error(who)->0)
        } else {
            let p = self.participants[who];
            Step {
                next: GovernanceView {
                    participants: self.participants.insert(
                        who,
                        ParticipantView { whitelisted: true, ..p },
                    ),
                    ..self
                },
                result: Ok(
                    seq![
                        Effect::Authorize(self.curator),
                        Effect::ParticipantWhitelisted { participant: who },
                    ],
                ),
            }
        }
    }

    /// A whitelisted participant creating the proposal `id`.
    pub open spec fn new_proposal(
        self,
        now: u64,
        who: Identity,
        id: u64,
        payload: ProposalPayload,
    ) -> Step {
        if self.whitelisted_error(who) is Some {
            self.fail(self.whitelisted_error(who)->0)
        } else {
            let created = self.voting.create(now, who, id, payload);
            match created.result {
                Err(e) => self.fail(Error::Voting(e)),
                Ok(effects) => Step {
                    next: GovernanceView { voting: created.next, ..self },
                    result: Ok(seq![Effect::Authorize(who)] + effects),
                },
            }
        }
    }

    /// A whitelisted participant voting on the proposal `id`.
    pub open spec fn vote(self, now: u64, who: Identity, id: u64) -> Step {
        if self.whitelisted_error(who) is Some {
            self.fail(self.whitelisted_error(who)->0)
        } else {
            let voted = self.voting.vote(now, who, id);
            match voted.result {
                Err(e) => self.fail(Error::Voting(e)),
                Ok(effects) => Step {
                    next: GovernanceView { voting: voted.next, ..self },
                    result: Ok(seq![Effect::Authorize(who)] + effects),
                },
            }
        }
    }

    /// The curator after a payload has been applied.
    pub open spec fn curator_after(self, payload: ProposalPayload) -> Identity {
        match payload {
            ProposalPayload::NewCurator(c) => c,
            _ => self.curator,
        }
    }

    /// The proposer executing the proposal `id`: the weights are recomputed
    /// from the stakes of the whitelisted participants as they are now, and
    /// only an approved proposal, not executed before, takes effect.
    pub open spec fn execute(self, who: Identity, id: u64) -> Step {
        if self.whitelisted_error(who) is Some {
            self.fail(self.whitelisted_error(who)->0)
        } else if self.executed.contains(id) {
            self.fail(Error::AlreadyExecuted)
        } else {
            match self.voting.find(id) {
                Err(e) => self.fail(Error::Voting(e)),
                Ok(found) => {
                    let stakes = whitelisted_stakes(self.participants);
                    if found.0.proposer != who {
                        self.fail(Error::OnlyAuthorCanExecuteProposals)
                    } else if found.0.recount_result(stakes) is Err {
                        self.fail(Error::Voting(found.0.recount_result(stakes)->Err_0))
                    } else if !found.0.after_recount(stakes).is_approved() {
                        self.fail(Error::ProposalNeedsApproval)
                    } else {
                        let counted = found.0.after_recount(stakes);
                        let updated = self.voting.update(counted);
                        Step {
                            next: GovernanceView {
                                curator: self.curator_after(counted.payload),
                                executed: self.executed.insert(id),
                                voting: updated.next,
                                ..self
                            },
                            result: Ok(
                                seq![Effect::Authorize(who)] + found.1 + applying(counted.payload)
                                    + updated.result->Ok_0 + seq![
                                    Effect::ProposalExecuted { participant: who, id },
                                ],
                            ),
                        }
                    }
                },
            }
        }
    }
}

impl View for GovernanceContract {
    type V = GovernanceView;

    closed spec fn view(&self) -> GovernanceView {
        GovernanceView {
            initialized: self.initialized,
            address: self.address,
            curator: self.curator,
            token: self.token,
            participants: self.participants@,
            executed: self.executed@,
            voting: self.voting@,
        }
    }
}

impl GovernanceContract {
    /// A program that has not been set up.
    pub fn new() -> (r: GovernanceContract)
        ensures
            !r@.initialized,
            r@.wf(),
    {
        let nobody = Identity { program: false, hi: 0, lo: 0 };
        let executed = ExecutedProposals::new();
        executed.contains_key(0);
        GovernanceContract {
            initialized: false,
            address: nobody,
            curator: nobody,
            token: nobody,
            participants: Repository::empty(),
            executed,
            voting: ProposalVotingContract::new(),
        }
    }

    /// The program with the state that was stored.
    pub fn restore(
        initialized: bool,
        address: Identity,
        curator: Identity,
        token: Identity,
        participants: Repository,
        executed: Vec<u64>,
        voting: ProposalVotingContract,
    ) -> (r: GovernanceContract)
        ensures
            r@.wf(),
            r@ == (GovernanceView {
                initialized,
                address,
                curator,
                token,
                participants: participants@,
                executed: executed@.to_set(),
                voting: voting@,
            }),
    {
        let r = GovernanceContract {
            initialized,
            address,
            curator,
            token,
            participants,
            executed: ExecutedProposals::restore(executed),
            voting,
        };
        r.attest();
        r
    }

    fn attest(&self)
        ensures
            self@.wf(),
    {
        self.participants.count();
        self.executed.contains_key(0);
        let _ = self.voting.check_admin_mode();
    }

    /// Sets the program up, once: under the identity `contract`, with its
    /// curator, its base asset, and the parameters of its voting program.
    ///
    /// Fails, changing nothing, with `AlreadyInitialized` on a program that
    /// is set up, and with the failure of the voting program where the
    /// period or the rate is zero.
    pub fn init(
        &mut self,
        contract: Identity,
        curator: Identity,
        token: Identity,
        voting_period_secs: u64,
        target_approval_rate_bps: u32,
    ) -> (r: Result<Vec<Effect>, Error>)
        ensures
            final(self)@ == old(self)@.init(
                contract,
                curator,
                token,
                voting_period_secs,
                target_approval_rate_bps,
            ).next,
            outcome(r) == old(self)@.init(
                contract,
                curator,
                token,
                voting_period_secs,
                target_approval_rate_bps,
            ).result,
            final(self)@.wf(),
    {
        self.attest();
        if self.initialized {
            return Err(Error::AlreadyInitialized);
        }
        let mut voting = ProposalVotingContract::new();
        proof {
            let fresh = VotingView { initialized: false, ..self.voting@ };
            assert(voting@.init(
                contract,
                voting_period_secs,
                target_approval_rate_bps,
                u128::MAX,
                true,
            ).result == fresh.init(
                contract,
                voting_period_secs,
                target_approval_rate_bps,
                u128::MAX,
                true,
            ).result);
        }
        match voting.init(contract, voting_period_secs, target_approval_rate_bps, u128::MAX, true) {
            Err(e) => {
                return Err(Error::Voting(e));
            },
            Ok(_) => {},
        }
        self.initialized = true;
        self.address = contract;
        self.curator = curator;
        self.token = token;
        self.participants = Repository::empty();
        self.executed = ExecutedProposals::new();
        self.voting = voting;
        let mut effects: Vec<Effect> = Vec::new();
        effects.push(Effect::VotingInitialized);
        proof {
            assert(effects@ =~= seq![Effect::VotingInitialized]);
            assert(self.executed@.finite());
        }
        Ok(effects)
    }

    /// What an invocation on behalf of `participant` asks of the host: the
    /// participant's authorization.
    pub fn register(participant: Identity) -> (r: Vec<Effect>)
        ensures
            r@ == seq![Effect::Authorize(participant)],
    {
        let mut effects: Vec<Effect> = Vec::new();
        effects.push(Effect::Authorize(participant));
        assert(effects@ =~= seq![Effect::Authorize(participant)]);
        effects
    }

    /// Fails with `NotInitialized` unless the program has been set up.
    pub fn must_be_initialized(&self) -> (r: Result<(), Error>)
        ensures
            self@.initialized ==> r == Ok::<(), Error>(()),
            !self@.initialized ==> r == Err::<(), Error>(Error::NotInitialized),
    {
        if self.initialized {
            Ok(())
        } else {
            Err(Error::NotInitialized)
        }
    }

    /// Takes `amount` from the participant into custody and adds it to the
    /// stake; `available` is what the participant holds on the ledger.
    ///
    /// Fails, changing nothing, with `InvalidAmount` unless `amount` is
    /// positive, and with `InsufficientFunds` where `available` is less.
    pub fn stake_funds(participant: &mut Participant, amount: i128, available: i128) -> (r: Result<
        Vec<Effect>,
        Error,
    >)
        requires
            0 < amount <= available ==> old(participant)@.balance + amount <= i128::MAX,
        ensures
            amount <= 0 ==> r is Err && r->Err_0 == Error::InvalidAmount,
            amount > 0 && available < amount ==> r is Err && r->Err_0 == Error::InsufficientFunds,
            r is Err ==> final(participant)@ == old(participant)@,
            0 < amount <= available ==> r is Ok && r->Ok_0@ == staking(
                old(participant)@.address,
                amount,
            ) && final(participant)@ == (ParticipantView {
                balance: (old(participant)@.balance + amount) as i128,
                ..old(participant)@
            }),
    {
        if amount <= 0 {
            return Err(Error::InvalidAmount);
        }
        if available < amount {
            return Err(Error::InsufficientFunds);
        }
        let who = *participant.address();
        match participant.increase_balance(amount) {
            Err(e) => {
                return Err(e);
            },
            Ok(_) => {},
        }
        let mut effects: Vec<Effect> = Vec::new();
        effects.push(Effect::TransferIn { from: who, amount });
        effects.push(Effect::Staked { participant: who, amount });
        assert(effects@ =~= staking(who, amount));
        Ok(effects)
    }

    /// Takes `amount` off the stake and hands it back to the participant.
    ///
    /// Fails, changing nothing, with `InvalidAmount` unless `amount` is
    /// positive, and with `InsufficientFunds` where the stake is less.
    pub fn withdraw_funds(participant: &mut Participant, amount: i128) -> (r: Result<
        Vec<Effect>,
        Error,
    >)
        ensures
            amount <= 0 ==> r is Err && r->Err_0 == Error::InvalidAmount,
            amount > 0 && amount > old(participant)@.balance ==> r is Err && r->Err_0
                == Error::InsufficientFunds,
            r is Err ==> final(participant)@ == old(participant)@,
            0 < amount <= old(participant)@.balance ==> r is Ok && r->Ok_0@ == withdrawing(
                old(participant)@.address,
                amount,
            ) && final(participant)@ == (ParticipantView {
                balance: (old(participant)@.balance - amount) as i128,
                ..old(participant)@
            }),
    {
        let who = *participant.address();
        match participant.decrease_balance(amount) {
            Err(e) => {
                return Err(e);
            },
            Ok(_) => {},
        }
        let mut effects: Vec<Effect> = Vec::new();
        effects.push(Effect::TransferOut { to: who, amount });
        effects.push(Effect::Withdrawn { participant: who, amount });
        assert(effects@ =~= withdrawing(who, amount));
        Ok(effects)
    }

    /// `participant` joins with a first stake of `amount`; `available` is
    /// what it holds on the ledger. It starts out not whitelisted, also where
    /// it took part before.
    ///
    /// Fails, changing nothing: with `NotInitialized`; with `InvalidAmount`
    /// unless `amount` is positive; with `InsufficientFunds` where
    /// `available` is less than `amount`.
    pub fn join(&mut self, participant: Identity, amount: i128, available: i128) -> (r: Result<
        Vec<Effect>,
        Error,
    >)
        ensures
            final(self)@ == old(self)@.join(participant, amount, available).next,
            outcome(r) == old(self)@.join(participant, amount, available).result,
            final(self)@.wf(),
    {
        self.attest();
        if !self.initialized {
            return Err(Error::NotInitialized);
        }
        let mut record = Participant::new(participant);
        let mut staked = match Self::stake_funds(&mut record, amount, available) {
            Err(e) => {
                return Err(e);
            },
            Ok(effects) => effects,
        };
        self.participants.save(record);
        let mut effects: Vec<Effect> = Vec::new();
        effects.push(Effect::Authorize(participant));
        effects.append(&mut staked);
        effects.push(Effect::ParticipantJoined { participant });
        assert(effects@ =~= seq![Effect::Authorize(participant)] + staking(participant, amount)
            + seq![Effect::ParticipantJoined { participant }]);
        Ok(effects)
    }

    /// `participant` stakes `amount` more; `available` is what it holds on
    /// the ledger.
    ///
    /// Fails, changing nothing: with `NotInitialized`; with
    /// `ParticipantNotFound`; with `InvalidAmount` unless `amount` is
    /// positive; with `InsufficientFunds` where `available` is less.
    pub fn stake(&mut self, participant: Identity, amount: i128, available: i128) -> (r: Result<
        Vec<Effect>,
        Error,
    >)
        requires
            old(self)@.stake_fits(participant, amount, available),
        ensures
            final(self)@ == old(self)@.stake(participant, amount, available).next,
            outcome(r) == old(self)@.stake(participant, amount, available).result,
            final(self)@.wf(),
    {
        self.attest();
        if !self.initialized {
            return Err(Error::NotInitialized);
        }
        let mut record = match self.participants.find(participant) {
            Err(e) => {
                return Err(e);
            },
            Ok(p) => p,
        };
        let mut staked = match Self::stake_funds(&mut record, amount, available) {
            Err(e) => {
                return Err(e);
            },
            Ok(effects) => effects,
        };
        self.participants.save(record);
        let mut effects: Vec<Effect> = Vec::new();
        effects.push(Effect::Authorize(participant));
        effects.append(&mut staked);
        Ok(effects)
    }

    /// `participant` leaves: its whole stake goes back to it and its record
    /// goes, whitelisting included.
    ///
    /// Fails, changing nothing: with `NotInitialized`; with
    /// `ParticipantNotFound`; with `InvalidAmount` where nothing is staked.
    pub fn leave(&mut self, participant: Identity) -> (r: Result<Vec<Effect>, Error>)
        ensures
            final(self)@ == old(self)@.leave(participant).next,
            outcome(r) == old(self)@.leave(participant).result,
            final(self)@.wf(),
    {
        self.attest();
        if !self.initialized {
            return Err(Error::NotInitialized);
        }
        let mut record = match self.participants.find(participant) {
            Err(e) => {
                return Err(e);
            },
            Ok(p) => p,
        };
        let amount = record.balance();
        let mut withdrawn = match Self::withdraw_funds(&mut record, amount) {
            Err(e) => {
                return Err(e);
            },
            Ok(effects) => effects,
        };
        match self.participants.remove(participant) {
            Err(e) => {
                return Err(e);
            },
            Ok(_) => {},
        }
        let mut effects: Vec<Effect> = Vec::new();
        effects.push(Effect::Authorize(participant));
        effects.append(&mut withdrawn);
        effects.push(Effect::ParticipantLeft { participant });
        assert(effects@ =~= seq![Effect::Authorize(participant)] + withdrawing(participant, amount)
            + seq![Effect::ParticipantLeft { participant }]);
        Ok(effects)
    }

    /// `participant` takes `amount` of its stake back.
    ///
    /// Fails, changing nothing: with `NotInitialized`; with
    /// `ParticipantNotFound`; with `InvalidAmount` unless `amount` is
    /// positive; with `InsufficientFunds` where the stake is less.
    pub fn withdraw(&mut self, participant: Identity, amount: i128) -> (r: Result<
        Vec<Effect>,
        Error,
    >)
        ensures
            final(self)@ == old(self)@.withdraw(participant, amount).next,
            outcome(r) == old(self)@.withdraw(participant, amount).result,
            final(self)@.wf(),
    {
        self.attest();
        if !self.initialized {
            return Err(Error::NotInitialized);
        }
        let mut record = match self.participants.find(participant) {
            Err(e) => {
                return Err(e);
            },
            Ok(p) => p,
        };
        let mut withdrawn = match Self::withdraw_funds(&mut record, amount) {
            Err(e) => {
                return Err(e);
            },
            Ok(effects) => effects,
        };
        self.participants.save(record);
        let mut effects: Vec<Effect> = Vec::new();
        effects.push(Effect::Authorize(participant));
        effects.append(&mut withdrawn);
        Ok(effects)
    }

    /// The curator whitelists `participant`; whitelisting twice is
    /// whitelisting once. The curator must have authorized it.
    ///
    /// Fails, changing nothing, with `NotInitialized` and with
    /// `ParticipantNotFound`.
    pub fn whitelist(&mut self, participant: Identity) -> (r: Result<Vec<Effect>, Error>)
        ensures
            final(self)@ == old(self)@.whitelist(participant).next,
            outcome(r) == old(self)@.whitelist(participant).result,
            final(self)@.wf(),
    {
        self.attest();
        if !self.initialized {
            return Err(Error::NotInitialized);
        }
        let mut record = match self.participants.find(participant) {
            Err(e) => {
                return Err(e);
            },
            Ok(p) => p,
        };
        record.whitelist();
        self.participants.save(record);
        let mut effects: Vec<Effect> = Vec::new();
        effects.push(Effect::Authorize(self.curator));
        effects.push(Effect::ParticipantWhitelisted { participant });
        assert(effects@ =~= seq![
            Effect::Authorize(self.curator),
            Effect::ParticipantWhitelisted { participant },
        ]);
        Ok(effects)
    }

    fn whitelisted_member(&self, participant: Identity) -> (r: Result<(), Error>)
        ensures
            self@.wf(),
            match (r, self@.whitelisted_error(participant)) {
                (Ok(_), None) => true,
                (Err(e), Some(expected)) => e == expected,
                _ => false,
            },
    {
        self.attest();
        if !self.initialized {
            return Err(Error::NotInitialized);
        }
        let record = match self.participants.find(participant) {
            Err(e) => {
                return Err(e);
            },
            Ok(p) => p,
        };
        if !record.is_whitelisted() {
            return Err(Error::ParticipantNotWhitelisted);
        }
        Ok(())
    }

    /// The whitelisted `participant` creates the proposal `id` at time `now`,
    /// with the parameters of the voting program.
    ///
    /// Fails, changing nothing: with `NotInitialized`; with
    /// `ParticipantNotFound`; with `ParticipantNotWhitelisted`, before the
    /// voting program is asked; and with the failure of the voting program.
    pub fn new_proposal(
        &mut self,
        now: u64,
        participant: Identity,
        id: u64,
        payload: ProposalPayload,
    ) -> (r: Result<Vec<Effect>, Error>)
        ensures
            final(self)@ == old(self)@.new_proposal(now, participant, id, payload).next,
            outcome(r) == old(self)@.new_proposal(now, participant, id, payload).result,
            final(self)@.wf(),
    {
        match self.whitelisted_member(participant) {
            Err(e) => {
                return Err(e);
            },
            Ok(_) => {},
        }
        let mut created = match self.voting.create_proposal(now, participant, id, payload) {
            Err(e) => {
                return Err(Error::Voting(e));
            },
            Ok(effects) => effects,
        };
        let mut effects: Vec<Effect> = Vec::new();
        effects.push(Effect::Authorize(participant));
        effects.append(&mut created);
        Ok(effects)
    }

    /// The whitelisted `participant` votes on the proposal `id` at time
    /// `now`.
    ///
    /// Fails, changing nothing: with `NotInitialized`; with
    /// `ParticipantNotFound`; with `ParticipantNotWhitelisted`; and with the
    /// failure of the voting program, `AlreadyVoted` among them.
    pub fn vote(&mut self, now: u64, participant: Identity, id: u64) -> (r: Result<
        Vec<Effect>,
        Error,
    >)
        ensures
            final(self)@ == old(self)@.vote(now, participant, id).next,
            outcome(r) == old(self)@.vote(now, participant, id).result,
            final(self)@.wf(),
    {
        match self.whitelisted_member(participant) {
            Err(e) => {
                return Err(e);
            },
            Ok(_) => {},
        }
        let mut voted = match self.voting.vote(now, participant, id) {
            Err(e) => {
                return Err(Error::Voting(e));
            },
            Ok(effects) => effects,
        };
        let mut effects: Vec<Effect> = Vec::new();
        effects.push(Effect::Authorize(participant));
        effects.append(&mut voted);
        Ok(effects)
    }

    /// The whitelisted `participant` executes the proposal `id`, which it
    /// created. The weights are recomputed from the stakes that the
    /// whitelisted participants hold now; where the proposal is approved its
    /// payload takes effect, its id is marked as executed, and the recounted
    /// proposal is written back to the voting program.
    ///
    /// Fails, changing nothing: with `NotInitialized`; with
    /// `ParticipantNotFound`; with `ParticipantNotWhitelisted`; with
    /// `AlreadyExecuted` where the id is marked; with the failure of the
    /// voting program where the proposal is not found or cannot be
    /// recounted; with `OnlyAuthorCanExecuteProposals` where another created
    /// it; with `ProposalNeedsApproval` where the rate is under the target.
    pub fn execute_proposal(&mut self, participant: Identity, id: u64) -> (r: Result<
        Vec<Effect>,
        Error,
    >)
        ensures
            final(self)@ == old(self)@.execute(participant, id).next,
            outcome(r) == old(self)@.execute(participant, id).result,
            final(self)@.wf(),
    {
        match self.whitelisted_member(participant) {
            Err(e) => {
                return Err(e);
            },
            Ok(_) => {},
        }
        if self.is_proposal_executed(id) {
            return Err(Error::AlreadyExecuted);
        }
        let (mut proposal, mut read) = match self.voting.find_proposal(id) {
            Err(e) => {
                return Err(Error::Voting(e));
            },
            Ok(found) => found,
        };
        if proposal.proposer != participant {
            return Err(Error::OnlyAuthorCanExecuteProposals);
        }
        let whitelisted_balance = self.participants.whitelisted_balance();
        match proposal.set_participation_from_balance(&whitelisted_balance) {
            Err(e) => {
                return Err(Error::Voting(e));
            },
            Ok(_) => {},
        }
        if !proposal.is_approved() {
            return Err(Error::ProposalNeedsApproval);
        }
        let ghost counted = proposal@;
        let mut effects: Vec<Effect> = Vec::new();
        effects.push(Effect::Authorize(participant));
        effects.append(&mut read);
        match proposal.payload {
            ProposalPayload::Comment(_) => {},
            ProposalPayload::CodeUpgrade(wasm_hash) => {
                effects.push(Effect::InstallCode { wasm_hash });
            },
            ProposalPayload::NewCurator(address) => {
                self.curator = address;
            },
        }
        proof {
            assert(effects@ =~= seq![Effect::Authorize(participant)] + old(self)@.voting.find(
                id,
            )->Ok_0.1 + applying(counted.payload));
        }
        self.mark_proposal_as_executed(id);
        let mut written = match self.voting.update_proposal(proposal) {
            Err(e) => {
                proof {
                    assert(false);
                }
                return Err(Error::Voting(e));
            },
            Ok(effects) => effects,
        };
        effects.append(&mut written);
        effects.push(Effect::ProposalExecuted { participant, id });
        proof {
            let found = old(self)@.voting.find(id)->Ok_0;
            let updated = old(self)@.voting.update(counted);
            assert(effects@ =~= seq![Effect::Authorize(participant)] + found.1 + applying(
                counted.payload,
            ) + updated.result->Ok_0 + seq![Effect::ProposalExecuted { participant, id }]);
        }
        Ok(effects)
    }

    /// Whether the proposal `id` has been executed.
    pub fn is_proposal_executed(&self, id: u64) -> (r: bool)
        ensures
            r == self@.executed.contains(id),
    {
        self.executed.contains_key(id)
    }

    fn mark_proposal_as_executed(&mut self, id: u64)
        ensures
            final(self)@ == (GovernanceView {
                executed: old(self)@.executed.insert(id),
                ..old(self)@
            }),
            final(self)@.executed.finite(),
    {
        self.executed.set(id);
    }

    /// The ids of the proposals that have been executed, each listed once.
    pub fn executed_proposal_storage(&self) -> (r: Vec<u64>)
        ensures
            r@.no_duplicates(),
            r@.to_set() == self@.executed,
    {
        self.executed.ids()
    }

    /// Whether the program has been set up.
    pub fn is_initialized(&self) -> (r: bool)
        ensures
            r == self@.initialized,
    {
        self.initialized
    }

    /// The identity that whitelists participants.
    pub fn curator(&self) -> (r: Identity)
        ensures
            r == self@.curator,
    {
        self.curator
    }

    /// The base asset in which stakes are held.
    pub fn token(&self) -> (r: Identity)
        ensures
            r == self@.token,
    {
        self.token
    }

    /// The program's own identity.
    pub fn address(&self) -> (r: Identity)
        ensures
            r == self@.address,
    {
        self.address
    }

    /// The table of participants.
    pub fn participants(&self) -> (r: &Repository)
        ensures
            r@ == self@.participants,
    {
        &self.participants
    }

    /// The voting program.
    pub fn voting(&self) -> (r: &ProposalVotingContract)
        ensures
            r@ == self@.voting,
    {
        &self.voting
    }
}

} // verus!
