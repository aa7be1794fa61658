use nebula::effect::Effect;
use nebula::governance::Error;
use nebula::governance::GovernanceContract;
use nebula::identity::Identity;
use nebula::laws::dispatch;
use nebula::laws::Call;
use nebula::voting::Error as VotingError;
use nebula::voting::ProposalPayload;
use std::collections::HashMap;

/// A stand-in for the asset service: it holds balances and carries out the
/// transfers that the program asks for.
struct Ledger {
    balances: HashMap<Identity, i128>,
}

impl Ledger {
    fn balance(&self, who: Identity) -> i128 {
        *self.balances.get(&who).unwrap_or(&0)
    }

    fn mint(&mut self, who: Identity, amount: i128) {
        *self.balances.entry(who).or_insert(0) += amount;
    }

    fn carry_out(&mut self, program: Identity, effects: &[Effect]) {
        for e in effects {
            match *e {
                Effect::TransferIn { from, amount } => {
                    assert!(self.balance(from) >= amount);
                    *self.balances.entry(from).or_insert(0) -= amount;
                    *self.balances.entry(program).or_insert(0) += amount;
                }
                Effect::TransferOut { to, amount } => {
                    assert!(self.balance(program) >= amount);
                    *self.balances.entry(program).or_insert(0) -= amount;
                    *self.balances.entry(to).or_insert(0) += amount;
                }
                _ => {}
            }
        }
    }
}

struct Scenario {
    contract: GovernanceContract,
    contract_id: Identity,
    curator: Identity,
    token: Identity,
    ledger: Ledger,
    now: u64,
}

impl Scenario {
    fn join(&mut self, who: Identity, amount: i128) -> Result<Vec<Effect>, Error> {
        let available = self.ledger.balance(who);
        let effects = self.contract.join(who, amount, available)?;
        self.ledger.carry_out(self.contract_id, &effects);
        Ok(effects)
    }

    fn stake(&mut self, who: Identity, amount: i128) -> Result<Vec<Effect>, Error> {
        let available = self.ledger.balance(who);
        let effects = self.contract.stake(who, amount, available)?;
        self.ledger.carry_out(self.contract_id, &effects);
        Ok(effects)
    }

    fn withdraw(&mut self, who: Identity, amount: i128) -> Result<Vec<Effect>, Error> {
        let effects = self.contract.withdraw(who, amount)?;
        self.ledger.carry_out(self.contract_id, &effects);
        Ok(effects)
    }

    fn leave(&mut self, who: Identity) -> Result<Vec<Effect>, Error> {
        let effects = self.contract.leave(who)?;
        self.ledger.carry_out(self.contract_id, &effects);
        Ok(effects)
    }
}

fn someone(n: u128) -> Identity {
    Identity::account(0, n)
}

fn setup_scenario() -> Scenario {
    let contract_id = Identity::program(0, 1000);
    let token = Identity::program(0, 2000);
    let curator = someone(1);
    let mut contract = GovernanceContract::new();
    let effects = contract
        .init(contract_id, curator, token, 864000, 5000)
        .unwrap();
    assert_eq!(vec![Effect::VotingInitialized], effects);
    Scenario {
        contract,
        contract_id,
        curator,
        token,
        ledger: Ledger {
            balances: HashMap::new(),
        },
        now: 0,
    }
}

#[test]
fn cannot_be_initialized_twice() {
    let mut sc = setup_scenario();
    let r = sc
        .contract
        .init(sc.contract_id, someone(77), sc.token, 864000, 5000);
    assert_eq!(Err(Error::AlreadyInitialized), r);
    assert_eq!(1, r.unwrap_err().code());
    assert_eq!(sc.curator, sc.contract.curator());
}

#[test]
fn init_sets_the_voting_program_up() {
    let sc = setup_scenario();
    assert!(sc.contract.is_initialized());
    assert_eq!(sc.contract_id, sc.contract.address());
    assert_eq!(sc.token, sc.contract.token());
    assert!(sc.contract.voting().is_initialized());
    assert_eq!(sc.contract_id, sc.contract.voting().admin());
    assert_eq!(0, sc.contract.participants().count());
}

#[test]
fn init_hands_the_voting_failure_on() {
    let mut contract = GovernanceContract::new();
    let r = contract.init(Identity::program(0, 1), someone(1), Identity::program(0, 2), 0, 5000);
    assert_eq!(Err(Error::Voting(VotingError::InvalidVotingPeriod)), r);
    assert!(!contract.is_initialized());
    let r = contract.init(Identity::program(0, 1), someone(1), Identity::program(0, 2), 10, 0);
    assert_eq!(
        Err(Error::Voting(VotingError::InvalidTargetApprovalRate)),
        r
    );
    assert!(!contract.is_initialized());
}

#[test]
fn nothing_works_before_set_up() {
    let mut contract = GovernanceContract::new();
    let a = someone(5);
    assert_eq!(Err(Error::NotInitialized), contract.must_be_initialized());
    assert_eq!(Err(Error::NotInitialized), contract.join(a, 10, 10));
    assert_eq!(Err(Error::NotInitialized), contract.stake(a, 10, 10));
    assert_eq!(Err(Error::NotInitialized), contract.withdraw(a, 10));
    assert_eq!(Err(Error::NotInitialized), contract.leave(a));
    assert_eq!(Err(Error::NotInitialized), contract.whitelist(a));
    assert_eq!(
        Err(Error::NotInitialized),
        contract.new_proposal(0, a, 1, ProposalPayload::Comment([0; 32]))
    );
    assert_eq!(Err(Error::NotInitialized), contract.vote(0, a, 1));
    assert_eq!(Err(Error::NotInitialized), contract.execute_proposal(a, 1));
    assert_eq!(10, Error::NotInitialized.code());
}

#[test]
fn participant_can_join() {
    let mut sc = setup_scenario();

    let participant_addr = someone(10);
    // Add funds to client address (as participant)
    sc.ledger.mint(participant_addr, 1000);

    // Join the participant (in this case same as client)
    let initial_stake = 200;
    let effects = sc.join(participant_addr, initial_stake).unwrap();

    // Ensure we check participant is who says.
    assert_eq!(Effect::Authorize(participant_addr), effects[0]);

    // After joining, the contract should have received participant funds.
    // The participant should have less funds.
    assert_eq!(200, sc.ledger.balance(sc.contract_id));
    assert_eq!(800, sc.ledger.balance(participant_addr));

    // A proper joining event should be published and a stake one.
    let last_events = &effects[effects.len() - 2..];
    assert_eq!(
        last_events,
        &[
            Effect::Staked {
                participant: participant_addr,
                amount: 200
            },
            Effect::ParticipantJoined {
                participant: participant_addr
            },
        ]
    );
    assert_eq!(
        effects,
        vec![
            Effect::Authorize(participant_addr),
            Effect::TransferIn {
                from: participant_addr,
                amount: 200
            },
            Effect::Staked {
                participant: participant_addr,
                amount: 200
            },
            Effect::ParticipantJoined {
                participant: participant_addr
            },
        ]
    );
    let record = sc.contract.participants().find(participant_addr).unwrap();
    assert_eq!(200, record.balance());
    assert!(!record.is_whitelisted());
}

#[test]
fn participant_cant_join_without_enough_funds() {
    let mut sc = setup_scenario();

    let participant_addr = someone(10);
    sc.ledger.mint(participant_addr, 199);

    let r = sc.join(participant_addr, 200);
    assert_eq!(Err(Error::InsufficientFunds), r);
    assert_eq!(2, r.unwrap_err().code());
    assert_eq!(0, sc.contract.participants().count());
}

#[test]
fn participant_cant_join_with_negative_stake() {
    let mut sc = setup_scenario();

    let participant_addr = someone(10);
    sc.ledger.mint(participant_addr, 199);

    let r = sc.join(participant_addr, -1);
    assert_eq!(Err(Error::InvalidAmount), r);
    assert_eq!(3, r.unwrap_err().code());
}

#[test]
fn participant_cant_join_with_zero_stake() {
    let mut sc = setup_scenario();

    let participant_addr = someone(10);
    sc.ledger.mint(participant_addr, 199);

    let r = sc.join(participant_addr, 0);
    assert_eq!(Err(Error::InvalidAmount), r);
    assert_eq!(3, r.unwrap_err().code());
}

#[test]
fn participant_can_leave_withdrawing_all_funds() {
    let mut sc = setup_scenario();

    let participant_addr = someone(10);
    // Add funds to client address (as participant)
    sc.ledger.mint(participant_addr, 1000);

    // Join the participant (in this case same as client)
    let initial_stake = 200;
    sc.join(participant_addr, initial_stake).unwrap();

    let effects = sc.leave(participant_addr).unwrap();

    // Ensure we check participant is who says.
    assert_eq!(Effect::Authorize(participant_addr), effects[0]);

    // After withdrawing, all balances return to initial status.
    assert_eq!(0, sc.ledger.balance(sc.contract_id));
    assert_eq!(1000, sc.ledger.balance(participant_addr));

    // A proper withdrawal and participant left events should be published.
    let last_events = &effects[effects.len() - 2..];
    assert_eq!(
        last_events,
        &[
            Effect::Withdrawn {
                participant: participant_addr,
                amount: 200
            },
            Effect::ParticipantLeft {
                participant: participant_addr
            },
        ]
    );
    assert_eq!(
        Error::ParticipantNotFound,
        sc.contract
            .participants()
            .find(participant_addr)
            .unwrap_err()
    );
}

#[test]
fn participant_can_withdraw_partial_funds() {
    let mut sc = setup_scenario();

    let participant_addr = someone(10);
    // Add funds to client address (as participant)
    sc.ledger.mint(participant_addr, 1000);

    sc.join(participant_addr, 200).unwrap();

    let effects = sc.withdraw(participant_addr, 100).unwrap();

    // Ensure we check participant is who says.
    assert_eq!(Effect::Authorize(participant_addr), effects[0]);

    assert_eq!(100, sc.ledger.balance(sc.contract_id));
    assert_eq!(900, sc.ledger.balance(participant_addr));

    // A proper withdrawal event should be published.
    assert_eq!(
        Effect::Withdrawn {
            participant: participant_addr,
            amount: 100
        },
        *effects.last().unwrap()
    );
    assert_eq!(
        100,
        sc.contract
            .participants()
            .find(participant_addr)
            .unwrap()
            .balance()
    );
}

#[test]
fn participant_cannot_withdraw_more_partial_funds_than_it_has() {
    let mut sc = setup_scenario();

    let participant_addr = someone(10);
    // Add funds to client address (as participant)
    sc.ledger.mint(participant_addr, 1000);

    sc.join(participant_addr, 200).unwrap();

    let r = sc.withdraw(participant_addr, 201);
    assert_eq!(Err(Error::InsufficientFunds), r);
    assert_eq!(2, r.unwrap_err().code());
}

#[test]
fn withdrawing_too_much_leaves_the_stake_as_it_was() {
    let mut sc = setup_scenario();
    let a = someone(10);
    sc.ledger.mint(a, 200);
    sc.join(a, 200).unwrap();

    assert_eq!(Err(Error::InsufficientFunds), sc.withdraw(a, 250));
    assert_eq!(200, sc.contract.participants().find(a).unwrap().balance());
    assert_eq!(200, sc.ledger.balance(sc.contract_id));
    assert_eq!(Err(Error::InvalidAmount), sc.withdraw(a, 0));
    assert_eq!(Err(Error::InvalidAmount), sc.withdraw(a, -5));
}

#[test]
fn participant_can_deposit_extra_funds() {
    let mut sc = setup_scenario();

    let participant_addr = someone(10);
    // Add funds to client address (as participant)
    sc.ledger.mint(participant_addr, 1000);

    sc.join(participant_addr, 200).unwrap();

    let effects = sc.stake(participant_addr, 100).unwrap();

    // Ensure we check participant is who says.
    assert_eq!(Effect::Authorize(participant_addr), effects[0]);

    assert_eq!(300, sc.ledger.balance(sc.contract_id));
    assert_eq!(700, sc.ledger.balance(participant_addr));

    // A proper stake event should be published.
    assert_eq!(
        Effect::Staked {
            participant: participant_addr,
            amount: 100
        },
        *effects.last().unwrap()
    );
    assert_eq!(
        300,
        sc.contract
            .participants()
            .find(participant_addr)
            .unwrap()
            .balance()
    );
}

#[test]
fn stake_checks_amount_and_funds() {
    let mut sc = setup_scenario();
    let a = someone(10);
    sc.ledger.mint(a, 300);
    sc.join(a, 200).unwrap();
    assert_eq!(Err(Error::InvalidAmount), sc.stake(a, 0));
    assert_eq!(Err(Error::InvalidAmount), sc.stake(a, -1));
    assert_eq!(Err(Error::InsufficientFunds), sc.stake(a, 101));
    assert_eq!(200, sc.contract.participants().find(a).unwrap().balance());
}

#[test]
fn non_existent_participant_cannot_stake() {
    let mut sc = setup_scenario();

    let r = sc.withdraw(someone(10), 1);
    assert_eq!(Err(Error::ParticipantNotFound), r);
    assert_eq!(4, r.unwrap_err().code());
    assert_eq!(Err(Error::ParticipantNotFound), sc.stake(someone(10), 1));
}

#[test]
fn non_existent_participant_cannot_leave() {
    let mut sc = setup_scenario();

    let r = sc.leave(someone(10));
    assert_eq!(Err(Error::ParticipantNotFound), r);
    assert_eq!(4, r.unwrap_err().code());
}

#[test]
fn non_existent_participant_cannot_withdraw() {
    let mut sc = setup_scenario();

    let r = sc.leave(someone(10));
    assert_eq!(Err(Error::ParticipantNotFound), r);
    assert_eq!(4, r.unwrap_err().code());
}

#[test]
fn curator_can_whitelist_participant() {
    let mut sc = setup_scenario();

    let participant = someone(10);
    sc.ledger.mint(participant, 1000);

    sc.join(participant, 200).unwrap();
    let effects = sc.contract.whitelist(participant).unwrap();

    assert_eq!(Effect::Authorize(sc.curator), effects[0]);

    assert_eq!(
        Effect::ParticipantWhitelisted { participant },
        *effects.last().unwrap()
    );
    assert!(sc
        .contract
        .participants()
        .find(participant)
        .unwrap()
        .is_whitelisted());

    // Whitelisting twice is whitelisting once.
    sc.contract.whitelist(participant).unwrap();
    let record = sc.contract.participants().find(participant).unwrap();
    assert!(record.is_whitelisted());
    assert_eq!(200, record.balance());
}

#[test]
fn curator_cannot_whitelist_a_stranger() {
    let mut sc = setup_scenario();
    assert_eq!(
        Err(Error::ParticipantNotFound),
        sc.contract.whitelist(someone(10))
    );
}

#[test]
fn not_existent_participant_cannot_create_proposals() {
    let mut sc = setup_scenario();

    let participant = someone(10);
    let hash = [3u8; 32];

    let r = sc
        .contract
        .new_proposal(sc.now, participant, 1, ProposalPayload::CodeUpgrade(hash));
    assert_eq!(Err(Error::ParticipantNotFound), r);
    assert_eq!(4, r.unwrap_err().code());
}

#[test]
fn non_whitelisted_participant_cannot_create_proposals() {
    let mut sc = setup_scenario();

    let participant = someone(10);
    sc.ledger.mint(participant, 1000);

    sc.join(participant, 200).unwrap();
    let hash = [3u8; 32];
    let r = sc
        .contract
        .new_proposal(sc.now, participant, 1, ProposalPayload::CodeUpgrade(hash));
    assert_eq!(Err(Error::ParticipantNotWhitelisted), r);
    assert_eq!(5, r.unwrap_err().code());
    // The voting program was not reached: it holds no proposal.
    assert_eq!(
        VotingError::NotFound,
        sc.contract.voting().find_proposal(1).unwrap_err()
    );
}

#[test]
fn whitelisted_participant_can_create_proposals() {
    let mut sc = setup_scenario();

    let participant = someone(10);
    sc.ledger.mint(participant, 1000);

    sc.join(participant, 200).unwrap();
    sc.contract.whitelist(participant).unwrap();

    let new_contract_hash = [3u8; 32];
    let effects = sc
        .contract
        .new_proposal(
            sc.now,
            participant,
            1,
            ProposalPayload::CodeUpgrade(new_contract_hash),
        )
        .unwrap();

    assert_eq!(Effect::Authorize(participant), effects[0]);
    assert_eq!(
        effects,
        vec![
            Effect::Authorize(participant),
            Effect::Authorize(participant),
            Effect::Authorize(sc.contract_id),
            Effect::ProposalCreated {
                id: 1,
                payload: ProposalPayload::CodeUpgrade(new_contract_hash),
                proposer: participant
            },
        ]
    );
    let (proposal, _) = sc.contract.voting().find_proposal(1).unwrap();
    assert_eq!(1, proposal.id);
    assert_eq!(participant, proposal.proposer);
    assert_eq!(864000, proposal.voting_end_time);
    assert_eq!(5000, proposal.target_approval_rate_bps);
    assert_eq!(u128::MAX, proposal.total_participation);
    assert_eq!(0, proposal.participation);
}

#[test]
fn proposals_need_a_fresh_id_that_is_not_zero() {
    let mut sc = setup_scenario();
    let a = someone(10);
    sc.ledger.mint(a, 1000);
    sc.join(a, 200).unwrap();
    sc.contract.whitelist(a).unwrap();
    let payload = ProposalPayload::Comment([1; 32]);
    assert_eq!(
        Err(Error::Voting(VotingError::NotValidID)),
        sc.contract.new_proposal(sc.now, a, 0, payload)
    );
    sc.contract.new_proposal(sc.now, a, 1, payload).unwrap();
    let r = sc.contract.new_proposal(sc.now, a, 1, payload);
    assert_eq!(Err(Error::Voting(VotingError::DuplicatedEntity)), r);
    assert_eq!(106, r.unwrap_err().code());
    assert_eq!(
        Err(Error::Voting(VotingError::Overflow)),
        sc.contract.new_proposal(u64::MAX, a, 2, payload)
    );
}

#[test]
fn whitelisted_participant_can_vote_proposals() {
    let mut sc = setup_scenario();

    let participant = someone(10);
    sc.ledger.mint(participant, 1000);

    sc.join(participant, 200).unwrap();
    sc.contract.whitelist(participant).unwrap();

    let new_contract_hash = [3u8; 32];
    sc.contract
        .new_proposal(
            sc.now,
            participant,
            1,
            ProposalPayload::CodeUpgrade(new_contract_hash),
        )
        .unwrap();

    let effects = sc.contract.vote(sc.now, participant, 1).unwrap();

    assert_eq!(Effect::Authorize(participant), effects[0]);
    assert_eq!(
        effects,
        vec![
            Effect::Authorize(participant),
            Effect::Authorize(participant),
            Effect::Authorize(sc.contract_id),
            Effect::ProposalVoted {
                id: 1,
                voter: participant,
                approval_rate_bps: Ok(0)
            },
        ]
    );
    let (proposal, _) = sc.contract.voting().find_proposal(1).unwrap();
    assert_eq!(1, proposal.participation);
    assert!(proposal.voters.contains(participant));
}

#[test]
fn nobody_votes_twice() {
    let mut sc = setup_scenario();
    let a = someone(10);
    sc.ledger.mint(a, 1000);
    sc.join(a, 200).unwrap();
    sc.contract.whitelist(a).unwrap();
    sc.contract
        .new_proposal(sc.now, a, 1, ProposalPayload::Comment([1; 32]))
        .unwrap();
    sc.contract.vote(sc.now, a, 1).unwrap();
    let r = sc.contract.vote(sc.now, a, 1);
    assert_eq!(Err(Error::Voting(VotingError::AlreadyVoted)), r);
    assert_eq!(105, r.unwrap_err().code());
    let (proposal, _) = sc.contract.voting().find_proposal(1).unwrap();
    assert_eq!(1, proposal.participation);
    assert_eq!(1, proposal.voters.len());
    // Once the time is up the answer is that voting is closed.
    assert_eq!(
        Err(Error::Voting(VotingError::VotingClosed)),
        sc.contract.vote(864000, a, 1)
    );
    assert_eq!(
        Err(Error::Voting(VotingError::NotFound)),
        sc.contract.vote(sc.now, a, 2)
    );
}

#[test]
fn non_whitelisted_participant_cant_vote_proposals() {
    let mut sc = setup_scenario();

    let participant = someone(10);
    sc.ledger.mint(participant, 1000);

    sc.join(participant, 200).unwrap();

    let r = sc.contract.vote(sc.now, participant, 1);
    assert_eq!(Err(Error::ParticipantNotWhitelisted), r);
    assert_eq!(5, r.unwrap_err().code());
}

#[test]
fn non_whitelisted_participant_cant_execute_proposals() {
    let mut sc = setup_scenario();

    let participant = someone(10);
    sc.ledger.mint(participant, 1000);

    sc.join(participant, 200).unwrap();

    let r = sc.contract.execute_proposal(participant, 1);
    assert_eq!(Err(Error::ParticipantNotWhitelisted), r);
    assert_eq!(5, r.unwrap_err().code());
}

#[test]
fn only_author_can_execute_proposals() {
    let mut sc = setup_scenario();

    let participant_1 = someone(10);
    let participant_2 = someone(20);

    sc.ledger.mint(participant_1, 1000);
    sc.ledger.mint(participant_2, 1000);

    sc.join(participant_1, 800).unwrap();
    sc.join(participant_2, 200).unwrap();

    sc.contract.whitelist(participant_1).unwrap();
    sc.contract.whitelist(participant_2).unwrap();

    let proposal_id = 1;

    sc.contract
        .new_proposal(
            sc.now,
            participant_1,
            proposal_id,
            ProposalPayload::Comment([9u8; 32]),
        )
        .unwrap();

    sc.contract.vote(sc.now, participant_1, proposal_id).unwrap();
    sc.contract.vote(sc.now, participant_2, proposal_id).unwrap();

    // A different, whitelisted tries to execute the proposal of participant_1 . It should fail.
    let r = sc.contract.execute_proposal(participant_2, proposal_id);
    assert_eq!(Err(Error::OnlyAuthorCanExecuteProposals), r);
    assert_eq!(8, r.unwrap_err().code());
    assert!(!sc.contract.is_proposal_executed(proposal_id));
}

#[test]
fn whitelisted_participant_can_execute_standard_proposal() {
    let mut sc = setup_scenario();

    let participant_1 = someone(10);
    let participant_2 = someone(20);

    sc.ledger.mint(participant_1, 1000);
    sc.ledger.mint(participant_2, 1000);

    sc.join(participant_1, 800).unwrap();
    sc.join(participant_2, 200).unwrap();

    sc.contract.whitelist(participant_1).unwrap();

    let proposal_id = 1;

    sc.contract
        .new_proposal(
            sc.now,
            participant_1,
            proposal_id,
            ProposalPayload::Comment([9u8; 32]),
        )
        .unwrap();

    sc.contract.vote(sc.now, participant_1, proposal_id).unwrap();

    let effects = sc
        .contract
        .execute_proposal(participant_1, proposal_id)
        .unwrap();

    assert_eq!(Effect::Authorize(participant_1), effects[0]);

    assert_eq!(
        Effect::ProposalExecuted {
            participant: participant_1,
            id: proposal_id
        },
        *effects.last().unwrap()
    );
    assert_eq!(
        effects,
        vec![
            Effect::Authorize(participant_1),
            Effect::Authorize(sc.contract_id),
            Effect::Authorize(sc.contract_id),
            Effect::ProposalExecuted {
                participant: participant_1,
                id: proposal_id
            },
        ]
    );
    // Only the whitelisted count: the one voter holds all of their stakes.
    let (proposal, _) = sc.contract.voting().find_proposal(proposal_id).unwrap();
    assert_eq!(800, proposal.participation);
    assert_eq!(800, proposal.total_participation);
    assert_eq!(Ok(10_000), proposal.approval_rate_bps());
    assert!(sc.contract.is_proposal_executed(proposal_id));
    assert_eq!(vec![proposal_id], sc.contract.executed_proposal_storage());
}

#[test]
fn proposals_can_only_be_executed_once() {
    let mut sc = setup_scenario();

    let participant_1 = someone(10);
    sc.ledger.mint(participant_1, 1000);
    sc.join(participant_1, 800).unwrap();
    sc.contract.whitelist(participant_1).unwrap();

    let proposal_id = 1;

    sc.contract
        .new_proposal(
            sc.now,
            participant_1,
            proposal_id,
            ProposalPayload::Comment([9u8; 32]),
        )
        .unwrap();

    sc.contract.vote(sc.now, participant_1, proposal_id).unwrap();

    sc.contract
        .execute_proposal(participant_1, proposal_id)
        .unwrap();

    let r = sc.contract.execute_proposal(participant_1, proposal_id);
    assert_eq!(Err(Error::AlreadyExecuted), r);
    assert_eq!(9, r.unwrap_err().code());
}

#[test]
fn execute_a_code_upgrade_proposal_flow() {
    let mut sc = setup_scenario();

    let wasm_hash = [0xabu8; 32];

    let participant_1 = someone(10);

    sc.ledger.mint(participant_1, 1000);

    sc.join(participant_1, 800).unwrap();
    sc.contract.whitelist(participant_1).unwrap();

    let proposal_id = 1;

    sc.contract
        .new_proposal(
            sc.now,
            participant_1,
            proposal_id,
            ProposalPayload::CodeUpgrade(wasm_hash),
        )
        .unwrap();

    sc.contract.vote(sc.now, participant_1, proposal_id).unwrap();

    let effects = sc
        .contract
        .execute_proposal(participant_1, proposal_id)
        .unwrap();
    assert!(effects.contains(&Effect::InstallCode { wasm_hash }));
    assert_eq!(
        1,
        effects
            .iter()
            .filter(|e| matches!(e, Effect::InstallCode { .. }))
            .count()
    );
    // A second execution installs nothing.
    assert_eq!(
        Err(Error::AlreadyExecuted),
        sc.contract.execute_proposal(participant_1, proposal_id)
    );
}

#[test]
fn execute_a_curator_change_flow() {
    let mut sc = setup_scenario();

    let participant_1 = someone(10);

    sc.ledger.mint(participant_1, 1000);

    sc.join(participant_1, 800).unwrap();
    sc.contract.whitelist(participant_1).unwrap();

    let proposal_id = 1;

    sc.contract
        .new_proposal(
            sc.now,
            participant_1,
            proposal_id,
            ProposalPayload::Comment([9u8; 32]),
        )
        .unwrap();

    sc.contract.vote(sc.now, participant_1, proposal_id).unwrap();

    sc.contract
        .execute_proposal(participant_1, proposal_id)
        .unwrap();
    // A comment changes no curator.
    assert_eq!(sc.curator, sc.contract.curator());

    let next = someone(99);
    sc.contract
        .new_proposal(sc.now, participant_1, 2, ProposalPayload::NewCurator(next))
        .unwrap();
    sc.contract.vote(sc.now, participant_1, 2).unwrap();
    sc.contract.execute_proposal(participant_1, 2).unwrap();
    assert_eq!(next, sc.contract.curator());
    // The new curator is the one whose authorization whitelisting needs now.
    let joiner = someone(30);
    sc.ledger.mint(joiner, 10);
    sc.join(joiner, 10).unwrap();
    let effects = sc.contract.whitelist(joiner).unwrap();
    assert_eq!(Effect::Authorize(next), effects[0]);
}

#[test]
fn stake_weighted_proposal_executes_once() {
    // Target 5000 bps; A stakes 800, B stakes 200, both whitelisted; A creates
    // a comment proposal; both vote; the snapshot {A: 800, B: 200} gives
    // 1000 of 1000.
    let mut sc = setup_scenario();
    let a = someone(10);
    let b = someone(20);
    sc.ledger.mint(a, 800);
    sc.ledger.mint(b, 200);
    sc.join(a, 800).unwrap();
    sc.join(b, 200).unwrap();
    sc.contract.whitelist(a).unwrap();
    sc.contract.whitelist(b).unwrap();
    sc.contract
        .new_proposal(sc.now, a, 1, ProposalPayload::Comment([1; 32]))
        .unwrap();
    sc.contract.vote(sc.now, a, 1).unwrap();
    sc.contract.vote(sc.now, b, 1).unwrap();

    let snapshot = sc.contract.participants().whitelisted_balance();
    assert_eq!(Some(800), snapshot.get(a));
    assert_eq!(Some(200), snapshot.get(b));

    sc.contract.execute_proposal(a, 1).unwrap();
    let (proposal, _) = sc.contract.voting().find_proposal(1).unwrap();
    assert_eq!(1000, proposal.participation);
    assert_eq!(1000, proposal.total_participation);
    assert_eq!(Ok(10_000), proposal.approval_rate_bps());
    assert!(proposal.is_approved());

    assert_eq!(Err(Error::AlreadyExecuted), sc.contract.execute_proposal(a, 1));
}

#[test]
fn execution_counts_the_stakes_of_the_day() {
    // A votes with 100 staked; by the time of execution B, who did not vote,
    // has staked 900 more than A: the proposal no longer has its quorum.
    let mut sc = setup_scenario();
    let a = someone(10);
    let b = someone(20);
    sc.ledger.mint(a, 1000);
    sc.ledger.mint(b, 1000);
    sc.join(a, 100).unwrap();
    sc.contract.whitelist(a).unwrap();
    sc.contract
        .new_proposal(sc.now, a, 1, ProposalPayload::Comment([1; 32]))
        .unwrap();
    sc.contract.vote(sc.now, a, 1).unwrap();

    sc.join(b, 101).unwrap();
    sc.contract.whitelist(b).unwrap();
    let r = sc.contract.execute_proposal(a, 1);
    assert_eq!(Err(Error::ProposalNeedsApproval), r);
    assert_eq!(7, r.unwrap_err().code());
    assert!(!sc.contract.is_proposal_executed(1));
    // Nothing was written back.
    let (proposal, _) = sc.contract.voting().find_proposal(1).unwrap();
    assert_eq!(1, proposal.participation);
    assert_eq!(u128::MAX, proposal.total_participation);

    // At exactly half the proposal passes.
    sc.withdraw(b, 1).unwrap();
    sc.contract.execute_proposal(a, 1).unwrap();
    let (proposal, _) = sc.contract.voting().find_proposal(1).unwrap();
    assert_eq!(100, proposal.participation);
    assert_eq!(200, proposal.total_participation);
    assert_eq!(Ok(5000), proposal.approval_rate_bps());
}

#[test]
fn a_voter_who_left_blocks_the_execution() {
    let mut sc = setup_scenario();
    let a = someone(10);
    let b = someone(20);
    sc.ledger.mint(a, 1000);
    sc.ledger.mint(b, 1000);
    sc.join(a, 800).unwrap();
    sc.join(b, 200).unwrap();
    sc.contract.whitelist(a).unwrap();
    sc.contract.whitelist(b).unwrap();
    sc.contract
        .new_proposal(sc.now, a, 1, ProposalPayload::Comment([1; 32]))
        .unwrap();
    sc.contract.vote(sc.now, a, 1).unwrap();
    sc.contract.vote(sc.now, b, 1).unwrap();
    sc.leave(b).unwrap();
    assert_eq!(
        Err(Error::Voting(VotingError::NotFound)),
        sc.contract.execute_proposal(a, 1)
    );
    assert_eq!(
        Err(Error::Voting(VotingError::NotFound)),
        sc.contract.execute_proposal(a, 5)
    );
}

#[test]
fn stakes_match_custody_through_a_run() {
    let mut sc = setup_scenario();
    let a = someone(10);
    let b = someone(20);
    let c = someone(30);
    sc.ledger.mint(a, 1000);
    sc.ledger.mint(b, 1000);
    sc.ledger.mint(c, 1000);
    let staked = |sc: &Scenario| -> i128 {
        sc.contract
            .participants()
            .participants()
            .iter()
            .map(|p| p.balance())
            .sum()
    };
    sc.join(a, 300).unwrap();
    assert_eq!(staked(&sc), sc.ledger.balance(sc.contract_id));
    sc.join(b, 50).unwrap();
    sc.stake(a, 25).unwrap();
    assert!(sc.stake(c, 25).is_err());
    assert_eq!(staked(&sc), sc.ledger.balance(sc.contract_id));
    sc.withdraw(b, 49).unwrap();
    assert!(sc.withdraw(b, 2).is_err());
    sc.join(c, 1000).unwrap();
    sc.leave(a).unwrap();
    assert_eq!(1001, staked(&sc));
    assert_eq!(staked(&sc), sc.ledger.balance(sc.contract_id));
    assert_eq!(1000, sc.ledger.balance(a));
    sc.leave(b).unwrap();
    sc.leave(c).unwrap();
    assert_eq!(0, sc.ledger.balance(sc.contract_id));
    assert_eq!(1000, sc.ledger.balance(b));
    assert_eq!(1000, sc.ledger.balance(c));
}

#[test]
fn join_then_leave_returns_the_stake() {
    let mut sc = setup_scenario();
    let a = someone(10);
    sc.ledger.mint(a, 777);
    sc.join(a, 777).unwrap();
    assert_eq!(0, sc.ledger.balance(a));
    sc.leave(a).unwrap();
    assert_eq!(777, sc.ledger.balance(a));
    assert_eq!(0, sc.contract.participants().count());
}

#[test]
fn leaving_with_nothing_staked_is_refused() {
    let mut sc = setup_scenario();
    let a = someone(10);
    sc.ledger.mint(a, 10);
    sc.join(a, 10).unwrap();
    sc.withdraw(a, 10).unwrap();
    assert_eq!(Err(Error::InvalidAmount), sc.leave(a));
    assert_eq!(1, sc.contract.participants().count());
}

#[test]
fn rejoining_starts_afresh() {
    let mut sc = setup_scenario();
    let a = someone(10);
    sc.ledger.mint(a, 100);
    sc.join(a, 60).unwrap();
    sc.contract.whitelist(a).unwrap();
    sc.leave(a).unwrap();
    sc.join(a, 40).unwrap();
    let record = sc.contract.participants().find(a).unwrap();
    assert_eq!(40, record.balance());
    assert!(!record.is_whitelisted());
}

#[test]
fn register_asks_for_the_authorization() {
    let a = someone(10);
    assert_eq!(vec![Effect::Authorize(a)], GovernanceContract::register(a));
}

#[test]
fn governance_failures_have_their_numbers() {
    assert_eq!(1, Error::AlreadyInitialized.code());
    assert_eq!(2, Error::InsufficientFunds.code());
    assert_eq!(3, Error::InvalidAmount.code());
    assert_eq!(4, Error::ParticipantNotFound.code());
    assert_eq!(5, Error::ParticipantNotWhitelisted.code());
    assert_eq!(6, Error::ExpectedStorageKeyNotFound.code());
    assert_eq!(7, Error::ProposalNeedsApproval.code());
    assert_eq!(8, Error::OnlyAuthorCanExecuteProposals.code());
    assert_eq!(9, Error::AlreadyExecuted.code());
    assert_eq!(10, Error::NotInitialized.code());
    assert_eq!(107, Error::Voting(VotingError::Overflow).code());
    assert_eq!(112, Error::Voting(VotingError::NotEnoughParticipants).code());
}

#[test]
fn a_run_of_calls_is_carried_out_one_by_one() {
    let mut sc = setup_scenario();
    let a = someone(10);
    let payload = ProposalPayload::Comment([1; 32]);
    let calls = [
        Call::Join {
            who: a,
            amount: 50,
            available: 80,
        },
        Call::Stake {
            who: a,
            amount: 30,
            available: 30,
        },
        Call::Whitelist { who: a },
        Call::NewProposal {
            now: 0,
            who: a,
            id: 3,
            payload,
        },
        Call::Vote {
            now: 1,
            who: a,
            id: 3,
        },
        Call::Execute { who: a, id: 3 },
        Call::Withdraw { who: a, amount: 80 },
    ];
    for call in calls {
        assert!(dispatch(&mut sc.contract, call).is_ok());
    }
    assert_eq!(
        Err(Error::AlreadyExecuted),
        dispatch(&mut sc.contract, Call::Execute { who: a, id: 3 })
    );
    // The one voter holds all the weight there is: the recount has closed
    // the proposal, and that is what a second vote is told.
    assert_eq!(
        Err(Error::Voting(VotingError::VotingClosed)),
        dispatch(
            &mut sc.contract,
            Call::Vote {
                now: 2,
                who: a,
                id: 3
            }
        )
    );
    assert_eq!(
        Err(Error::InvalidAmount),
        dispatch(&mut sc.contract, Call::Leave { who: a })
    );
    assert_eq!(0, sc.contract.participants().find(a).unwrap().balance());
}
