use nebula::balances::Balances;
use nebula::effect::Effect;
use nebula::identity::Identity;
use nebula::voters::Voters;
use nebula::voting::Error;
use nebula::voting::Proposal;
use nebula::voting::ProposalPayload;
use nebula::voting_contract::ProposalVotingContract;
use nebula::wide::mul_wide;
use nebula::wide::product_at_least;

fn someone(n: u128) -> Identity {
    Identity::account(0, n)
}

fn setup_test() -> (ProposalVotingContract, Identity, Identity) {
    let mut contract = ProposalVotingContract::new();
    let address = Identity::program(0, 1000);
    let admin = someone(1);
    contract.init(admin, 3600, 50_00, 1000, false).unwrap();
    (contract, address, admin)
}

fn proposal_with(total_participation: u128, participation: u128, target: u32) -> Proposal {
    Proposal {
        id: 1,
        payload: ProposalPayload::Comment([5u8; 32]),
        proposer: someone(2),
        voting_end_time: 3600,
        participation,
        target_approval_rate_bps: target,
        voters: Voters::new(),
        total_participation,
    }
}

#[test]
fn proposal_creation() {
    let (mut client, address, admin) = setup_test();

    let id = 1001u64;
    let comment = [5u8; 32];
    let payload = ProposalPayload::Comment(comment);

    let effects = client
        .create_custom_proposal(0, id, payload, address, 3600, 50_00, 100)
        .unwrap();

    assert_eq!(Effect::Authorize(address), effects[0]);
    assert_eq!(Effect::Authorize(admin), effects[1]);

    assert_eq!(
        Effect::ProposalCreated {
            id,
            payload,
            proposer: address
        },
        *effects.last().unwrap()
    );
    assert_eq!(3, effects.len());

    let (stored, _) = client.find_proposal(id).unwrap();
    assert_eq!(id, stored.id);
    assert_eq!(payload, stored.payload);
    assert_eq!(address, stored.proposer);
    assert_eq!(3600, stored.voting_end_time);
    assert_eq!(0, stored.participation);
    assert_eq!(50_00, stored.target_approval_rate_bps);
    assert_eq!(100, stored.total_participation);
    assert_eq!(0, stored.voters.len());
}

#[test]
fn cannot_initialize_voting_twice() {
    let (mut client, _, admin) = setup_test();
    let r = client.init(admin, 3600, 50_00, 1000, false);
    assert_eq!(Err(Error::AlreadyInitialized), r);
    assert_eq!(1, r.unwrap_err().code());
}

#[test]
fn voting_set_up_checks_its_parameters() {
    let mut client = ProposalVotingContract::new();
    let admin = someone(1);
    assert_eq!(
        Err(Error::InvalidVotingPeriod),
        client.init(admin, 0, 50_00, 1000, false)
    );
    assert_eq!(
        Err(Error::InvalidTargetApprovalRate),
        client.init(admin, 3600, 0, 1000, false)
    );
    assert_eq!(
        Err(Error::NotEnoughParticipants),
        client.init(admin, 3600, 50_00, 0, false)
    );
    assert!(!client.is_initialized());
    assert_eq!(Ok(()), client.init(admin, 3600, 50_00, 1000, true));
    assert!(client.is_initialized());
    assert_eq!(admin, client.admin());
}

#[test]
fn voting_needs_set_up() {
    let mut client = ProposalVotingContract::new();
    let payload = ProposalPayload::Comment([5u8; 32]);
    assert_eq!(Error::KeyExpected, client.check_admin_mode().unwrap_err());
    assert_eq!(
        Err(Error::KeyExpected),
        client.create_proposal(0, someone(1), 1, payload)
    );
    assert_eq!(Err(Error::KeyExpected), client.vote(0, someone(1), 1));
    assert_eq!(Error::KeyExpected, client.find_proposal(1).unwrap_err());
    assert_eq!(
        Err(Error::KeyExpected),
        client.update_proposal(proposal_with(2, 0, 5000))
    );
    assert_eq!(3, Error::KeyExpected.code());
}

#[test]
fn cannot_create_same_id_proposals() {
    let (mut client, address, _) = setup_test();
    let comment = [5u8; 32];

    let id = 1001u64;
    client
        .create_custom_proposal(0, id, ProposalPayload::Comment(comment), address, 3600, 50_00, 2)
        .unwrap();
    let r = client.create_custom_proposal(
        0,
        id,
        ProposalPayload::Comment(comment),
        address,
        3600,
        50_00,
        2,
    );
    assert_eq!(Err(Error::DuplicatedEntity), r);
    assert_eq!(6, r.unwrap_err().code());
}

#[test]
fn only_admin_can_create_proposals() {
    let (mut client, address, admin) = setup_test();

    let comment = [5u8; 32];
    let effects = client
        .create_custom_proposal(0, 1, ProposalPayload::Comment(comment), address, 3600, 50_00, 2)
        .unwrap();
    // Without the admin's authorization the host lets nothing of this stand.
    assert!(effects.contains(&Effect::Authorize(admin)));
}

#[test]
fn custom_proposals_check_their_parameters() {
    let (mut client, address, _) = setup_test();
    let payload = ProposalPayload::Comment([5u8; 32]);
    assert_eq!(
        Err(Error::InvalidVotingPeriod),
        client.create_custom_proposal(0, 1, payload, address, 0, 50_00, 2)
    );
    assert_eq!(
        Err(Error::InvalidTargetApprovalRate),
        client.create_custom_proposal(0, 1, payload, address, 3600, 0, 2)
    );
    assert_eq!(
        Err(Error::NotEnoughParticipants),
        client.create_custom_proposal(0, 1, payload, address, 3600, 50_00, 0)
    );
    assert_eq!(
        Err(Error::Overflow),
        client.create_custom_proposal(u64::MAX - 3599, 1, payload, address, 3600, 50_00, 2)
    );
    assert_eq!(Error::NotFound, client.find_proposal(1).unwrap_err());
    client
        .create_custom_proposal(u64::MAX - 3600, 1, payload, address, 3600, 50_00, 2)
        .unwrap();
    assert_eq!(u64::MAX, client.find_proposal(1).unwrap().0.voting_end_time);
}

#[test]
fn voter_can_vote_proposals() {
    let (mut client, address, _) = setup_test();

    let id = 12;
    let comment = [5u8; 32];

    client
        .create_custom_proposal(0, id, ProposalPayload::Comment(comment), address, 3600, 50_00, 2)
        .unwrap();
    let effects = client.vote(0, address, id).unwrap();

    assert_eq!(
        Effect::ProposalVoted {
            id,
            voter: address,
            approval_rate_bps: Ok(5000)
        },
        *effects.last().unwrap()
    );
    assert_eq!(
        effects,
        vec![
            Effect::Authorize(address),
            Effect::ProposalVoted {
                id,
                voter: address,
                approval_rate_bps: Ok(5000)
            }
        ]
    );
}

#[test]
fn voter_cannot_vote_a_proposal_twice() {
    let (mut client, address, _) = setup_test();
    let prd_id = 12;

    let comment = [5u8; 32];

    client
        .create_custom_proposal(
            0,
            prd_id,
            ProposalPayload::Comment(comment),
            address,
            3600,
            50_00,
            2,
        )
        .unwrap();
    client.vote(0, address, prd_id).unwrap();
    // Double voting here.
    let r = client.vote(0, address, prd_id);
    assert_eq!(Err(Error::AlreadyVoted), r);
    assert_eq!(5, r.unwrap_err().code());
    assert_eq!(1, client.find_proposal(prd_id).unwrap().0.participation);
}

#[test]
fn cannot_vote_if_voting_time_exceeded() {
    let mut proposal = Proposal {
        id: 1,
        payload: ProposalPayload::Comment([5u8; 32]),
        proposer: someone(2),
        voting_end_time: 0 + 3600,
        participation: 0,
        voters: Voters::new(),
        target_approval_rate_bps: 50_00,
        total_participation: 2,
    };

    let now = 3600;

    let result = proposal.vote(now, someone(3), 1);

    assert_eq!(Err(Error::VotingClosed), result);
    assert_eq!(0, proposal.participation);
    assert!(!proposal.voters.contains(someone(3)));
}

#[test]
fn cannot_vote_if_total_voters_reached() {
    let mut voters = Voters::new();

    voters.insert(someone(10)); // Dummy voters
    voters.insert(someone(11)); // Dummy voters

    let mut proposal = Proposal {
        id: 1,
        payload: ProposalPayload::Comment([5u8; 32]),
        proposer: someone(2),
        voting_end_time: 0 + 3600,
        participation: 2,
        voters,
        target_approval_rate_bps: 50_00,
        total_participation: 2,
    };

    let result = proposal.vote(0, someone(3), 1);
    assert_eq!(Err(Error::VotingClosed), result)
}

#[test]
fn vote_adds_the_weight_once() {
    let mut proposal = proposal_with(10, 0, 5000);
    assert!(!proposal.is_closed(3599));
    assert!(proposal.is_closed(3600));
    assert_eq!(Ok(()), proposal.vote(3599, someone(3), 4));
    assert_eq!(4, proposal.participation);
    assert!(proposal.voters.contains(someone(3)));
    assert_eq!(Err(Error::AlreadyVoted), proposal.vote(3599, someone(3), 4));
    assert_eq!(4, proposal.participation);
    assert_eq!(Ok(()), proposal.vote(0, someone(4), 6));
    assert_eq!(10, proposal.participation);
    assert!(proposal.is_closed(0));
    assert_eq!(2, proposal.voters.len());
}

#[test]
fn vote_refuses_a_weight_that_does_not_fit() {
    let mut proposal = proposal_with(5, u128::MAX - 1, 5000);
    assert_eq!(Err(Error::Overflow), proposal.vote(0, someone(3), 2));
    assert_eq!(7, Error::Overflow.code());
    assert_eq!(u128::MAX - 1, proposal.participation);
    assert_eq!(0, proposal.voters.len());
    assert_eq!(Ok(()), proposal.vote(0, someone(3), 1));
    assert_eq!(u128::MAX, proposal.participation);
}

#[test]
fn proposal_calculate_approval_rate_rate_50() {
    let proposal = proposal_with(2, 1, 50_00);
    assert_eq!(Ok(50_00), proposal.approval_rate_bps());
    assert!(proposal.is_approved());
}

#[test]
fn proposal_calculate_approval_rate_precision_is_captured_in_bps() {
    let proposal = proposal_with(3, 1, 50_00);
    assert_eq!(Ok(33_33), proposal.approval_rate_bps());
    assert!(!proposal.is_approved());
}

#[test]
fn proposal_calculate_approval_rate_rate_100() {
    let proposal = proposal_with(2, 2, 50_00);
    assert_eq!(Ok(10_000), proposal.approval_rate_bps());
    assert!(proposal.is_approved());
}

#[test]
fn proposal_calculate_approval_rate_no_votes_no_rate() {
    let proposal = proposal_with(0, 0, 50_00);
    assert_eq!(Ok(0), proposal.approval_rate_bps());
    assert!(!proposal.is_approved());
}

#[test]
fn approval_is_exact_at_the_boundary() {
    // Half of the total meets 5000 bps, one unit less does not.
    assert!(proposal_with(1000, 500, 5000).is_approved());
    assert!(!proposal_with(1000, 499, 5000).is_approved());
    assert_eq!(Ok(4990), proposal_with(1000, 499, 5000).approval_rate_bps());
    assert!(proposal_with(3, 1, 3333).is_approved());
    assert!(!proposal_with(3, 1, 3334).is_approved());
    // No total, no rate.
    let none = proposal_with(0, 7, 1);
    assert_eq!(Ok(0), none.approval_rate_bps());
    assert!(!none.is_approved());
    assert!(proposal_with(0, 7, 0).is_approved());
}

#[test]
fn approval_is_exact_for_large_weights() {
    let big = u128::MAX;
    // The product does not fit a word: the rate is not reported, the
    // decision is still exact.
    let all = proposal_with(big, big, 10_000);
    assert_eq!(Err(Error::Overflow), all.approval_rate_bps());
    assert!(all.is_approved());
    assert!(!proposal_with(big, big, 10_001).is_approved());
    assert!(proposal_with(big, big / 2 + 1, 5000).is_approved());
    assert!(!proposal_with(big, big / 2, 5000).is_approved());
    assert!(proposal_with(big, big / 2, 4999).is_approved());
    // The rate does not fit its word.
    let over = proposal_with(1, 429_497, 1);
    assert_eq!(Err(Error::Overflow), over.approval_rate_bps());
    assert!(over.is_approved());
    assert_eq!(
        Ok(4_294_960_000),
        proposal_with(1, 429_496, 1).approval_rate_bps()
    );
}

#[test]
fn cannot_create_id0_proposals() {
    let (mut client, address, _) = setup_test();
    let comment = [5u8; 32];

    let r = client.create_custom_proposal(
        0,
        0,
        ProposalPayload::Comment(comment),
        address,
        3600,
        50_00,
        2,
    );
    assert_eq!(Err(Error::NotValidID), r);
    assert_eq!(9, r.unwrap_err().code());
}

#[test]
fn proposal_comment_is_accessible() {
    let payload = ProposalPayload::Comment([5u8; 32]);
    let proposer = someone(2);

    let proposal = Proposal {
        id: 112,
        payload,
        proposer,
        voting_end_time: 123123,
        participation: 0,
        target_approval_rate_bps: 0,
        total_participation: 0,
        voters: Voters::new(),
    };

    assert_eq!(payload, proposal.payload().clone());
}

#[test]
fn proposal_total_participation_can_be_set_from_balance() {
    let mut voters = Voters::new();

    let voter_1 = someone(10);
    let voter_2 = someone(11);

    voters.insert(voter_1); // Only voter_1 votes in favour.

    let mut proposal = Proposal {
        id: 112,
        payload: ProposalPayload::Comment([5u8; 32]),
        proposer: someone(2),
        voting_end_time: 123123,
        target_approval_rate_bps: 5000, // Half the participation is enough to approve.
        // Participation data is in zero values, as it will be calculated from provided balance.
        participation: 0,
        total_participation: 0,
        voters,
    };

    let mut balance = Balances::new();

    balance.set(voter_1, 1000);
    balance.set(voter_2, 1000);

    proposal.set_participation_from_balance(&balance).unwrap();

    assert_eq!(1000, proposal.participation);
    assert_eq!(2000, proposal.total_participation);
    assert_eq!(5000, proposal.approval_rate_bps().unwrap());
    assert!(proposal.is_approved());
}

#[test]
fn set_participation_from_balance_checks_all_local_addresses_exist_in_balance() {
    let mut voters = Voters::new();

    let voter_1 = someone(10);
    let voter_2 = someone(11);

    voters.insert(voter_1);
    voters.insert(voter_2);

    let mut proposal = Proposal {
        id: 112,
        payload: ProposalPayload::Comment([5u8; 32]),
        proposer: someone(2),
        voting_end_time: 123123,
        target_approval_rate_bps: 5000, // Half the participation is enough to approve.

        // Participation data is in zero values, as it will be calculated from provided balance.
        participation: 0,
        total_participation: 0,
        voters,
    };

    let mut balance = Balances::new();

    balance.set(voter_1, 1000);
    //balance.set(voter_2, 1000); This should exist, so we expect an error.

    assert_eq!(
        Err(Error::NotFound),
        proposal.set_participation_from_balance(&balance)
    );
    assert_eq!(0, proposal.participation);
    assert_eq!(0, proposal.total_participation);
}

#[test]
fn recount_fails_where_the_weights_do_not_fit() {
    let a = someone(10);
    let b = someone(11);
    let c = someone(12);
    let mut balance = Balances::new();
    balance.set(a, i128::MAX);
    balance.set(b, i128::MAX);
    balance.set(c, 2);

    // The voters' weights fit, all the weights together do not.
    let mut voters = Voters::new();
    voters.insert(a);
    voters.insert(b);
    let mut proposal = proposal_with(9, 3, 5000);
    proposal.voters = voters;
    assert_eq!(
        Err(Error::Overflow),
        proposal.set_participation_from_balance(&balance)
    );
    assert_eq!(3, proposal.participation);
    assert_eq!(9, proposal.total_participation);

    // The voters' weights do not fit.
    proposal.voters.insert(c);
    assert_eq!(
        Err(Error::NotFound),
        proposal.set_participation_from_balance(&balance)
    );

    // One less and everything fits: the sum is all ones.
    balance.set(c, 1);
    assert_eq!(Ok(()), proposal.set_participation_from_balance(&balance));
    assert_eq!(u128::MAX, proposal.participation);
    assert_eq!(u128::MAX, proposal.total_participation);
}

#[test]
fn recount_of_an_empty_snapshot() {
    let mut proposal = proposal_with(9, 3, 5000);
    assert_eq!(
        Ok(()),
        proposal.set_participation_from_balance(&Balances::new())
    );
    assert_eq!(0, proposal.participation);
    assert_eq!(0, proposal.total_participation);
    assert_eq!(Ok(0), proposal.approval_rate_bps());
}

#[test]
fn a_negative_amount_weighs_as_its_bits() {
    assert_eq!(5, nebula::voting::weigh(5));
    assert_eq!(0, nebula::voting::weigh(0));
    assert_eq!(u128::MAX, nebula::voting::weigh(-1));
    assert_eq!(1u128 << 127, nebula::voting::weigh(i128::MIN));
    assert_eq!(i128::MAX as u128, nebula::voting::weigh(i128::MAX));
}

#[test]
fn weigh_all_sums_or_gives_up() {
    let a = someone(10);
    let b = someone(11);
    let mut balance = Balances::new();
    balance.set(a, 7);
    balance.set(b, 8);
    assert_eq!(Some(15), nebula::voting::weigh_all(&vec![a, b], &balance));
    assert_eq!(Some(8), nebula::voting::weigh_all(&vec![b], &balance));
    assert_eq!(Some(0), nebula::voting::weigh_all(&vec![], &balance));
    assert_eq!(
        None,
        nebula::voting::weigh_all(&vec![a, someone(12)], &balance)
    );
}

#[test]
fn proposals_can_be_queried_by_anyone() {
    let (mut client, address, _) = setup_test();

    client
        .create_proposal(0, address, 1, ProposalPayload::Comment([5u8; 32]))
        .unwrap();

    let (proposal, needed) = client.find_proposal(1).unwrap();

    assert_eq!(1, proposal.id);
    assert!(needed.is_empty());
    // The program's own parameters were used.
    assert_eq!(3600, proposal.voting_end_time);
    assert_eq!(50_00, proposal.target_approval_rate_bps);
    assert_eq!(1000, proposal.total_participation);
}

#[test]
fn proposals_can_be_updated_only_by_admin() {
    let (mut client, address, admin) = setup_test();

    client
        .create_proposal(0, address, 1, ProposalPayload::Comment([5u8; 32]))
        .unwrap();

    let voter_1 = someone(10);
    let voter_2 = someone(11);

    client.vote(0, voter_1, 1).unwrap();
    client.vote(0, voter_2, 1).unwrap();

    let (mut proposal, _) = client.find_proposal(1).unwrap();

    let mut balance = Balances::new();
    balance.set(voter_1, 1000);
    balance.set(voter_2, 1000);

    proposal.set_participation_from_balance(&balance).unwrap();

    let effects = client.update_proposal(proposal).unwrap();

    assert_eq!(vec![Effect::Authorize(admin)], effects);

    // If we retrieve the proposal again, is updated.
    let (stored_proposal, _) = client.find_proposal(1).unwrap();
    assert!(stored_proposal.is_approved());
    assert_eq!(10_000, stored_proposal.approval_rate_bps().unwrap());
}

#[test]
fn proposals_can_be_updated_only_if_they_exist_first() {
    let (mut client, _, _) = setup_test();
    let proposal = Proposal {
        id: 112,
        payload: ProposalPayload::Comment([5u8; 32]),
        proposer: someone(2),
        voting_end_time: 123123,
        target_approval_rate_bps: 5000,
        participation: 0,
        total_participation: 0,
        voters: Voters::new(),
    };
    let r = client.update_proposal(proposal);
    assert_eq!(Err(Error::NotFound), r);
    assert_eq!(4, r.unwrap_err().code());
}

#[test]
fn non_admin_user_cannot_vote_if_admin_mode_is_on() {
    let mut client = ProposalVotingContract::new();
    let address = Identity::program(0, 1000);
    let admin = someone(1);
    client.init(admin, 3600, 50_00, 1000, true).unwrap();

    let proposer = someone(2);
    client
        .create_proposal(0, proposer, 1, ProposalPayload::Comment([5u8; 32]))
        .unwrap();
    let effects = client.vote(0, address, 1).unwrap();

    // The second auth should admin
    assert_eq!(Effect::Authorize(address), effects[0]);
    assert_eq!(Effect::Authorize(admin), effects[1]);
    assert_eq!(vec![Effect::Authorize(admin)], client.check_admin_mode().unwrap());
    assert_eq!(
        vec![Effect::Authorize(admin)],
        client.find_proposal(1).unwrap().1
    );
}

#[test]
fn voting_failures_have_their_numbers() {
    assert_eq!(1, Error::AlreadyInitialized.code());
    assert_eq!(2, Error::Conversion.code());
    assert_eq!(3, Error::KeyExpected.code());
    assert_eq!(4, Error::NotFound.code());
    assert_eq!(5, Error::AlreadyVoted.code());
    assert_eq!(6, Error::DuplicatedEntity.code());
    assert_eq!(7, Error::Overflow.code());
    assert_eq!(8, Error::VotingClosed.code());
    assert_eq!(9, Error::NotValidID.code());
    assert_eq!(10, Error::InvalidVotingPeriod.code());
    assert_eq!(11, Error::InvalidTargetApprovalRate.code());
    assert_eq!(12, Error::NotEnoughParticipants.code());
}

#[test]
fn voters_are_a_set() {
    let mut voters = Voters::new();
    assert_eq!(0, voters.len());
    voters.insert(someone(1));
    voters.insert(someone(2));
    voters.insert(someone(1));
    assert_eq!(2, voters.len());
    assert!(voters.contains(someone(1)));
    assert!(!voters.contains(someone(3)));
    assert!(!voters.contains(Identity::program(0, 1)));
    assert_eq!(vec![someone(1), someone(2)], voters.members());
    let copy = voters.clone();
    assert_eq!(2, copy.len());
}

#[test]
fn balances_are_a_table() {
    let mut balance = Balances::new();
    assert_eq!(0, balance.len());
    assert_eq!(None, balance.get(someone(1)));
    balance.set(someone(1), 5);
    balance.set(someone(2), -6);
    balance.set(someone(1), 7);
    assert_eq!(2, balance.len());
    assert_eq!(Some(7), balance.get(someone(1)));
    assert_eq!(Some(-6), balance.get(someone(2)));
    assert_eq!(vec![someone(1), someone(2)], balance.holders());
}

#[test]
fn wide_products_compare_exactly() {
    assert_eq!((0, 0), mul_wide(0, 7));
    assert_eq!((0, 42), mul_wide(6, 7));
    assert_eq!((0, u128::MAX), mul_wide(u128::MAX, 1));
    assert_eq!((1, u128::MAX - 1), mul_wide(u128::MAX, 2));
    assert_eq!(
        (u64::MAX as u128 - 1, u128::MAX - (u64::MAX as u128) + 1),
        mul_wide(u128::MAX, u64::MAX)
    );
    assert_eq!((0, 1u128 << 127), mul_wide(1u128 << 64, 1u64 << 63));
    assert_eq!((1, 0), mul_wide(1u128 << 127, 2));
    assert!(product_at_least(3, 4, 6, 2));
    assert!(!product_at_least(3, 4, 13, 1));
    assert!(product_at_least(u128::MAX, 10_000, u128::MAX, 10_000));
    assert!(!product_at_least(u128::MAX, 9_999, u128::MAX, 10_000));
    assert!(product_at_least(u128::MAX, 10_000, u128::MAX - 1, 10_000));
}
