//! What holds of the membership program over every run of operations.

use vstd::prelude::*;
use crate::effect::inflow;
use crate::effect::net_inflow;
use crate::effect::Effect;
use crate::governance::Error;
use crate::governance::GovernanceContract;
use crate::governance::GovernanceView;
use crate::governance::Step;
use crate::identity::Identity;
use crate::participant::table_wf;
use crate::participant::ParticipantView;
use crate::sum::sum_over;
use crate::voting::ProposalPayload;
use crate::voting::ProposalView;

verus! {

/// One operation of the membership program after set-up, with its arguments.
#[derive(Clone, Copy, Debug, PartialEq)]
pub enum Call {
    Join { who: Identity, amount: i128, available: i128 },
    Stake { who: Identity, amount: i128, available: i128 },
    Withdraw { who: Identity, amount: i128 },
    Leave { who: Identity },
    Whitelist { who: Identity },
    NewProposal { now: u64, who: Identity, id: u64, payload: ProposalPayload },
    Vote { now: u64, who: Identity, id: u64 },
    Execute { who: Identity, id: u64 },
}

/// What one operation does to a state.
pub open spec fn apply(s: GovernanceView, c: Call) -> Step {
    match c {
        Call::Join { who, amount, available } => s.join(who, amount, available),
        Call::Stake { who, amount, available } => s.stake(who, amount, available),
        Call::Withdraw { who, amount } => s.withdraw(who, amount),
        Call::Leave { who } => s.leave(who),
        Call::Whitelist { who } => s.whitelist(who),
        Call::NewProposal { now, who, id, payload } => s.new_proposal(now, who, id, payload),
        Call::Vote { now, who, id } => s.vote(now, who, id),
        Call::Execute { who, id } => s.execute(who, id),
    }
}

/// Whether the operation meets the one demand that an operation makes of its
/// caller: that a stake stays within its word.
pub open spec fn admissible(s: GovernanceView, c: Call) -> bool {
    match c {
        Call::Stake { who, amount, available } => s.stake_fits(who, amount, available),
        _ => true,
    }
}

/// Carries one operation out on the program.
pub fn dispatch(program: &mut GovernanceContract, call: Call) -> (r: Result<Vec<Effect>, Error>)
    requires
        admissible(old(program)@, call),
    ensures
        final(program)@ == apply(old(program)@, call).next,
        crate::effect::outcome(r) == apply(old(program)@, call).result,
        final(program)@.wf(),
{
    match call {
        Call::Join { who, amount, available } => program.join(who, amount, available),
        Call::Stake { who, amount, available } => program.stake(who, amount, available),
        Call::Withdraw { who, amount } => program.withdraw(who, amount),
        Call::Leave { who } => program.leave(who),
        Call::Whitelist { who } => program.whitelist(who),
        Call::NewProposal { now, who, id, payload } => program.new_proposal(now, who, id, payload),
        Call::Vote { now, who, id } => program.vote(now, who, id),
        Call::Execute { who, id } => program.execute_proposal(who, id),
    }
}

/// The state after a run of operations, one after the other.
pub open spec fn run(s: GovernanceView, calls: Seq<Call>) -> GovernanceView
    decreases calls.len(),
{
    if calls.len() == 0 {
        s
    } else {
        apply(run(s, calls.drop_last()), calls.last()).next
    }
}

/// The state in which the operation at place `i` of a run starts.
pub open spec fn before(s: GovernanceView, calls: Seq<Call>, i: int) -> GovernanceView {
    run(s, calls.take(i))
}

/// What the operation at place `i` of a run returns.
pub open spec fn returned(s: GovernanceView, calls: Seq<Call>, i: int) -> Result<
    Seq<Effect>,
    Error,
> {
    apply(before(s, calls, i), calls[i]).result
}

/// The state after place `i` of a run is the operation there, applied to the
/// state before it.
pub proof fn lemma_before_next(s: GovernanceView, calls: Seq<Call>, i: int)
    requires
        0 <= i < calls.len(),
    ensures
        before(s, calls, i + 1) == apply(before(s, calls, i), calls[i]).next,
{
    assert(calls.take(i + 1).drop_last() =~= calls.take(i));
}

/// An operation never unmarks an executed proposal.
pub proof fn lemma_executed_kept(s: GovernanceView, c: Call, id: u64)
    requires
        s.executed.contains(id),
    ensures
        apply(s, c).next.executed.contains(id),
{
}

/// Once marked, a proposal stays marked through the rest of a run.
pub proof fn lemma_executed_stays(s: GovernanceView, calls: Seq<Call>, i: int, j: int, id: u64)
    requires
        0 <= i <= j <= calls.len(),
        before(s, calls, i).executed.contains(id),
    ensures
        before(s, calls, j).executed.contains(id),
    decreases j - i,
{
    if i < j {
        lemma_executed_stays(s, calls, i, j - 1, id);
        lemma_before_next(s, calls, j - 1);
        lemma_executed_kept(before(s, calls, j - 1), calls[j - 1], id);
    }
}

/// A proposal is executed at most once. In any run of operations, once an
/// execution of the proposal `id` has succeeded, every later execution of it
/// fails, whoever asks and whatever the votes are by then; it fails with
/// `AlreadyExecuted` whenever the caller is a whitelisted participant at that
/// time, and with the reason why it is not otherwise.
pub proof fn lemma_executed_at_most_once(
    s: GovernanceView,
    calls: Seq<Call>,
    i: int,
    j: int,
    id: u64,
)
    requires
        0 <= i < j < calls.len(),
        calls[i] is Execute,
        calls[i]->Execute_id == id,
        calls[j] is Execute,
        calls[j]->Execute_id == id,
        returned(s, calls, i) is Ok,
    ensures
        returned(s, calls, j) is Err,
        before(s, calls, j).whitelisted_error(calls[j]->Execute_who) is None ==> returned(
            s,
            calls,
            j,
        ) == Err::<Seq<Effect>, Error>(Error::AlreadyExecuted),
        before(s, calls, j).whitelisted_error(calls[j]->Execute_who) is Some ==> returned(
            s,
            calls,
            j,
        ) == Err::<Seq<Effect>, Error>(
            before(s, calls, j).whitelisted_error(calls[j]->Execute_who)->0,
        ),
{
    lemma_before_next(s, calls, i);
    lemma_executed_stays(s, calls, i + 1, j, id);
}

/// What `voter` has on record for the proposal `id`: whether the voting
/// program holds the proposal with the voter among its voters.
pub open spec fn has_voted(s: GovernanceView, voter: Identity, id: u64) -> bool {
    s.voting.proposals.dom().contains(id) && s.voting.proposals[id].voters.contains(voter)
}

/// An operation leaves the voting program sound.
pub proof fn lemma_voting_wf_kept(s: GovernanceView, c: Call)
    requires
        s.voting.wf(),
    ensures
        apply(s, c).next.voting.wf(),
{
    match c {
        Call::NewProposal { now, who, id, payload } => {
            let created = s.voting.create(now, who, id, payload);
            if s.new_proposal(now, who, id, payload).result is Ok {
                assert(created.result is Ok);
                assert(created.next.proposals[id].voters.finite());
            }
        },
        Call::Vote { now, who, id } => {
            let voted = s.voting.vote(now, who, id);
            if s.vote(now, who, id).result is Ok {
                assert(voted.result is Ok);
                let p = s.voting.proposals[id];
                assert(voted.next.proposals[id] == p.after_vote(now, who, 1));
                assert(p.voters.finite());
                assert(p.after_vote(now, who, 1).voters.finite());
            }
        },
        Call::Execute { who, id } => {
            if s.execute(who, id).result is Ok {
                let found = s.voting.find(id)->Ok_0;
                let stakes = crate::participant::whitelisted_stakes(s.participants);
                let counted = found.0.after_recount(stakes);
                let updated = s.voting.update(counted);
                assert(found.0 == s.voting.proposals[id]);
                assert(counted.id == id);
                assert(counted.voters == found.0.voters);
                assert(s.execute(who, id).next.voting == updated.next);
                assert(updated.next.proposals == s.voting.proposals.insert(id, counted));
            }
        },
        _ => {},
    }
}

/// The voting program stays sound through a run.
pub proof fn lemma_voting_wf_stays(s: GovernanceView, calls: Seq<Call>, j: int)
    requires
        0 <= j <= calls.len(),
        s.voting.wf(),
    ensures
        before(s, calls, j).voting.wf(),
    decreases j,
{
    if j > 0 {
        lemma_voting_wf_stays(s, calls, j - 1);
        lemma_before_next(s, calls, j - 1);
        lemma_voting_wf_kept(before(s, calls, j - 1), calls[j - 1]);
    } else {
        assert(calls.take(0) =~= Seq::<Call>::empty());
    }
}

/// An operation never takes a proposal or a recorded vote away.
pub proof fn lemma_vote_kept(s: GovernanceView, c: Call, voter: Identity, id: u64)
    requires
        s.voting.wf(),
        has_voted(s, voter, id),
    ensures
        has_voted(apply(s, c).next, voter, id),
{
    let before = s.voting.proposals[id];
    match c {
        Call::NewProposal { now, who, id: other, payload } => {
            let created = s.voting.create(now, who, other, payload);
            if s.new_proposal(now, who, other, payload).result is Ok {
                assert(created.result is Ok);
                assert(other != id);
                assert(created.next.proposals[id] == before);
            }
        },
        Call::Vote { now, who, id: other } => {
            let voted = s.voting.vote(now, who, other);
            if s.vote(now, who, other).result is Ok {
                assert(voted.result is Ok);
                if other == id {
                    assert(voted.next.proposals[id] == before.after_vote(now, who, 1));
                    assert(before.after_vote(now, who, 1).voters.contains(voter));
                } else {
                    assert(voted.next.proposals[id] == before);
                }
            }
        },
        Call::Execute { who, id: other } => {
            if s.execute(who, other).result is Ok {
                let found = s.voting.find(other)->Ok_0;
                let stakes = crate::participant::whitelisted_stakes(s.participants);
                let counted = found.0.after_recount(stakes);
                let updated = s.voting.update(counted);
                assert(found.0 == s.voting.proposals[other]);
                assert(counted.voters == found.0.voters);
                assert(counted.id == found.0.id);
                assert(counted.id == other);
                assert(s.execute(who, other).next.voting == updated.next);
                if other == id {
                    assert(counted.voters.contains(voter));
                    assert(updated.next.proposals[id] == counted);
                } else {
                    assert(updated.next.proposals[id] == before);
                }
            }
        },
        _ => {},
    }
}

/// A recorded vote stays on record through the rest of a run.
pub proof fn lemma_vote_stays(
    s: GovernanceView,
    calls: Seq<Call>,
    i: int,
    j: int,
    voter: Identity,
    id: u64,
)
    requires
        0 <= i <= j <= calls.len(),
        s.voting.wf(),
        has_voted(before(s, calls, i), voter, id),
    ensures
        has_voted(before(s, calls, j), voter, id),
    decreases j - i,
{
    if i < j {
        lemma_vote_stays(s, calls, i, j - 1, voter, id);
        lemma_before_next(s, calls, j - 1);
        lemma_voting_wf_stays(s, calls, j - 1);
        lemma_vote_kept(before(s, calls, j - 1), calls[j - 1], voter, id);
    }
}

/// The weight cast on a proposal does not shrink before it is recounted: no
/// operation but an execution, which recounts, takes a proposal away or
/// lowers its participation.
pub proof fn lemma_participation_kept(s: GovernanceView, c: Call, id: u64)
    requires
        s.voting.wf(),
        s.voting.proposals.dom().contains(id),
        !(c is Execute),
    ensures
        apply(s, c).next.voting.proposals.dom().contains(id),
        apply(s, c).next.voting.proposals[id].participation
            >= s.voting.proposals[id].participation,
{
    let before = s.voting.proposals[id];
    match c {
        Call::NewProposal { now, who, id: other, payload } => {
            let created = s.voting.create(now, who, other, payload);
            if s.new_proposal(now, who, other, payload).result is Ok {
                assert(created.result is Ok);
                assert(other != id);
                assert(created.next.proposals[id] == before);
            }
        },
        Call::Vote { now, who, id: other } => {
            let voted = s.voting.vote(now, who, other);
            if s.vote(now, who, other).result is Ok {
                assert(voted.result is Ok);
                if other == id {
                    assert(voted.next.proposals[id] == before.after_vote(now, who, 1));
                } else {
                    assert(voted.next.proposals[id] == before);
                }
            }
        },
        _ => {},
    }
}

/// Nobody votes twice on a proposal. In any run of operations, once a vote
/// of `voter` on the proposal `id` has succeeded, every later vote of the
/// same voter on it fails. It fails with `AlreadyVoted` whenever the voter is
/// a whitelisted participant and the proposal is still open at that time;
/// with `VotingClosed` where the proposal has closed; and with the reason why
/// the voter may not act otherwise.
pub proof fn lemma_no_double_vote(s: GovernanceView, calls: Seq<Call>, i: int, j: int)
    requires
        0 <= i < j < calls.len(),
        calls[i] is Vote,
        calls[j] is Vote,
        calls[i]->Vote_who == calls[j]->Vote_who,
        calls[i]->Vote_id == calls[j]->Vote_id,
        returned(s, calls, i) is Ok,
        s.voting.wf(),
    ensures
        returned(s, calls, j) is Err,
        ({
            let at = before(s, calls, j);
            let who = calls[j]->Vote_who;
            let id = calls[j]->Vote_id;
            let now = calls[j]->Vote_now;
            &&& at.whitelisted_error(who) is Some ==> returned(s, calls, j) == Err::<
                Seq<Effect>,
                Error,
            >(at.whitelisted_error(who)->0)
            &&& at.whitelisted_error(who) is None ==> at.voting.proposals.dom().contains(id)
                && returned(s, calls, j) == Err::<Seq<Effect>, Error>(
                Error::Voting(
                    if at.voting.proposals[id].is_closed(now) {
                        crate::voting::Error::VotingClosed
                    } else {
                        crate::voting::Error::AlreadyVoted
                    },
                ),
            )
        }),
{
    let who = calls[i]->Vote_who;
    let id = calls[i]->Vote_id;
    lemma_before_next(s, calls, i);
    lemma_voting_wf_stays(s, calls, i);
    assert(has_voted(before(s, calls, i + 1), who, id));
    lemma_vote_stays(s, calls, i + 1, j, who, id);
    let at = before(s, calls, j);
    if at.whitelisted_error(who) is None {
        assert(at.initialized);
        lemma_vote_needs_set_up(s, calls, i, j);
    }
}

/// The voting program, once set up, stays set up.
pub proof fn lemma_set_up_stays(s: GovernanceView, calls: Seq<Call>, i: int, j: int)
    requires
        0 <= i <= j <= calls.len(),
        before(s, calls, i).voting.initialized,
    ensures
        before(s, calls, j).voting.initialized,
    decreases j - i,
{
    if i < j {
        lemma_set_up_stays(s, calls, i, j - 1);
        lemma_before_next(s, calls, j - 1);
    }
}

proof fn lemma_vote_needs_set_up(s: GovernanceView, calls: Seq<Call>, i: int, j: int)
    requires
        0 <= i < j < calls.len(),
        calls[i] is Vote,
        returned(s, calls, i) is Ok,
    ensures
        before(s, calls, j).voting.initialized,
{
    lemma_before_next(s, calls, i);
    assert(before(s, calls, i).voting.initialized);
    assert(before(s, calls, i + 1).voting.initialized);
    lemma_set_up_stays(s, calls, i + 1, j);
}

/// The net inflow of one run of effects after another is the sum of the two.
pub proof fn lemma_inflow_concat(a: Seq<Effect>, b: Seq<Effect>)
    ensures
        net_inflow(a + b) == net_inflow(a) + net_inflow(b),
    decreases b.len(),
{
    if b.len() == 0 {
        assert(a + b =~= a);
    } else {
        assert((a + b).drop_last() =~= a + b.drop_last());
        assert((a + b).last() == b.last());
        lemma_inflow_concat(a, b.drop_last());
    }
}

/// The net inflow of a single effect is its inflow.
pub proof fn lemma_inflow_one(e: Effect)
    ensures
        net_inflow(seq![e]) == inflow(e),
{
    assert(seq![e].drop_last() =~= Seq::<Effect>::empty());
    assert(seq![e].last() == e);
    reveal_with_fuel(net_inflow, 2);
}

/// Effects that move nothing have no net inflow.
pub proof fn lemma_inflow_none(effects: Seq<Effect>)
    requires
        forall|i: int| 0 <= i < effects.len() ==> inflow(#[trigger] effects[i]) == 0,
    ensures
        net_inflow(effects) == 0,
    decreases effects.len(),
{
    if effects.len() > 0 {
        assert forall|i: int| 0 <= i < effects.drop_last().len() implies inflow(
            #[trigger] effects.drop_last()[i],
        ) == 0 by {
            assert(effects.drop_last()[i] == effects[i]);
        }
        lemma_inflow_none(effects.drop_last());
        assert(inflow(effects[effects.len() - 1]) == 0);
    }
}

/// The stake that a table of participants holds for each identity.
pub open spec fn stake_in(m: Map<Identity, ParticipantView>) -> spec_fn(Identity) -> int {
    |k: Identity| m[k].balance as int
}

/// The stakes of all participants together.
pub open spec fn staked(s: GovernanceView) -> int {
    sum_over(s.participants.dom(), stake_in(s.participants))
}

/// The net inflow of what an operation returned; nothing where it failed.
pub open spec fn moved(r: Result<Seq<Effect>, Error>) -> int {
    match r {
        Ok(effects) => net_inflow(effects),
        Err(_) => 0,
    }
}

/// Whether the operation is admissible and is no join of an identity that is
/// a participant already: such a join files a fresh record over the old one,
/// and the old stake stays in custody without an owner.
pub open spec fn conserving(s: GovernanceView, c: Call) -> bool {
    &&& admissible(s, c)
    &&& c is Join ==> !s.participants.dom().contains(c->Join_who)
}

/// An admissible operation leaves the state sound.
pub proof fn lemma_wf_kept(s: GovernanceView, c: Call)
    requires
        s.wf(),
        admissible(s, c),
    ensures
        apply(s, c).next.wf(),
{
    lemma_voting_wf_kept(s, c);
    match c {
        Call::Execute { who, id } => {
            if s.execute(who, id).result is Ok {
                assert(s.execute(who, id).next.participants == s.participants);
            }
        },
        _ => {},
    }
}

/// A failed operation changes nothing.
pub proof fn lemma_failure_changes_nothing(s: GovernanceView, c: Call)
    requires
        apply(s, c).result is Err,
    ensures
        apply(s, c).next == s,
{
}

/// One operation keeps the books: the stakes of all participants grow by
/// exactly the net amount that the operation moves into custody.
pub proof fn lemma_step_conserves(s: GovernanceView, c: Call)
    requires
        s.wf(),
        conserving(s, c),
    ensures
        staked(apply(s, c).next) == staked(s) + moved(apply(s, c).result),
{
    let step = apply(s, c);
    let m = s.participants;
    let f = stake_in(m);
    let n = step.next.participants;
    let g = stake_in(n);
    let effects = step.result->Ok_0;
    if step.result is Ok {
        match c {
            Call::Join { who, amount, available } => {
                assert(n.dom() =~= m.dom().insert(who));
                crate::sum::lemma_sum_insert(m.dom(), g, who);
                crate::sum::lemma_sum_agree(m.dom(), f, g);
                lemma_staking_inflow(who, amount);
                lemma_inflow_one(Effect::Authorize(who));
                lemma_inflow_one(Effect::ParticipantJoined { participant: who });
                lemma_inflow_concat(seq![Effect::Authorize(who)], crate::governance::staking(who, amount));
                lemma_inflow_concat(
                    seq![Effect::Authorize(who)] + crate::governance::staking(who, amount),
                    seq![Effect::ParticipantJoined { participant: who }],
                );
            },
            Call::Stake { who, amount, available } => {
                assert(n.dom() =~= m.dom());
                crate::sum::lemma_sum_remove(m.dom(), f, who);
                crate::sum::lemma_sum_remove(m.dom(), g, who);
                crate::sum::lemma_sum_agree(m.dom().remove(who), f, g);
                lemma_staking_inflow(who, amount);
                lemma_inflow_one(Effect::Authorize(who));
                lemma_inflow_concat(seq![Effect::Authorize(who)], crate::governance::staking(who, amount));
            },
            Call::Withdraw { who, amount } => {
                assert(n.dom() =~= m.dom());
                crate::sum::lemma_sum_remove(m.dom(), f, who);
                crate::sum::lemma_sum_remove(m.dom(), g, who);
                crate::sum::lemma_sum_agree(m.dom().remove(who), f, g);
                lemma_withdrawing_inflow(who, amount);
                lemma_inflow_one(Effect::Authorize(who));
                lemma_inflow_concat(
                    seq![Effect::Authorize(who)],
                    crate::governance::withdrawing(who, amount),
                );
            },
            Call::Leave { who } => {
                let amount = m[who].balance;
                assert(n.dom() =~= m.dom().remove(who));
                crate::sum::lemma_sum_remove(m.dom(), f, who);
                crate::sum::lemma_sum_agree(m.dom().remove(who), f, g);
                lemma_withdrawing_inflow(who, amount);
                lemma_inflow_one(Effect::Authorize(who));
                lemma_inflow_one(Effect::ParticipantLeft { participant: who });
                lemma_inflow_concat(
                    seq![Effect::Authorize(who)],
                    crate::governance::withdrawing(who, amount),
                );
                lemma_inflow_concat(
                    seq![Effect::Authorize(who)] + crate::governance::withdrawing(who, amount),
                    seq![Effect::ParticipantLeft { participant: who }],
                );
            },
            Call::Whitelist { who } => {
                assert(n.dom() =~= m.dom());
                crate::sum::lemma_sum_agree(m.dom(), f, g);
                lemma_inflow_none(effects);
            },
            Call::NewProposal { now, who, id, payload } => {
                lemma_inflow_none(effects);
            },
            Call::Vote { now, who, id } => {
                lemma_inflow_none(effects);
            },
            Call::Execute { who, id } => {
                assert(n == m);
                lemma_inflow_none(effects);
            },
        }
    }
}

/// Taking a stake into custody moves exactly the stake.
pub proof fn lemma_staking_inflow(who: Identity, amount: i128)
    ensures
        net_inflow(crate::governance::staking(who, amount)) == amount,
{
    let a = Effect::TransferIn { from: who, amount };
    let b = Effect::Staked { participant: who, amount };
    assert(crate::governance::staking(who, amount) =~= seq![a] + seq![b]);
    lemma_inflow_one(a);
    lemma_inflow_one(b);
    lemma_inflow_concat(seq![a], seq![b]);
}

/// Handing a stake back moves exactly the stake, outwards.
pub proof fn lemma_withdrawing_inflow(who: Identity, amount: i128)
    ensures
        net_inflow(crate::governance::withdrawing(who, amount)) == -amount,
{
    let a = Effect::TransferOut { to: who, amount };
    let b = Effect::Withdrawn { participant: who, amount };
    assert(crate::governance::withdrawing(who, amount) =~= seq![a] + seq![b]);
    lemma_inflow_one(a);
    lemma_inflow_one(b);
    lemma_inflow_concat(seq![a], seq![b]);
}

/// The net amount that a run of operations moves into custody.
pub open spec fn run_inflow(s: GovernanceView, calls: Seq<Call>) -> int
    decreases calls.len(),
{
    if calls.len() == 0 {
        0
    } else {
        run_inflow(s, calls.drop_last()) + moved(
            apply(run(s, calls.drop_last()), calls.last()).result,
        )
    }
}

/// Whether every operation of a run is conserving in the state it meets.
pub open spec fn run_conserving(s: GovernanceView, calls: Seq<Call>) -> bool
    decreases calls.len(),
{
    calls.len() > 0 ==> run_conserving(s, calls.drop_last()) && conserving(
        run(s, calls.drop_last()),
        calls.last(),
    )
}

/// Balance conservation. Through any run of operations in which nobody
/// joins who is a participant already, the stakes of all participants
/// together grow by exactly the net amount moved into the program's custody;
/// and the state stays sound.
pub proof fn lemma_balance_conservation(s: GovernanceView, calls: Seq<Call>)
    requires
        s.wf(),
        run_conserving(s, calls),
    ensures
        run(s, calls).wf(),
        staked(run(s, calls)) == staked(s) + run_inflow(s, calls),
    decreases calls.len(),
{
    if calls.len() > 0 {
        lemma_balance_conservation(s, calls.drop_last());
        let at = run(s, calls.drop_last());
        lemma_wf_kept(at, calls.last());
        lemma_step_conserves(at, calls.last());
    }
}

/// What the program holds is what was paid in. From a state without
/// participants, as set-up leaves it, through any run of operations in which
/// nobody joins who is a participant already, the stakes of all
/// participants together are exactly the net amount moved into the
/// program's custody.
pub proof fn lemma_stakes_are_custody(s: GovernanceView, calls: Seq<Call>)
    requires
        s.wf(),
        s.participants.dom() =~= Set::<Identity>::empty(),
        run_conserving(s, calls),
    ensures
        staked(run(s, calls)) == run_inflow(s, calls),
{
    crate::sum::lemma_sum_empty(stake_in(s.participants));
    lemma_balance_conservation(s, calls);
}

/// The round trip. Who joins with a stake and leaves at once gets exactly
/// the stake back, and the table of participants is as if it had never
/// joined.
pub proof fn lemma_join_then_leave(s: GovernanceView, who: Identity, amount: i128, available: i128)
    requires
        s.initialized,
        0 < amount <= available,
        !s.participants.dom().contains(who),
    ensures
        s.join(who, amount, available).result is Ok,
        s.join(who, amount, available).next.leave(who).result is Ok,
        moved(s.join(who, amount, available).result) == amount,
        moved(s.join(who, amount, available).next.leave(who).result) == -amount,
        s.join(who, amount, available).next.leave(who).next == s,
{
    let joined = s.join(who, amount, available);
    let left = joined.next.leave(who);
    assert(left.next.participants =~= s.participants);
    lemma_staking_inflow(who, amount);
    lemma_withdrawing_inflow(who, amount);
    lemma_inflow_one(Effect::Authorize(who));
    lemma_inflow_one(Effect::ParticipantJoined { participant: who });
    lemma_inflow_one(Effect::ParticipantLeft { participant: who });
    lemma_inflow_concat(seq![Effect::Authorize(who)], crate::governance::staking(who, amount));
    lemma_inflow_concat(
        seq![Effect::Authorize(who)] + crate::governance::staking(who, amount),
        seq![Effect::ParticipantJoined { participant: who }],
    );
    lemma_inflow_concat(seq![Effect::Authorize(who)], crate::governance::withdrawing(who, amount));
    lemma_inflow_concat(
        seq![Effect::Authorize(who)] + crate::governance::withdrawing(who, amount),
        seq![Effect::ParticipantLeft { participant: who }],
    );
}

/// The amount that a snapshot holds for each identity.
pub open spec fn amount_in(b: Map<Identity, i128>) -> spec_fn(Identity) -> int {
    |k: Identity| b[k] as int
}

/// Recomputing the weights is accurate to the balances. Against a snapshot
/// without negative amounts: where a voter has no entry the recomputation
/// fails with `NotFound` and changes nothing; where every voter has one and
/// the amounts together fit a word, it succeeds, the participation is the sum
/// of the voters' amounts and the total is the sum of all amounts.
pub proof fn lemma_recount_accurate(p: ProposalView, b: Map<Identity, i128>)
    requires
        p.voters.finite(),
        b.dom().finite(),
        forall|k: Identity| b.dom().contains(k) ==> b[k] >= 0,
    ensures
        !p.voters.subset_of(b.dom()) ==> p.recount_result(b) == Err::<(), crate::voting::Error>(
            crate::voting::Error::NotFound,
        ) && p.after_recount(b) == p,
        p.voters.subset_of(b.dom()) && sum_over(b.dom(), amount_in(b)) <= u128::MAX ==> {
            &&& p.recount_result(b) is Ok
            &&& p.after_recount(b).participation == sum_over(p.voters, amount_in(b))
            &&& p.after_recount(b).total_participation == sum_over(b.dom(), amount_in(b))
            &&& p.after_recount(b).participation <= p.after_recount(b).total_participation
            &&& p.after_recount(b).voters == p.voters
        },
{
    let w = crate::voting::weight_in(b);
    let a = amount_in(b);
    crate::sum::lemma_sum_agree(b.dom(), w, a);
    if p.voters.subset_of(b.dom()) {
        crate::sum::lemma_sum_agree(p.voters, w, a);
        crate::sum::lemma_sum_monotone(p.voters, b.dom(), a);
    }
}

/// The stakes of the whitelisted participants of a sound table make a
/// snapshot without negative amounts.
pub proof fn lemma_stakes_snapshot(m: Map<Identity, ParticipantView>)
    requires
        table_wf(m),
    ensures
        crate::participant::whitelisted_stakes(m).dom().finite(),
        crate::participant::whitelisted_stakes(m).dom().subset_of(m.dom()),
        forall|k: Identity| #[trigger]
            crate::participant::whitelisted_stakes(m).dom().contains(k) ==> m[k].whitelisted
                && 0 <= crate::participant::whitelisted_stakes(m)[k] == m[k].balance,
{
    vstd::set_lib::lemma_set_subset_finite(m.dom(), crate::participant::whitelisted_stakes(m).dom());
}

/// An executed proposal was counted against the stakes held at the time of
/// execution. Where an execution succeeds in a sound state, the proposal
/// that the voting program holds afterwards has as participation the sum of
/// what its voters have staked now, and as total the sum of what all
/// whitelisted participants have staked now; every voter is a whitelisted
/// participant; the rate reaches the target; and the proposer asked.
pub proof fn lemma_execution_counts_live_stakes(s: GovernanceView, who: Identity, id: u64)
    requires
        s.wf(),
        s.execute(who, id).result is Ok,
    ensures
        ({
            let stakes = crate::participant::whitelisted_stakes(s.participants);
            let after = s.execute(who, id).next.voting.proposals[id];
            &&& s.voting.proposals.dom().contains(id)
            &&& s.execute(who, id).next.voting.proposals.dom().contains(id)
            &&& after.proposer == who
            &&& after.voters == s.voting.proposals[id].voters
            &&& after.voters.subset_of(stakes.dom())
            &&& after.participation == sum_over(after.voters, stake_in(s.participants))
            &&& after.total_participation == sum_over(stakes.dom(), stake_in(s.participants))
            &&& after.is_approved()
            &&& !s.executed.contains(id)
            &&& s.execute(who, id).next.executed == s.executed.insert(id)
        }),
{
    let stakes = crate::participant::whitelisted_stakes(s.participants);
    let found = s.voting.find(id)->Ok_0;
    let counted = found.0.after_recount(stakes);
    let updated = s.voting.update(counted);
    lemma_stakes_snapshot(s.participants);
    assert(found.0 == s.voting.proposals[id]);
    assert(counted.id == id);
    assert(s.execute(who, id).next.voting == updated.next);
    assert(updated.next.proposals[id] == counted);
    let w = crate::voting::weight_in(stakes);
    let f = stake_in(s.participants);
    assert(found.0.voters.finite());
    crate::sum::lemma_sum_agree(stakes.dom(), w, f);
    crate::sum::lemma_sum_agree(found.0.voters, w, f);
    crate::sum::lemma_sum_monotone(found.0.voters, stakes.dom(), f);
    crate::sum::lemma_sum_monotone(stakes.dom(), stakes.dom(), f);
}

/// The approval rule at the boundary: a proposal on which exactly half of
/// the total weight was cast meets a target of 5000 basis points.
pub proof fn lemma_half_approves(p: ProposalView)
    requires
        p.total_participation > 0,
        2 * p.participation == p.total_participation,
        p.target_approval_rate_bps == 5000,
    ensures
        p.approval_rate() == 5000,
        p.is_approved(),
{
    let x = p.participation * 10_000;
    let t = p.total_participation as int;
    crate::voting::lemma_quotient_bound(x, t, 5000);
    crate::voting::lemma_quotient_bound(x, t, 5001);
}

/// Approval is monotone: with the total and the target unchanged, more
/// participation never turns an approved proposal into one that is not.
pub proof fn lemma_approval_monotone(p: ProposalView, q: ProposalView)
    requires
        p.total_participation == q.total_participation,
        p.target_approval_rate_bps == q.target_approval_rate_bps,
        p.participation <= q.participation,
        p.is_approved(),
    ensures
        q.is_approved(),
{
    if p.total_participation > 0 {
        let t = p.total_participation as int;
        let k = p.target_approval_rate_bps as int;
        crate::voting::lemma_quotient_bound(p.participation * 10_000, t, k);
        crate::voting::lemma_quotient_bound(q.participation * 10_000, t, k);
    }
}

} // verus!
