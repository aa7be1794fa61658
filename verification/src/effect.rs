//! What a program asks of its host when an operation succeeds.

use vstd::prelude::*;
use crate::identity::Identity;
use crate::voting::Error;
use crate::voting::ProposalPayload;

verus! {

/// One thing the host must check, move or publish for an operation that
/// succeeded. An operation hands its effects out in the order in which they
/// are due; the host aborts the whole invocation, state included, if one of
/// them cannot be carried out.
#[derive(Clone, Copy, Debug, PartialEq)]
pub enum Effect {
    /// The invocation must carry the authorization of this identity.
    Authorize(Identity),
    /// `amount` of the base asset moves from `from` into the program's custody.
    TransferIn { from: Identity, amount: i128 },
    /// `amount` of the base asset moves out of the program's custody to `to`.
    TransferOut { to: Identity, amount: i128 },
    /// The program's code is replaced by the code with this hash.
    InstallCode { wasm_hash: [u8; 32] },
    /// The voting program was set up for the membership program.
    VotingInitialized,
    /// A participant staked `amount`.
    Staked { participant: Identity, amount: i128 },
    /// A participant took `amount` back.
    Withdrawn { participant: Identity, amount: i128 },
    /// A participant joined.
    ParticipantJoined { participant: Identity },
    /// A participant left.
    ParticipantLeft { participant: Identity },
    /// The curator whitelisted a participant.
    ParticipantWhitelisted { participant: Identity },
    /// A proposal was created.
    ProposalCreated { id: u64, payload: ProposalPayload, proposer: Identity },
    /// A vote was recorded; `approval_rate_bps` is the rate after it.
    ProposalVoted { id: u64, voter: Identity, approval_rate_bps: Result<u32, Error> },
    /// A proposal was executed by its proposer.
    ProposalExecuted { participant: Identity, id: u64 },
    /// `amount` of `asset` moves from `from` to `to`.
    Transfer { asset: Identity, from: Identity, to: Identity, amount: i128 },
    /// The admin's payment was split; each stakeholder got `payout`.
    SplitPaid { admin: Identity, payout: i128 },
    /// A candidate of the raffle won `payout`.
    Winner { candidate: Identity, payout: i128 },
    /// A lottery was opened.
    LotteryCreated {
        lottery_number: u32,
        number_of_numbers: u32,
        max_range: u32,
        ticket_price: i128,
    },
    /// A player of the lottery won `prize`.
    WonPrize { player: Identity, prize: i128 },
    /// Something happened to the listing `id` of the marketplace.
    Listing { change: ListingChange, by: Identity, id: u64 },
}

/// What can happen to a listing of the marketplace.
#[derive(Clone, Copy, Debug, PartialEq, Eq, Structural)]
pub enum ListingChange {
    Created,
    Bought,
    PriceUpdated,
    Paused,
    Unpaused,
    Removed,
}

/// The base asset that an effect moves into the program's custody, counted
/// negative where it moves out.
pub open spec fn inflow(e: Effect) -> int {
    match e {
        Effect::TransferIn { from, amount } => amount as int,
        Effect::TransferOut { to, amount } => -(amount as int),
        _ => 0,
    }
}

/// The net amount of the base asset that a run of effects moves into the
/// program's custody.
pub open spec fn net_inflow(effects: Seq<Effect>) -> int
    decreases effects.len(),
{
    if effects.len() == 0 {
        0
    } else {
        net_inflow(effects.drop_last()) + inflow(effects.last())
    }
}

/// What a successful operation returned, read as a sequence; an error is kept.
pub open spec fn outcome<E>(r: Result<Vec<Effect>, E>) -> Result<Seq<Effect>, E> {
    match r {
        Ok(v) => Ok(v@),
        Err(e) => Err(e),
    }
}

} // verus!
