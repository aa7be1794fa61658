//! A lottery: players pick numbers, the admin has numbers drawn, and
//! whoever matched enough of them gets a share of the pool.

use vstd::prelude::*;
use crate::effect::Effect;
use crate::identity::Identity;
use crate::sorted::keys_of;
use crate::sorted::ordered;
use crate::sorted::table_of;
use crate::sorted::Ranked;
use crate::sorted::SortedMap;

verus! {

/// The failures of the program.
#[derive(Clone, Copy, Debug, PartialEq, Eq, Structural, PartialOrd, Ord)]
pub enum Error {
    /// The program is set up once only.
    AlreadyInitialized,
    /// The buyer's funds do not exceed the price of a ticket.
    InsufficientFunds,
    /// The program has not been set up.
    NotInitialized,
    /// Fewer players than the lottery needs have bought a ticket.
    MinParticipantsNotSatisfied,
    /// The range is smaller than the number of numbers to pick.
    MaxRangeTooLow,
    /// Fewer than two numbers are to be picked.
    NumberOfNumbersTooLow,
    /// No threshold is given.
    NumberOfThresholdsTooLow,
    /// The ticket has not as many numbers as are to be picked.
    NotEnoughOrTooManyNumbers,
    /// A number of the ticket lies outside the range.
    InvalidNumbers,
    /// No lottery with this number has been played.
    WrongLotteryNumber,
    /// No lottery has been played yet.
    NoLotteryResultsAvailable,
    /// A lottery is open already.
    AlreadyActive,
    /// No lottery is open.
    NotActive,
    /// The percentages do not add up to between 1 and 100, or a threshold
    /// asks for no match or for more matches than numbers are picked.
    InvalidThresholds,
    /// The price of a ticket is zero or negative.
    InvalidTicketPrice,
}

impl Error {
    /// The number under which the failure is reported to the caller.
    pub open spec fn spec_code(self) -> u32 {
        match self {
            Error::AlreadyInitialized => 1,
            Error::InsufficientFunds => 2,
            Error::NotInitialized => 3,
            Error::MinParticipantsNotSatisfied => 4,
            Error::MaxRangeTooLow => 5,
            Error::NumberOfNumbersTooLow => 6,
            Error::NumberOfThresholdsTooLow => 7,
            Error::NotEnoughOrTooManyNumbers => 8,
            Error::InvalidNumbers => 9,
            Error::WrongLotteryNumber => 10,
            Error::NoLotteryResultsAvailable => 11,
            Error::AlreadyActive => 12,
            Error::NotActive => 13,
            Error::InvalidThresholds => 14,
            Error::InvalidTicketPrice => 15,
        }
    }

    /// The number under which the failure is reported to the caller.
    pub fn code(&self) -> (r: u32)
        ensures
            r == self.spec_code(),
    {
        match self {
            Error::AlreadyInitialized => 1,
            Error::InsufficientFunds => 2,
            Error::NotInitialized => 3,
            Error::MinParticipantsNotSatisfied => 4,
            Error::MaxRangeTooLow => 5,
            Error::NumberOfNumbersTooLow => 6,
            Error::NumberOfThresholdsTooLow => 7,
            Error::NotEnoughOrTooManyNumbers => 8,
            Error::InvalidNumbers => 9,
            Error::WrongLotteryNumber => 10,
            Error::NoLotteryResultsAvailable => 11,
            Error::AlreadyActive => 12,
            Error::NotActive => 13,
            Error::InvalidThresholds => 14,
            Error::InvalidTicketPrice => 15,
        }
    }
}

/// Where a lottery stands.
#[derive(Clone, Copy, Debug, PartialEq, Eq, Structural)]
pub enum LotteryState {
    Initialized,
    Active,
    Finished,
}

/// A ticket that matched as many drawn numbers as a threshold asks for.
#[derive(Clone, Copy, Debug, PartialEq, Eq)]
pub struct Win {
    /// How many drawn numbers the ticket matched.
    pub matches: u32,
    /// Whose ticket it is.
    pub player: Identity,
}

/// Whether `list` holds `x`.
pub fn holds(list: &Vec<u32>, x: u32) -> (r: bool)
    ensures
        r == list@.contains(x),
{
    let mut i: usize = 0;
    while i < list.len()
        invariant
            i <= list.len(),
            forall|j: int| 0 <= j < i ==> list@[j] != x,
        decreases list.len() - i,
    {
        if list[i] == x {
            return true;
        }
        i += 1;
    }
    false
}

/// How many of the drawn numbers a ticket holds.
pub open spec fn matches(drawn: Seq<u32>, ticket: Seq<u32>) -> nat
    decreases drawn.len(),
{
    if drawn.len() == 0 {
        0
    } else {
        matches(drawn.drop_last(), ticket) + if ticket.contains(drawn.last()) {
            1nat
        } else {
            0nat
        }
    }
}

/// There are no more matches than drawn numbers.
pub proof fn lemma_matches_bound(drawn: Seq<u32>, ticket: Seq<u32>)
    ensures
        matches(drawn, ticket) <= drawn.len(),
    decreases drawn.len(),
{
    if drawn.len() > 0 {
        lemma_matches_bound(drawn.drop_last(), ticket);
    }
}

/// How many of the drawn numbers the player's ticket holds.
pub fn count_matches(drawn_numbers: &Vec<u32>, player_ticket: &Vec<u32>) -> (r: u32)
    requires
        drawn_numbers@.len() <= u32::MAX,
    ensures
        r == matches(drawn_numbers@, player_ticket@),
{
    let mut count: u32 = 0;
    let mut i: usize = 0;
    while i < drawn_numbers.len()
        invariant
            i <= drawn_numbers.len(),
            drawn_numbers@.len() <= u32::MAX,
            count == matches(drawn_numbers@.take(i as int), player_ticket@),
            count <= i,
        decreases drawn_numbers.len() - i,
    {
        proof {
            assert(drawn_numbers@.take(i as int + 1).drop_last() =~= drawn_numbers@.take(i as int));
        }
        if holds(player_ticket, drawn_numbers[i]) {
            count = count + 1;
        }
        i += 1;
    }
    proof {
        assert(drawn_numbers@.take(i as int) =~= drawn_numbers@);
    }
    count
}

/// The seed for the draw of the number at place `n`.
pub fn next_seed(random_seed: u64, n: u32) -> (r: u64)
    requires
        random_seed + n <= u64::MAX,
    ensures
        r == random_seed + n,
{
    random_seed + (n as u64)
}

/// Takes a drawn number into the numbers drawn so far, unless it has been
/// drawn before; says whether it was taken.
pub fn accept_number(numbers: &mut Vec<u32>, drawn_number: u32) -> (r: bool)
    ensures
        r == !old(numbers)@.contains(drawn_number),
        r ==> final(numbers)@ == old(numbers)@.push(drawn_number),
        !r ==> final(numbers)@ == old(numbers)@,
{
    if holds(numbers, drawn_number) {
        false
    } else {
        numbers.push(drawn_number);
        true
    }
}

/// The percentages of a list of thresholds together.
pub open spec fn percentages(thresholds: Seq<(u32, u32)>) -> int
    decreases thresholds.len(),
{
    if thresholds.len() == 0 {
        0
    } else {
        percentages(thresholds.drop_last()) + thresholds.last().1
    }
}

/// The percentages of a part of the thresholds are no more than those of
/// all.
pub proof fn lemma_percentages_grow(thresholds: Seq<(u32, u32)>, i: int)
    requires
        0 <= i <= thresholds.len(),
    ensures
        0 <= percentages(thresholds.take(i)) <= percentages(thresholds),
    decreases thresholds.len() - i,
{
    if i == thresholds.len() {
        assert(thresholds.take(i) =~= thresholds);
        lemma_percentages_nonnegative(thresholds);
    } else {
        lemma_percentages_grow(thresholds, i + 1);
        assert(thresholds.take(i + 1).drop_last() =~= thresholds.take(i));
        lemma_percentages_nonnegative(thresholds.take(i));
    }
}

/// Percentages are not negative.
pub proof fn lemma_percentages_nonnegative(thresholds: Seq<(u32, u32)>)
    ensures
        percentages(thresholds) >= 0,
    decreases thresholds.len(),
{
    if thresholds.len() > 0 {
        lemma_percentages_nonnegative(thresholds.drop_last());
    }
}

/// Whether thresholds can stand: the percentages add up to between 1 and
/// 100, and each threshold asks for at least one match and no more than
/// there are numbers to pick.
pub open spec fn valid_thresholds(thresholds: Seq<(u32, u32)>, number_of_numbers: u32) -> bool {
    &&& 1 <= percentages(thresholds) <= 100
    &&& forall|i: int|
        0 <= i < thresholds.len() ==> 1 <= (#[trigger] thresholds[i]).0 <= number_of_numbers
}

/// Whether the thresholds can stand for a lottery in which
/// `number_of_numbers` numbers are picked.
pub fn check_thresholds(thresholds: &SortedMap<u32, u32>, number_of_numbers: u32) -> (r: bool)
    ensures
        r == valid_thresholds(thresholds.in_order(), number_of_numbers),
{
    let n = thresholds.len();
    let ghost all = thresholds.in_order();
    let mut sum: u64 = 0;
    let mut i: usize = 0;
    while i < n
        invariant
            i <= n,
            n == all.len(),
            all == thresholds.in_order(),
            sum == percentages(all.take(i as int)),
            sum <= 100,
        decreases n - i,
    {
        let (_, percentage) = thresholds.at(i);
        proof {
            assert(all.take(i as int + 1).drop_last() =~= all.take(i as int));
        }
        sum = sum + (*percentage as u64);
        if sum > 100 {
            proof {
                lemma_percentages_grow(all, i as int + 1);
            }
            return false;
        }
        i += 1;
    }
    proof {
        assert(all.take(i as int) =~= all);
    }
    if sum < 1 {
        return false;
    }
    let mut j: usize = 0;
    while j < n
        invariant
            j <= n,
            n == all.len(),
            all == thresholds.in_order(),
            forall|i: int| 0 <= i < j ==> 1 <= (#[trigger] all[i]).0 <= number_of_numbers,
        decreases n - j,
    {
        let (threshold_number, _) = thresholds.at(j);
        if threshold_number < 1 || threshold_number > number_of_numbers {
            return false;
        }
        j += 1;
    }
    true
}

/// The wins among the tickets of one player, in the order of the tickets:
/// a ticket wins where a threshold asks for as many matches as it has.
pub open spec fn wins_of_tickets(
    who: Identity,
    tickets: Seq<Vec<u32>>,
    drawn: Seq<u32>,
    counted: Set<u32>,
) -> Seq<Win>
    decreases tickets.len(),
{
    if tickets.len() == 0 {
        Seq::<Win>::empty()
    } else {
        let rest = wins_of_tickets(who, tickets.drop_last(), drawn, counted);
        let m = matches(drawn, tickets.last()@) as u32;
        if counted.contains(m) {
            rest.push(Win { matches: m, player: who })
        } else {
            rest
        }
    }
}

/// The wins among the tickets of all players, player after player.
pub open spec fn wins_of(
    players: Seq<(Identity, Vec<Vec<u32>>)>,
    drawn: Seq<u32>,
    counted: Set<u32>,
) -> Seq<Win>
    decreases players.len(),
{
    if players.len() == 0 {
        Seq::<Win>::empty()
    } else {
        wins_of(players.drop_last(), drawn, counted) + wins_of_tickets(
            players.last().0,
            players.last().1@,
            drawn,
            counted,
        )
    }
}

/// Every win is for a number of matches that a threshold asks for.
pub proof fn lemma_wins_counted(
    players: Seq<(Identity, Vec<Vec<u32>>)>,
    drawn: Seq<u32>,
    counted: Set<u32>,
)
    ensures
        forall|i: int|
            0 <= i < wins_of(players, drawn, counted).len() ==> counted.contains(
                (#[trigger] wins_of(players, drawn, counted)[i]).matches,
            ),
    decreases players.len(),
{
    if players.len() > 0 {
        lemma_wins_counted(players.drop_last(), drawn, counted);
        lemma_ticket_wins_counted(players.last().0, players.last().1@, drawn, counted);
        let earlier = wins_of(players.drop_last(), drawn, counted);
        let last = wins_of_tickets(players.last().0, players.last().1@, drawn, counted);
        let all = wins_of(players, drawn, counted);
        assert forall|i: int| 0 <= i < all.len() implies counted.contains(
            (#[trigger] all[i]).matches,
        ) by {
            if i < earlier.len() {
                assert(all[i] == earlier[i]);
            } else {
                assert(all[i] == last[i - earlier.len()]);
            }
        }
    }
}

/// Every win of a player is for a number of matches that a threshold asks
/// for.
pub proof fn lemma_ticket_wins_counted(
    who: Identity,
    tickets: Seq<Vec<u32>>,
    drawn: Seq<u32>,
    counted: Set<u32>,
)
    ensures
        forall|i: int|
            0 <= i < wins_of_tickets(who, tickets, drawn, counted).len() ==> counted.contains(
                (#[trigger] wins_of_tickets(who, tickets, drawn, counted)[i]).matches,
            ),
    decreases tickets.len(),
{
    if tickets.len() > 0 {
        lemma_ticket_wins_counted(who, tickets.drop_last(), drawn, counted);
        let rest = wins_of_tickets(who, tickets.drop_last(), drawn, counted);
        let all = wins_of_tickets(who, tickets, drawn, counted);
        assert forall|i: int| 0 <= i < all.len() implies counted.contains(
            (#[trigger] all[i]).matches,
        ) by {
            if i < rest.len() {
                assert(all[i] == rest[i]);
            }
        }
    }
}

/// The winning tickets: for each player in turn and each of its tickets in
/// turn, the ticket wins where it matches as many of the drawn numbers as
/// one of the thresholds asks for.
pub fn get_winners(
    drawn_numbers: &Vec<u32>,
    tickets: &SortedMap<Identity, Vec<Vec<u32>>>,
    thresholds: &SortedMap<u32, u32>,
) -> (r: Vec<Win>)
    requires
        drawn_numbers@.len() <= u32::MAX,
    ensures
        r@ == wins_of(tickets.in_order(), drawn_numbers@, thresholds@.dom()),
        forall|i: int| 0 <= i < r@.len() ==> thresholds@.dom().contains((#[trigger] r@[i]).matches),
{
    let ghost players = tickets.in_order();
    let ghost drawn = drawn_numbers@;
    let ghost counted = thresholds@.dom();
    let n = tickets.len();
    let mut wins: Vec<Win> = Vec::new();
    let mut i: usize = 0;
    while i < n
        invariant
            i <= n,
            n == players.len(),
            players == tickets.in_order(),
            drawn == drawn_numbers@,
            drawn.len() <= u32::MAX,
            counted == thresholds@.dom(),
            wins@ == wins_of(players.take(i as int), drawn, counted),
        decreases n - i,
    {
        let (ticket_address, list) = tickets.at(i);
        let ghost so_far = wins@;
        let mut j: usize = 0;
        while j < list.len()
            invariant
                j <= list.len(),
                drawn == drawn_numbers@,
                drawn.len() <= u32::MAX,
                counted == thresholds@.dom(),
                wins@ == so_far + wins_of_tickets(
                    ticket_address,
                    list@.take(j as int),
                    drawn,
                    counted,
                ),
            decreases list.len() - j,
        {
            let count = count_matches(drawn_numbers, &list[j]);
            proof {
                assert(list@.take(j as int + 1).drop_last() =~= list@.take(j as int));
                lemma_matches_bound(drawn, list@[j as int]@);
            }
            if thresholds.contains_key(count) {
                wins.push(Win { matches: count, player: ticket_address });
                proof {
                    assert(wins@ =~= so_far + wins_of_tickets(
                        ticket_address,
                        list@.take(j as int + 1),
                        drawn,
                        counted,
                    ));
                }
            }
            j += 1;
        }
        proof {
            assert(list@.take(j as int) =~= list@);
            assert(players.take(i as int + 1).drop_last() =~= players.take(i as int));
        }
        i += 1;
    }
    proof {
        assert(players.take(i as int) =~= players);
        lemma_wins_counted(players, drawn, counted);
    }
    wins
}

/// The players among the wins that matched `count` numbers, in the order
/// of the wins.
pub open spec fn players_with(wins: Seq<Win>, count: u32) -> Seq<Identity>
    decreases wins.len(),
{
    if wins.len() == 0 {
        Seq::<Identity>::empty()
    } else if wins.last().matches == count {
        players_with(wins.drop_last(), count).push(wins.last().player)
    } else {
        players_with(wins.drop_last(), count)
    }
}

/// The players whose tickets matched `count` numbers, once per ticket.
pub fn winners_with(wins: &Vec<Win>, count: u32) -> (r: Vec<Identity>)
    ensures
        r@ == players_with(wins@, count),
{
    let mut out: Vec<Identity> = Vec::new();
    let mut i: usize = 0;
    while i < wins.len()
        invariant
            i <= wins.len(),
            out@ == players_with(wins@.take(i as int), count),
        decreases wins.len() - i,
    {
        proof {
            assert(wins@.take(i as int + 1).drop_last() =~= wins@.take(i as int));
        }
        if wins[i].matches == count {
            out.push(wins[i].player);
        }
        i += 1;
    }
    proof {
        assert(wins@.take(i as int) =~= wins@);
    }
    out
}

/// How many wins matched `count` numbers.
pub open spec fn won(wins: Seq<Win>, count: u32) -> nat {
    players_with(wins, count).len()
}

/// There are no more wins for a number of matches than wins at all, and at
/// least one for the number of matches of each win.
pub proof fn lemma_won(wins: Seq<Win>, count: u32)
    ensures
        won(wins, count) <= wins.len(),
        forall|i: int| 0 <= i < wins.len() && (#[trigger] wins[i]).matches == count ==> won(
            wins,
            count,
        ) >= 1,
    decreases wins.len(),
{
    if wins.len() > 0 {
        lemma_won(wins.drop_last(), count);
        assert forall|i: int| 0 <= i < wins.len() && (#[trigger] wins[i]).matches
            == count implies won(wins, count) >= 1 by {
            if i < wins.len() - 1 {
                assert(wins.drop_last()[i] == wins[i]);
            }
        }
    }
}

/// The percentages of the pool that the wins claim together: for each win
/// the percentage of its threshold.
pub open spec fn total_percentage(wins: Seq<Win>, thresholds: Map<u32, u32>) -> int
    decreases wins.len(),
{
    if wins.len() == 0 {
        0
    } else {
        total_percentage(wins.drop_last(), thresholds) + thresholds[wins.last().matches]
    }
}

/// The percentages of the pool that the wins claim together.
pub fn count_total_prizes_percentage(wins: &Vec<Win>, thresholds: &SortedMap<u32, u32>) -> (r: u128)
    requires
        forall|i: int| 0 <= i < wins@.len() ==> thresholds@.dom().contains((#[trigger] wins@[i]).matches),
    ensures
        r == total_percentage(wins@, thresholds@),
{
    let mut total: u128 = 0;
    let mut i: usize = 0;
    while i < wins.len()
        invariant
            i <= wins.len(),
            forall|i: int|
                0 <= i < wins@.len() ==> thresholds@.dom().contains((#[trigger] wins@[i]).matches),
            total == total_percentage(wins@.take(i as int), thresholds@),
            total <= i * 0xffff_ffff,
        decreases wins.len() - i,
    {
        proof {
            assert(wins@.take(i as int + 1).drop_last() =~= wins@.take(i as int));
            assert(thresholds@.dom().contains(wins@[i as int].matches));
            assert((i + 1) * 0xffff_ffff == i * 0xffff_ffff + 0xffff_ffff) by (nonlinear_arith);
            assert(i * 0xffff_ffff <= 0xffff_ffff_ffff_ffff * 0xffff_ffff) by (nonlinear_arith)
                requires
                    i <= 0xffff_ffff_ffff_ffff,
            ;
        }
        let percentage: u32 = match thresholds.get(wins[i].matches) {
            Some(p) => *p,
            None => 0,
        };
        total = total + (percentage as u128);
        i += 1;
    }
    proof {
        assert(wins@.take(i as int) =~= wins@);
    }
    total
}

/// The percentage of a threshold after the thresholds have been brought
/// down to share the pool: what the wins of the threshold claim together,
/// as a share of all claims, divided evenly among them.
pub open spec fn lowered(percentage: u32, count: nat, total: int) -> int {
    ((count * percentage * 100) / total) / (count as int)
}

/// Bringing a threshold down does not raise it.
pub proof fn lemma_lowered(percentage: u32, count: nat, total: int)
    requires
        count > 0,
        total > 100,
    ensures
        0 <= (count * percentage * 100) / total <= count * percentage,
        0 <= lowered(percentage, count, total) <= percentage,
{
    let claim = count * percentage * 100;
    let c = count as int;
    assert(claim == 100 * (c * percentage) && claim >= 0 && c * percentage >= 0) by (nonlinear_arith)
        requires
            claim == count * percentage * 100,
            c == count,
            c > 0,
            percentage >= 0,
    ;
    vstd::arithmetic::div_mod::lemma_div_is_ordered_by_denominator(claim, 100, total);
    vstd::arithmetic::div_mod::lemma_div_multiples_vanish(c * percentage, 100);
    vstd::arithmetic::div_mod::lemma_div_pos_is_pos(claim, total);
    let share = claim / total;
    vstd::arithmetic::div_mod::lemma_div_is_ordered(share, c * percentage, c);
    vstd::arithmetic::div_mod::lemma_div_multiples_vanish(percentage as int, c);
    vstd::arithmetic::div_mod::lemma_div_pos_is_pos(share, c);
}

/// The thresholds after the wins have been counted. Where the wins claim
/// more than the whole pool, only the thresholds that have a win stay, each
/// brought down; else the thresholds stay as they are.
pub open spec fn recalculated(thresholds: Map<u32, u32>, wins: Seq<Win>, total: int) -> Map<
    u32,
    u32,
> {
    if total > 100 {
        Map::new(
            |k: u32| thresholds.dom().contains(k) && won(wins, k) > 0,
            |k: u32| lowered(thresholds[k], won(wins, k), total) as u32,
        )
    } else {
        thresholds
    }
}

/// Brings the thresholds down where the wins claim more than the whole
/// pool: a threshold without a win goes, and the others get the share of
/// their claims among all claims, divided evenly among their wins.
pub fn recalculate_new_thresholds(
    wins: &Vec<Win>,
    thresholds: &mut SortedMap<u32, u32>,
    total_prizes_percentage: u128,
)
    ensures
        final(thresholds)@ == recalculated(
            old(thresholds)@,
            wins@,
            total_prizes_percentage as int,
        ),
{
    if total_prizes_percentage <= 100 {
        return ;
    }
    let total = total_prizes_percentage;
    let count = thresholds.len();
    let keys = thresholds.keys();
    let ghost before = thresholds@;
    let ghost entries = thresholds.in_order();
    proof {
        assert forall|a: int, b: int| 0 <= a < keys@.len() && 0 <= b < keys@.len() && a
            != b implies keys@[a] != keys@[b] by {
            if a < b {
                assert(entries[a].0.rank() < entries[b].0.rank());
            } else {
                assert(entries[b].0.rank() < entries[a].0.rank());
            }
        }
    }
    let mut i: usize = 0;
    while i < keys.len()
        invariant
            i <= keys.len(),
            total > 100,
            before == table_of(entries),
            keys@ == keys_of(entries),
            keys@.no_duplicates(),
            forall|k: u32| #[trigger]
                thresholds@.dom().contains(k) <==> (before.dom().contains(k) && (keys@.take(
                    i as int,
                ).contains(k) ==> won(wins@, k) > 0)),
            forall|k: u32| #[trigger]
                thresholds@.dom().contains(k) ==> thresholds@[k] == (if keys@.take(
                    i as int,
                ).contains(k) {
                    lowered(before[k], won(wins@, k), total as int) as u32
                } else {
                    before[k]
                }),
        decreases keys.len() - i,
    {
        let threshold_number = keys[i];
        let ghost reached = keys@.take(i as int);
        proof {
            assert(keys@.take(i as int + 1) =~= reached.push(threshold_number));
            assert(!reached.contains(threshold_number)) by {
                if reached.contains(threshold_number) {
                    let j = choose|j: int| 0 <= j < reached.len() && reached[j] == threshold_number;
                    assert(keys@[j] == keys@[i as int]);
                }
            }
            assert(keys@.contains(threshold_number)) by {
                assert(keys@[i as int] == threshold_number);
            }
            assert(before.dom().contains(threshold_number));
            assert forall|k: u32| keys@.take(i as int + 1).contains(k) <==> (k == threshold_number
                || reached.contains(k)) by {
                if reached.push(threshold_number).contains(k) {
                    let j = choose|j: int|
                        0 <= j < reached.push(threshold_number).len() && reached.push(
                            threshold_number,
                        )[j] == k;
                    if j < reached.len() {
                        assert(reached[j] == k);
                    }
                }
                if reached.contains(k) {
                    let j = choose|j: int| 0 <= j < reached.len() && reached[j] == k;
                    assert(reached.push(threshold_number)[j] == k);
                }
                if k == threshold_number {
                    assert(reached.push(threshold_number)[reached.len() as int] == k);
                }
            }
            lemma_won(wins@, threshold_number);
        }
        let winners_count = winners_with(wins, threshold_number).len();
        if winners_count > 0 {
            let threshold_percentage: u32 = match thresholds.get(threshold_number) {
                Some(p) => *p,
                None => 0,
            };
            proof {
                lemma_lowered(threshold_percentage, winners_count as nat, total as int);
                assert(winners_count * threshold_percentage * 100 <= 0xffff_ffff_ffff_ffff
                    * 0xffff_ffff * 100) by (nonlinear_arith)
                    requires
                        0 <= winners_count <= 0xffff_ffff_ffff_ffff,
                        0 <= threshold_percentage <= 0xffff_ffff,
                ;
                assert(winners_count * threshold_percentage <= 0xffff_ffff_ffff_ffff
                    * 0xffff_ffff) by (nonlinear_arith)
                    requires
                        0 <= winners_count <= 0xffff_ffff_ffff_ffff,
                        0 <= threshold_percentage <= 0xffff_ffff,
                ;
            }
            let claim: u128 = (winners_count as u128) * (threshold_percentage as u128) * 100;
            let val: u128 = claim / total;
            let each: u128 = val / (winners_count as u128);
            thresholds.set(threshold_number, each as u32);
        } else {
            thresholds.remove(threshold_number);
        }
        i += 1;
    }
    proof {
        assert(keys@.take(i as int) =~= keys@);
        assert(thresholds@ =~= recalculated(before, wins@, total as int)) by {
            assert forall|k: u32| before.dom().contains(k) implies keys@.contains(k) by {}
        }
    }
}

/// What a win gets of a pool at a percentage, rounded down.
pub open spec fn prize(pool: i128, percentage: u32) -> int {
    (pool * percentage) / 100
}

/// The prizes after `amount` more has gone to `who`.
pub open spec fn credited(prizes: Map<Identity, i128>, who: Identity, amount: int) -> Map<
    Identity,
    i128,
> {
    prizes.insert(
        who,
        ((if prizes.dom().contains(who) {
            prizes[who] as int
        } else {
            0
        }) + amount) as i128,
    )
}

/// What each player gets for its wins: for each win the percentage of its
/// threshold of the pool.
pub open spec fn prizes_of(wins: Seq<Win>, thresholds: Map<u32, u32>, pool: i128) -> Map<
    Identity,
    i128,
>
    decreases wins.len(),
{
    if wins.len() == 0 {
        Map::empty()
    } else {
        credited(
            prizes_of(wins.drop_last(), thresholds, pool),
            wins.last().player,
            prize(pool, thresholds[wins.last().matches]),
        )
    }
}

/// Whether a pool can be shared among so many wins without leaving the
/// range of amounts: it is not negative, and a hundred pools, or as many
/// pools as there are wins, still fit a word.
pub open spec fn pool_fits(pool: i128, wins: nat) -> bool {
    &&& 0 <= pool
    &&& pool * 100 <= i128::MAX
    &&& wins * pool <= i128::MAX
}

/// The prizes of the players: the thresholds are brought down where the
/// wins claim more than the whole pool, and every win gets the percentage
/// of its threshold of the pool.
pub fn calculate_prizes(wins: &Vec<Win>, thresholds: &mut SortedMap<u32, u32>, pool: i128) -> (r:
    SortedMap<Identity, i128>)
    requires
        forall|i: int|
            0 <= i < wins@.len() ==> old(thresholds)@.dom().contains((#[trigger] wins@[i]).matches),
        forall|k: u32| old(thresholds)@.dom().contains(k) ==> #[trigger] old(thresholds)@[k] <= 100,
        pool_fits(pool, wins@.len()),
    ensures
        final(thresholds)@ == recalculated(
            old(thresholds)@,
            wins@,
            total_percentage(wins@, old(thresholds)@),
        ),
        r@ == prizes_of(wins@, final(thresholds)@, pool),
{
    let ghost before = thresholds@;
    let total_prizes_percentage = count_total_prizes_percentage(wins, thresholds);
    recalculate_new_thresholds(wins, thresholds, total_prizes_percentage);
    let ghost after = thresholds@;
    proof {
        assert forall|i: int| 0 <= i < wins@.len() implies after.dom().contains(
            (#[trigger] wins@[i]).matches,
        ) && after[wins@[i].matches] <= 100 by {
            let k = wins@[i].matches;
            lemma_won(wins@, k);
            if total_prizes_percentage > 100 {
                lemma_lowered(before[k], won(wins@, k), total_prizes_percentage as int);
            }
        }
    }
    let mut prizes: SortedMap<Identity, i128> = SortedMap::new();
    let mut i: usize = 0;
    while i < wins.len()
        invariant
            i <= wins.len(),
            after == thresholds@,
            pool_fits(pool, wins@.len()),
            forall|i: int|
                0 <= i < wins@.len() ==> after.dom().contains((#[trigger] wins@[i]).matches)
                    && after[wins@[i].matches] <= 100,
            prizes@ == prizes_of(wins@.take(i as int), after, pool),
            forall|who: Identity| prizes@.dom().contains(who) ==> 0 <= #[trigger] prizes@[who] <= i * pool,
        decreases wins.len() - i,
    {
        let win = wins[i];
        proof {
            assert(wins@.take(i as int + 1).drop_last() =~= wins@.take(i as int));
            assert(after.dom().contains(wins@[i as int].matches));
        }
        let pool_percentage: u32 = match thresholds.get(win.matches) {
            Some(p) => *p,
            None => 0,
        };
        proof {
            assert(0 <= pool * pool_percentage <= pool * 100) by (nonlinear_arith)
                requires
                    0 <= pool,
                    0 <= pool_percentage <= 100,
            ;
            vstd::arithmetic::div_mod::lemma_div_is_ordered(pool * pool_percentage, pool * 100, 100);
            vstd::arithmetic::div_mod::lemma_div_multiples_vanish(pool as int, 100);
            vstd::arithmetic::div_mod::lemma_div_pos_is_pos(pool * pool_percentage, 100);
            assert(pool * 100 == 100 * pool) by (nonlinear_arith);
            assert((i + 1) * pool == i * pool + pool) by (nonlinear_arith);
            assert((i + 1) * pool <= wins@.len() * pool) by (nonlinear_arith)
                requires
                    i + 1 <= wins@.len(),
                    pool >= 0,
            ;
        }
        let won_here: i128 = pool * (pool_percentage as i128) / 100;
        let current_player_prize: i128 = match prizes.get(win.player) {
            Some(p) => *p,
            None => 0,
        };
        proof {
            assert(i * pool >= 0) by (nonlinear_arith)
                requires
                    pool >= 0,
                    i >= 0,
            ;
        }
        prizes.set(win.player, current_player_prize + won_here);
        i += 1;
    }
    proof {
        assert(wins@.take(i as int) =~= wins@);
    }
    prizes
}

/// The transfers that pay the prizes out, player after player.
pub open spec fn payouts(prizes: Seq<(Identity, i128)>) -> Seq<Effect> {
    prizes.map_values(|p: (Identity, i128)| Effect::TransferOut { to: p.0, amount: p.1 })
}

/// The announcements of the prizes, player after player.
pub open spec fn announcements(prizes: Seq<(Identity, i128)>) -> Seq<Effect> {
    prizes.map_values(|p: (Identity, i128)| Effect::WonPrize { player: p.0, prize: p.1 })
}

/// What paying the prizes out asks of the host: a transfer out of the pool
/// to each player that won, in the order of the players.
pub fn payout_prizes(prizes: &SortedMap<Identity, i128>) -> (r: Vec<Effect>)
    ensures
        r@ == payouts(prizes.in_order()),
{
    let n = prizes.len();
    let ghost all = prizes.in_order();
    let mut effects: Vec<Effect> = Vec::new();
    let mut i: usize = 0;
    while i < n
        invariant
            i <= n,
            n == all.len(),
            all == prizes.in_order(),
            effects@ == payouts(all.take(i as int)),
        decreases n - i,
    {
        let (address, prize) = prizes.at(i);
        effects.push(Effect::TransferOut { to: address, amount: *prize });
        assert(effects@ =~= payouts(all.take(i as int + 1)));
        i += 1;
    }
    assert(all.take(i as int) =~= all);
    effects
}

/// The announcements of the prizes, in the order of the players.
pub fn announce_prizes(prizes: &SortedMap<Identity, i128>) -> (r: Vec<Effect>)
    ensures
        r@ == announcements(prizes.in_order()),
{
    let n = prizes.len();
    let ghost all = prizes.in_order();
    let mut effects: Vec<Effect> = Vec::new();
    let mut i: usize = 0;
    while i < n
        invariant
            i <= n,
            n == all.len(),
            all == prizes.in_order(),
            effects@ == announcements(all.take(i as int)),
        decreases n - i,
    {
        let (address, prize) = prizes.at(i);
        effects.push(Effect::WonPrize { player: address, prize: *prize });
        assert(effects@ =~= announcements(all.take(i as int + 1)));
        i += 1;
    }
    assert(all.take(i as int) =~= all);
    effects
}

/// The lottery: its settings, the tickets sold, and the numbers drawn in
/// the lotteries played so far.
#[derive(Debug)]
pub struct LotteryContract {
    /// Where the lottery stands; nothing before set-up.
    pub state: Option<LotteryState>,
    pub admin: Identity,
    pub token: Identity,
    pub ticket_price: i128,
    /// The number of the lottery that is open or was played last.
    pub lottery_number: u32,
    /// How many numbers a ticket picks and a draw draws.
    pub number_of_numbers: u32,
    /// The numbers go from 1 to this.
    pub max_range: u32,
    /// For a number of matches, the percentage of the pool that a ticket
    /// with so many matches gets.
    pub thresholds: SortedMap<u32, u32>,
    /// How many players a lottery needs.
    pub min_players_count: u32,
    /// The tickets of each player, in the order in which it bought them.
    pub tickets: SortedMap<Identity, Vec<Vec<u32>>>,
    /// The numbers drawn, by number of the lottery.
    pub results: SortedMap<u32, Vec<u32>>,
}

/// Why a lottery cannot be opened, if it cannot.
pub open spec fn creation_error(
    state: Option<LotteryState>,
    ticket_price: i128,
    number_of_numbers: u32,
    max_range: u32,
    thresholds: Seq<(u32, u32)>,
) -> Option<Error> {
    if state is None {
        Some(Error::NotInitialized)
    } else if state == Some(LotteryState::Active) {
        Some(Error::AlreadyActive)
    } else if max_range < number_of_numbers {
        Some(Error::MaxRangeTooLow)
    } else if number_of_numbers < 2 {
        Some(Error::NumberOfNumbersTooLow)
    } else if thresholds.len() < 1 {
        Some(Error::NumberOfThresholdsTooLow)
    } else if ticket_price <= 0 {
        Some(Error::InvalidTicketPrice)
    } else if !valid_thresholds(thresholds, number_of_numbers) {
        Some(Error::InvalidThresholds)
    } else {
        None
    }
}

/// Why no lottery is open, if none is.
pub open spec fn activity_error(state: Option<LotteryState>) -> Option<Error> {
    if state is None {
        Some(Error::NotInitialized)
    } else if state != Some(LotteryState::Active) {
        Some(Error::NotActive)
    } else {
        None
    }
}

/// Whether every number of a ticket lies between 1 and `max_range`.
pub open spec fn numbers_in_range(ticket: Seq<u32>, max_range: u32) -> bool {
    forall|i: int| 0 <= i < ticket.len() ==> 1 <= #[trigger] ticket[i] <= max_range
}

/// The tickets of a player so far.
pub open spec fn tickets_of(tickets: Map<Identity, Vec<Vec<u32>>>, by: Identity) -> Seq<Vec<u32>> {
    if tickets.dom().contains(by) {
        tickets[by]@
    } else {
        Seq::empty()
    }
}

/// The effects of opening a lottery.
pub open spec fn opening(
    admin: Identity,
    lottery_number: u32,
    number_of_numbers: u32,
    max_range: u32,
    ticket_price: i128,
) -> Seq<Effect> {
    seq![
        Effect::Authorize(admin),
        Effect::LotteryCreated { lottery_number, number_of_numbers, max_range, ticket_price },
    ]
}

/// A list with the same numbers.
pub fn copy_numbers(list: &Vec<u32>) -> (r: Vec<u32>)
    ensures
        r@ == list@,
{
    let mut out: Vec<u32> = Vec::new();
    let mut i: usize = 0;
    while i < list.len()
        invariant
            i <= list.len(),
            out@ == list@.take(i as int),
        decreases list.len() - i,
    {
        out.push(list[i]);
        assert(out@ =~= list@.take(i as int + 1));
        i += 1;
    }
    assert(out@ =~= list@);
    out
}

impl LotteryContract {
    /// A lottery that has not been set up: in no state, with the account of
    /// key zero in the place of admin and asset, every number at zero, and
    /// without thresholds, tickets or results.
    pub fn new() -> (r: LotteryContract)
        ensures
            r.state is None,
            r.admin == (Identity { program: false, hi: 0, lo: 0 }),
            r.token == (Identity { program: false, hi: 0, lo: 0 }),
            r.ticket_price == 0,
            r.lottery_number == 0,
            r.number_of_numbers == 0,
            r.max_range == 0,
            r.min_players_count == 0,
            r.tickets@ == Map::<Identity, Vec<Vec<u32>>>::empty(),
            r.tickets.in_order() == Seq::<(Identity, Vec<Vec<u32>>)>::empty(),
            r.results@ == Map::<u32, Vec<u32>>::empty(),
            r.results.in_order() == Seq::<(u32, Vec<u32>)>::empty(),
            r.thresholds@ == Map::<u32, u32>::empty(),
            r.thresholds.in_order() == Seq::<(u32, u32)>::empty(),
    {
        let nobody = Identity { program: false, hi: 0, lo: 0 };
        LotteryContract {
            state: None,
            admin: nobody,
            token: nobody,
            ticket_price: 0,
            lottery_number: 0,
            number_of_numbers: 0,
            max_range: 0,
            thresholds: SortedMap::new(),
            min_players_count: 0,
            tickets: SortedMap::new(),
            results: SortedMap::new(),
        }
    }

    fn check_creation(
        state: Option<LotteryState>,
        ticket_price: i128,
        number_of_numbers: u32,
        max_range: u32,
        thresholds: &SortedMap<u32, u32>,
    ) -> (r: Option<Error>)
        ensures
            r == creation_error(
                state,
                ticket_price,
                number_of_numbers,
                max_range,
                thresholds.in_order(),
            ),
    {
        match state {
            None => {
                return Some(Error::NotInitialized);
            },
            Some(LotteryState::Active) => {
                return Some(Error::AlreadyActive);
            },
            Some(_) => {},
        }
        if max_range < number_of_numbers {
            return Some(Error::MaxRangeTooLow);
        }
        if number_of_numbers < 2 {
            return Some(Error::NumberOfNumbersTooLow);
        }
        if thresholds.len() < 1 {
            return Some(Error::NumberOfThresholdsTooLow);
        }
        if ticket_price <= 0 {
            return Some(Error::InvalidTicketPrice);
        }
        if !check_thresholds(thresholds, number_of_numbers) {
            return Some(Error::InvalidThresholds);
        }
        None
    }

    fn open(
        &mut self,
        ticket_price: i128,
        number_of_numbers: u32,
        max_range: u32,
        thresholds: SortedMap<u32, u32>,
        min_players_count: u32,
    ) -> (r: (u32, Vec<Effect>))
        requires
            old(self).lottery_number < u32::MAX,
        ensures
            r.0 == old(self).lottery_number + 1,
            r.1@ == opening(old(self).admin, r.0, number_of_numbers, max_range, ticket_price),
            final(self).state == Some(LotteryState::Active),
            final(self).admin == old(self).admin,
            final(self).token == old(self).token,
            final(self).ticket_price == ticket_price,
            final(self).lottery_number == r.0,
            final(self).number_of_numbers == number_of_numbers,
            final(self).max_range == max_range,
            final(self).thresholds == thresholds,
            final(self).min_players_count == min_players_count,
            final(self).tickets@ == Map::<Identity, Vec<Vec<u32>>>::empty(),
            final(self).results == old(self).results,
    {
        let lottery_number = self.lottery_number + 1;
        self.number_of_numbers = number_of_numbers;
        self.max_range = max_range;
        self.thresholds = thresholds;
        self.min_players_count = min_players_count;
        self.ticket_price = ticket_price;
        self.tickets = SortedMap::new();
        self.state = Some(LotteryState::Active);
        self.lottery_number = lottery_number;
        let mut effects: Vec<Effect> = Vec::new();
        effects.push(Effect::Authorize(self.admin));
        effects.push(
            Effect::LotteryCreated { lottery_number, number_of_numbers, max_range, ticket_price },
        );
        assert(effects@ =~= opening(
            self.admin,
            lottery_number,
            number_of_numbers,
            max_range,
            ticket_price,
        ));
        (lottery_number, effects)
    }

    /// Sets the program up, once, and opens its first lottery. The admin
    /// must have authorized it.
    ///
    /// Fails, changing nothing, with `AlreadyInitialized` on a program that
    /// is set up, and as `create_lottery` does.
    pub fn init(
        &mut self,
        admin: Identity,
        token: Identity,
        ticket_price: i128,
        number_of_numbers: u32,
        max_range: u32,
        thresholds: SortedMap<u32, u32>,
        min_players_count: u32,
    ) -> (r: Result<Vec<Effect>, Error>)
        requires
            old(self).lottery_number < u32::MAX,
        ensures
            r is Err ==> *final(self) == *old(self),
            old(self).state is Some ==> r is Err && r->Err_0 == Error::AlreadyInitialized,
            old(self).state is None ==> {
                let e = creation_error(
                    Some(LotteryState::Initialized),
                    ticket_price,
                    number_of_numbers,
                    max_range,
                    thresholds.in_order(),
                );
                &&& e is Some ==> r is Err && r->Err_0 == e->0
                &&& e is None ==> r is Ok && r->Ok_0@ == seq![Effect::Authorize(admin)] + opening(
                    admin,
                    (old(self).lottery_number + 1) as u32,
                    number_of_numbers,
                    max_range,
                    ticket_price,
                ) && final(self).state == Some(LotteryState::Active) && final(self).admin == admin
                    && final(self).token == token && final(self).ticket_price == ticket_price
                    && final(self).lottery_number == old(self).lottery_number + 1 && final(self).number_of_numbers == number_of_numbers && final(self).max_range == max_range
                    && final(self).thresholds == thresholds && final(self).min_players_count
                    == min_players_count && final(self).tickets@ == Map::<
                    Identity,
                    Vec<Vec<u32>>,
                >::empty() && final(self).results == old(self).results
            },
    {
        if self.state.is_some() {
            return Err(Error::AlreadyInitialized);
        }
        match Self::check_creation(
            Some(LotteryState::Initialized),
            ticket_price,
            number_of_numbers,
            max_range,
            &thresholds,
        ) {
            Some(e) => {
                return Err(e);
            },
            None => {},
        }
        self.admin = admin;
        self.token = token;
        self.state = Some(LotteryState::Initialized);
        let (_, mut opened) = self.open(
            ticket_price,
            number_of_numbers,
            max_range,
            thresholds,
            min_players_count,
        );
        let mut effects: Vec<Effect> = Vec::new();
        effects.push(Effect::Authorize(admin));
        effects.append(&mut opened);
        Ok(effects)
    }

    /// Opens a new lottery, after the last one has been played: with a new
    /// price, new numbers to pick and new thresholds, and without tickets;
    /// the pool is carried over. The number of the lottery is returned. The
    /// admin must have authorized it.
    ///
    /// Fails, changing nothing: with `NotInitialized`; with `AlreadyActive`
    /// while a lottery is open; with `MaxRangeTooLow` where the range is
    /// smaller than the number of numbers; with `NumberOfNumbersTooLow`
    /// where fewer than two numbers are picked; with
    /// `NumberOfThresholdsTooLow` without thresholds; with
    /// `InvalidTicketPrice` unless the price is positive; with
    /// `InvalidThresholds` unless the percentages add up to between 1 and
    /// 100 and every threshold asks for between one match and as many as
    /// numbers are picked.
    pub fn create_lottery(
        &mut self,
        ticket_price: i128,
        number_of_numbers: u32,
        max_range: u32,
        thresholds: SortedMap<u32, u32>,
        min_players_count: u32,
    ) -> (r: Result<(u32, Vec<Effect>), Error>)
        requires
            old(self).lottery_number < u32::MAX,
        ensures
            r is Err ==> *final(self) == *old(self),
            ({
                let e = creation_error(
                    old(self).state,
                    ticket_price,
                    number_of_numbers,
                    max_range,
                    thresholds.in_order(),
                );
                &&& e is Some ==> r is Err && r->Err_0 == e->0
                &&& e is None ==> r is Ok && r->Ok_0.0 == old(self).lottery_number + 1
                    && r->Ok_0.1@ == opening(
                    old(self).admin,
                    r->Ok_0.0,
                    number_of_numbers,
                    max_range,
                    ticket_price,
                ) && final(self).state == Some(LotteryState::Active) && final(self).admin == old(self).admin && final(self).token == old(self).token && final(self).ticket_price
                    == ticket_price && final(self).lottery_number == r->Ok_0.0 && final(self).number_of_numbers == number_of_numbers && final(self).max_range == max_range
                    && final(self).thresholds == thresholds && final(self).min_players_count
                    == min_players_count && final(self).tickets@ == Map::<
                    Identity,
                    Vec<Vec<u32>>,
                >::empty() && final(self).results == old(self).results
            }),
    {
        match Self::check_creation(
            self.state,
            ticket_price,
            number_of_numbers,
            max_range,
            &thresholds,
        ) {
            Some(e) => {
                return Err(e);
            },
            None => {},
        }
        Ok(self.open(ticket_price, number_of_numbers, max_range, thresholds, min_players_count))
    }

    /// What an invocation on behalf of `by` asks of the host: its
    /// authorization.
    pub fn register(by: Identity) -> (r: Vec<Effect>)
        ensures
            r@ == seq![Effect::Authorize(by)],
    {
        let mut effects: Vec<Effect> = Vec::new();
        effects.push(Effect::Authorize(by));
        assert(effects@ =~= seq![Effect::Authorize(by)]);
        effects
    }

    /// Fails with `NotInitialized` before set-up and with `NotActive`
    /// unless a lottery is open.
    pub fn lottery_must_be_active(&self) -> (r: Result<(), Error>)
        ensures
            activity_error(self.state) is Some ==> r is Err && r->Err_0 == activity_error(
                self.state,
            )->0,
            activity_error(self.state) is None ==> r is Ok,
    {
        match self.state {
            None => Err(Error::NotInitialized),
            Some(LotteryState::Active) => Ok(()),
            Some(_) => Err(Error::NotActive),
        }
    }

    fn check_numbers(ticket: &Vec<u32>, max_range: u32) -> (r: bool)
        ensures
            r == numbers_in_range(ticket@, max_range),
    {
        let mut i: usize = 0;
        while i < ticket.len()
            invariant
                i <= ticket.len(),
                forall|j: int| 0 <= j < i ==> 1 <= #[trigger] ticket@[j] <= max_range,
            decreases ticket.len() - i,
        {
            if ticket[i] == 0 || ticket[i] > max_range {
                return false;
            }
            i += 1;
        }
        true
    }

    /// Why `by` cannot buy the ticket, if it cannot.
    pub open spec fn purchase_error(&self, ticket: Seq<u32>, balance: i128) -> Option<Error> {
        if activity_error(self.state) is Some {
            activity_error(self.state)
        } else if ticket.len() != self.number_of_numbers {
            Some(Error::NotEnoughOrTooManyNumbers)
        } else if !numbers_in_range(ticket, self.max_range) {
            Some(Error::InvalidNumbers)
        } else if balance <= self.ticket_price {
            Some(Error::InsufficientFunds)
        } else {
            None
        }
    }

    /// `by` buys a ticket with the numbers it picked; `balance` is what it
    /// holds on the ledger, which must be more than the price. The number
    /// returned is the number of players.
    ///
    /// Fails, changing nothing: with `NotInitialized`; with `NotActive`
    /// unless a lottery is open; with `NotEnoughOrTooManyNumbers` unless
    /// the ticket has as many numbers as are to be picked; with
    /// `InvalidNumbers` where a number lies outside the range; with
    /// `InsufficientFunds` unless `balance` is more than the price.
    pub fn buy_ticket(&mut self, by: Identity, ticket: Vec<u32>, balance: i128) -> (r: Result<
        (u32, Vec<Effect>),
        Error,
    >)
        requires
            old(self).tickets@.dom().len() < u32::MAX,
        ensures
            r is Err ==> *final(self) == *old(self),
            old(self).purchase_error(ticket@, balance) is Some ==> r is Err && r->Err_0 == old(self).purchase_error(ticket@, balance)->0,
            old(self).purchase_error(ticket@, balance) is None ==> r is Ok && r->Ok_0.1@ == seq![
                Effect::Authorize(by),
                Effect::TransferIn { from: by, amount: old(self).ticket_price },
            ] && r->Ok_0.0 == final(self).tickets@.dom().len() && final(self).tickets@.dom() == old(self).tickets@.dom().insert(by) && final(self).tickets@[by]@ == tickets_of(
                old(self).tickets@,
                by,
            ).push(ticket) && (forall|other: Identity|
                other != by && old(self).tickets@.dom().contains(other) ==> #[trigger] final(self).tickets@[other] == old(self).tickets@[other]) && final(self).state == old(self).state && final(self).admin == old(self).admin && final(self).token == old(self).token
                && final(self).ticket_price == old(self).ticket_price && final(self).lottery_number
                == old(self).lottery_number && final(self).number_of_numbers == old(self).number_of_numbers && final(self).max_range == old(self).max_range && final(self).thresholds == old(self).thresholds && final(self).min_players_count == old(self).min_players_count && final(self).results == old(self).results,
    {
        match self.lottery_must_be_active() {
            Err(e) => {
                return Err(e);
            },
            Ok(_) => {},
        }
        if ticket.len() > u32::MAX as usize || ticket.len() as u32 != self.number_of_numbers {
            return Err(Error::NotEnoughOrTooManyNumbers);
        }
        if !Self::check_numbers(&ticket, self.max_range) {
            return Err(Error::InvalidNumbers);
        }
        let price = self.ticket_price;
        if balance <= price {
            return Err(Error::InsufficientFunds);
        }
        let players_before = self.tickets.len();
        let mut player_selection: Vec<Vec<u32>> = match self.tickets.remove(by) {
            Some(list) => list,
            None => Vec::new(),
        };
        player_selection.push(ticket);
        self.tickets.set(by, player_selection);
        let players = self.tickets.len();
        proof {
            assert(self.tickets@.dom() =~= old(self).tickets@.dom().insert(by));
        }
        let mut effects: Vec<Effect> = Vec::new();
        effects.push(Effect::Authorize(by));
        effects.push(Effect::TransferIn { from: by, amount: price });
        assert(effects@ =~= seq![
            Effect::Authorize(by),
            Effect::TransferIn { from: by, amount: price },
        ]);
        Ok((players as u32, effects))
    }

    /// The pool, which the host reads off the ledger as `balance`. The
    /// admin must have authorized the reading. Fails with `NotInitialized`
    /// before set-up.
    pub fn pool_balance(&self, balance: i128) -> (r: Result<(i128, Vec<Effect>), Error>)
        ensures
            self.state is None ==> r is Err && r->Err_0 == Error::NotInitialized,
            self.state is Some ==> r is Ok && r->Ok_0.0 == balance && r->Ok_0.1@ == seq![
                Effect::Authorize(self.admin),
            ],
    {
        if self.state.is_none() {
            return Err(Error::NotInitialized);
        }
        let mut effects: Vec<Effect> = Vec::new();
        effects.push(Effect::Authorize(self.admin));
        assert(effects@ =~= seq![Effect::Authorize(self.admin)]);
        Ok((balance, effects))
    }

    /// The numbers drawn in the lottery `lottery_number`.
    ///
    /// Fails with `NoLotteryResultsAvailable` before any lottery has been
    /// played, and with `WrongLotteryNumber` where no lottery with this
    /// number has been.
    pub fn check_lottery_results(&self, lottery_number: u32) -> (r: Result<Vec<u32>, Error>)
        ensures
            self.results@.dom().len() == 0 ==> r is Err && r->Err_0
                == Error::NoLotteryResultsAvailable,
            self.results@.dom().len() > 0 && !self.results@.dom().contains(lottery_number) ==> r
                is Err && r->Err_0 == Error::WrongLotteryNumber,
            self.results@.dom().contains(lottery_number) ==> r is Ok && r->Ok_0@
                == self.results@[lottery_number]@,
    {
        if self.results.len() == 0 {
            proof {
                if self.results@.dom().contains(lottery_number) {
                    self.results@.dom().lemma_len0_is_empty();
                }
            }
            return Err(Error::NoLotteryResultsAvailable);
        }
        match self.results.get(lottery_number) {
            Some(numbers) => Ok(copy_numbers(numbers)),
            None => Err(Error::WrongLotteryNumber),
        }
    }

    fn thresholds_within(&self) -> (r: bool)
        ensures
            r == (forall|k: u32|
                self.thresholds@.dom().contains(k) ==> #[trigger] self.thresholds@[k] <= 100),
    {
        let n = self.thresholds.len();
        let ghost all = self.thresholds.in_order();
        let mut i: usize = 0;
        while i < n
            invariant
                i <= n,
                n == all.len(),
                all == self.thresholds.in_order(),
                ordered(all),
                self.thresholds@ == table_of(all),
                forall|j: int| 0 <= j < i ==> (#[trigger] all[j]).1 <= 100,
            decreases n - i,
        {
            let (_, percentage) = self.thresholds.at(i);
            if *percentage > 100 {
                return false;
            }
            i += 1;
        }
        proof {
            assert forall|k: u32| self.thresholds@.dom().contains(k) implies #[trigger] self.thresholds@[k]
                <= 100 by {
                let j = keys_of(all).index_of(k);
                assert(0 <= j < all.len() && keys_of(all)[j] == k);
                crate::sorted::lemma_entry_found(all, j);
            }
        }
        true
    }

    /// Why the lottery cannot be played, if it cannot.
    pub open spec fn play_error(&self) -> Option<Error> {
        if activity_error(self.state) is Some {
            activity_error(self.state)
        } else if self.tickets@.dom().len() < self.min_players_count {
            Some(Error::MinParticipantsNotSatisfied)
        } else if exists|k: u32| self.thresholds@.dom().contains(k) && #[trigger] self.thresholds@[k] > 100 {
            Some(Error::InvalidThresholds)
        } else {
            None
        }
    }

    /// The winning tickets of a draw.
    pub open spec fn wins(&self, drawn: Seq<u32>) -> Seq<Win> {
        wins_of(self.tickets.in_order(), drawn, self.thresholds@.dom())
    }

    /// The prizes of a draw out of a pool: the thresholds are brought down
    /// where the wins claim more than the whole pool, and every win gets
    /// the percentage of its threshold.
    pub open spec fn prizes(&self, drawn: Seq<u32>, pool: i128) -> Map<Identity, i128> {
        prizes_of(
            self.wins(drawn),
            recalculated(
                self.thresholds@,
                self.wins(drawn),
                total_percentage(self.wins(drawn), self.thresholds@),
            ),
            pool,
        )
    }

    /// Plays the lottery with the numbers that were drawn: the winning
    /// tickets share the pool of `pool` by their thresholds, the numbers go
    /// on record under the number of the lottery, and the lottery is
    /// finished. The admin must have authorized it. The prizes are paid
    /// out, then announced, player after player.
    ///
    /// Fails, changing nothing: with `NotInitialized`; with `NotActive`
    /// unless a lottery is open; with `MinParticipantsNotSatisfied` where
    /// fewer players than needed hold a ticket; with `InvalidThresholds`
    /// where a threshold is over 100.
    pub fn play_lottery(&mut self, drawn_numbers: Vec<u32>, pool: i128) -> (r: Result<
        Vec<Effect>,
        Error,
    >)
        requires
            drawn_numbers@.len() <= u32::MAX,
            pool_fits(pool, old(self).wins(drawn_numbers@).len()),
        ensures
            r is Err ==> *final(self) == *old(self),
            old(self).play_error() is Some ==> r is Err && r->Err_0 == old(self).play_error()->0,
            old(self).play_error() is None ==> r is Ok && (exists|won: Seq<(Identity, i128)>|
                #![trigger payouts(won)]
                ordered(won) && table_of(won) == old(self).prizes(drawn_numbers@, pool) && r->Ok_0@
                    == seq![Effect::Authorize(old(self).admin)] + payouts(won) + announcements(
                    won,
                )) && final(self).state == Some(LotteryState::Finished) && final(self).results@
                == old(self).results@.insert(old(self).lottery_number, drawn_numbers) && final(self).admin == old(self).admin && final(self).token == old(self).token && final(self).ticket_price == old(self).ticket_price && final(self).lottery_number == old(self).lottery_number && final(self).number_of_numbers == old(self).number_of_numbers
                && final(self).max_range == old(self).max_range && final(self).thresholds == old(self).thresholds && final(self).min_players_count == old(self).min_players_count && final(self).tickets == old(self).tickets,
    {
        match self.lottery_must_be_active() {
            Err(e) => {
                return Err(e);
            },
            Ok(_) => {},
        }
        let players = self.tickets.len();
        if players < self.min_players_count as usize {
            return Err(Error::MinParticipantsNotSatisfied);
        }
        if !self.thresholds_within() {
            return Err(Error::InvalidThresholds);
        }
        let mut thresholds = self.thresholds.duplicate();
        let winners = get_winners(&drawn_numbers, &self.tickets, &self.thresholds);
        let prizes = calculate_prizes(&winners, &mut thresholds, pool);
        let count = prizes.len();
        let mut paid = payout_prizes(&prizes);
        let mut announced = announce_prizes(&prizes);
        self.results.set(self.lottery_number, drawn_numbers);
        self.state = Some(LotteryState::Finished);
        let mut effects: Vec<Effect> = Vec::new();
        effects.push(Effect::Authorize(self.admin));
        effects.append(&mut paid);
        effects.append(&mut announced);
        proof {
            let won = prizes.in_order();
            assert(effects@ =~= seq![Effect::Authorize(old(self).admin)] + payouts(won)
                + announcements(won));
        }
        Ok(effects)
    }
}

/// What the wins get of a pool together: for each win the percentage of
/// its threshold.
pub open spec fn paid(wins: Seq<Win>, thresholds: Map<u32, u32>, pool: i128) -> int
    decreases wins.len(),
{
    if wins.len() == 0 {
        0
    } else {
        paid(wins.drop_last(), thresholds, pool) + prize(pool, thresholds[wins.last().matches])
    }
}

/// A threshold that was brought down claims, against all claims, no more
/// than it did against the whole pool.
pub proof fn lemma_lowered_share(percentage: u32, count: nat, total: int)
    requires
        count > 0,
        total > 100,
    ensures
        total * lowered(percentage, count, total) <= 100 * percentage,
{
    let c = count as int;
    let claim = count * percentage * 100;
    let share = claim / total;
    let each = share / c;
    lemma_lowered(percentage, count, total);
    vstd::arithmetic::div_mod::lemma_fundamental_div_mod(claim, total);
    vstd::arithmetic::div_mod::lemma_mod_bound(claim, total);
    vstd::arithmetic::div_mod::lemma_fundamental_div_mod(share, c);
    vstd::arithmetic::div_mod::lemma_mod_bound(share, c);
    assert(c * each <= share);
    assert(total * share <= claim);
    assert(total * (c * each) <= total * share) by (nonlinear_arith)
        requires
            c * each <= share,
            total > 0,
    ;
    assert(c * (total * each) <= c * (100 * percentage)) by (nonlinear_arith)
        requires
            total * (c * each) <= claim,
            claim == c * percentage * 100,
    ;
    assert(total * each <= 100 * percentage) by (nonlinear_arith)
        requires
            c * (total * each) <= c * (100 * percentage),
            c > 0,
    ;
}

/// After the thresholds have been brought down the wins claim no more than
/// the whole pool.
pub proof fn lemma_claims_within_pool(wins: Seq<Win>, thresholds: Map<u32, u32>)
    requires
        forall|i: int| 0 <= i < wins.len() ==> thresholds.dom().contains((#[trigger] wins[i]).matches),
    ensures
        0 <= total_percentage(
            wins,
            recalculated(thresholds, wins, total_percentage(wins, thresholds)),
        ) <= 100,
{
    let total = total_percentage(wins, thresholds);
    let after = recalculated(thresholds, wins, total);
    lemma_wins_are_won(wins);
    lemma_claims_compared(wins, wins, thresholds, total);
    if total > 100 {
        let claims = total_percentage(wins, after);
        assert(claims <= 100) by (nonlinear_arith)
            requires
                total * claims <= 100 * total,
                total > 0,
        ;
    }
}

/// Against claims of more than the whole pool, the claims of a part of the
/// wins after the thresholds have been brought down, times all claims, are
/// no more than a hundred times their claims before; claims are never
/// negative.
pub proof fn lemma_claims_compared(
    part: Seq<Win>,
    wins: Seq<Win>,
    thresholds: Map<u32, u32>,
    total: int,
)
    requires
        forall|i: int| 0 <= i < part.len() ==> thresholds.dom().contains((#[trigger] part[i]).matches)
            && won(wins, part[i].matches) > 0,
    ensures
        0 <= total_percentage(part, thresholds),
        0 <= total_percentage(part, recalculated(thresholds, wins, total)),
        total > 100 ==> total * total_percentage(part, recalculated(thresholds, wins, total)) <= 100
            * total_percentage(part, thresholds),
    decreases part.len(),
{
    if part.len() > 0 {
        let rest = part.drop_last();
        assert forall|i: int| 0 <= i < rest.len() implies thresholds.dom().contains(
            (#[trigger] rest[i]).matches,
        ) && won(wins, rest[i].matches) > 0 by {
            assert(rest[i] == part[i]);
        }
        lemma_claims_compared(rest, wins, thresholds, total);
        let k = part.last().matches;
        assert(part[part.len() - 1].matches == k);
        if total > 100 {
            let after = recalculated(thresholds, wins, total);
            lemma_lowered(thresholds[k], won(wins, k), total);
            lemma_lowered_share(thresholds[k], won(wins, k), total);
            assert(after.dom().contains(k));
            assert(after[k] == lowered(thresholds[k], won(wins, k), total));
            let a = total_percentage(rest, after);
            let b = total_percentage(rest, thresholds);
            assert(total * (a + after[k]) == total * a + total * after[k]) by (nonlinear_arith);
        }
    }
}

/// Every win is counted among the wins with as many matches.
pub proof fn lemma_wins_are_won(wins: Seq<Win>)
    ensures
        forall|i: int| 0 <= i < wins.len() ==> won(wins, (#[trigger] wins[i]).matches) > 0,
{
    assert forall|i: int| 0 <= i < wins.len() implies won(wins, (#[trigger] wins[i]).matches)
        > 0 by {
        lemma_won(wins, wins[i].matches);
    }
}

/// A hundred times what the wins get of a pool is no more than the pool
/// times what they claim; and they get nothing negative of a pool that is
/// not negative.
pub proof fn lemma_paid_bound(wins: Seq<Win>, thresholds: Map<u32, u32>, pool: i128)
    requires
        pool >= 0,
    ensures
        0 <= 100 * paid(wins, thresholds, pool) <= pool * total_percentage(wins, thresholds),
    decreases wins.len(),
{
    if wins.len() > 0 {
        lemma_paid_bound(wins.drop_last(), thresholds, pool);
        let p = thresholds[wins.last().matches];
        let x = pool * p;
        assert(x >= 0) by (nonlinear_arith)
            requires
                x == pool * p,
                pool >= 0,
                p >= 0,
        ;
        vstd::arithmetic::div_mod::lemma_fundamental_div_mod(x, 100);
        vstd::arithmetic::div_mod::lemma_mod_bound(x, 100);
        vstd::arithmetic::div_mod::lemma_div_pos_is_pos(x, 100);
        let t = total_percentage(wins.drop_last(), thresholds);
        assert(pool * (t + p) == pool * t + pool * p) by (nonlinear_arith);
    } else {
        assert(pool * 0 == 0);
    }
}

/// The prizes of a lottery never exceed its pool. Whatever the wins, once
/// the thresholds have been brought down where the wins claim more than the
/// whole pool, the wins get no more than the pool together.
pub proof fn lemma_prizes_within_pool(wins: Seq<Win>, thresholds: Map<u32, u32>, pool: i128)
    requires
        pool >= 0,
        forall|i: int| 0 <= i < wins.len() ==> thresholds.dom().contains((#[trigger] wins[i]).matches),
    ensures
        0 <= paid(
            wins,
            recalculated(thresholds, wins, total_percentage(wins, thresholds)),
            pool,
        ) <= pool,
{
    let after = recalculated(thresholds, wins, total_percentage(wins, thresholds));
    lemma_claims_within_pool(wins, thresholds);
    lemma_paid_bound(wins, after, pool);
    let claims = total_percentage(wins, after);
    let got = paid(wins, after, pool);
    assert(pool * claims <= pool * 100) by (nonlinear_arith)
        requires
            pool >= 0,
            claims <= 100,
    ;
}

/// The amount that a table of prizes holds for each player.
pub open spec fn prize_in(prizes: Map<Identity, i128>) -> spec_fn(Identity) -> int {
    |who: Identity| prizes[who] as int
}

/// The prizes of all players together.
pub open spec fn prizes_total(prizes: Map<Identity, i128>) -> int {
    crate::sum::sum_over(prizes.dom(), prize_in(prizes))
}

/// The prizes of the players add up to what the wins get: with thresholds
/// of no more than 100 and a pool that fits, nothing is lost or gained in
/// adding the prizes of a player up.
pub proof fn lemma_prizes_add_up(wins: Seq<Win>, thresholds: Map<u32, u32>, pool: i128)
    requires
        pool_fits(pool, wins.len()),
        forall|i: int|
            0 <= i < wins.len() ==> thresholds.dom().contains((#[trigger] wins[i]).matches)
                && thresholds[wins[i].matches] <= 100,
    ensures
        prizes_of(wins, thresholds, pool).dom().finite(),
        prizes_total(prizes_of(wins, thresholds, pool)) == paid(wins, thresholds, pool),
        forall|who: Identity|
            prizes_of(wins, thresholds, pool).dom().contains(who) ==> 0 <= #[trigger] prizes_of(
                wins,
                thresholds,
                pool,
            )[who] <= wins.len() * pool,
    decreases wins.len(),
{
    let all = prizes_of(wins, thresholds, pool);
    if wins.len() == 0 {
        crate::sum::lemma_sum_empty(prize_in(all));
        assert(all.dom() =~= Set::<Identity>::empty());
    } else {
        let rest = wins.drop_last();
        let n = wins.len() as int;
        assert forall|i: int| 0 <= i < rest.len() implies thresholds.dom().contains(
            (#[trigger] rest[i]).matches,
        ) && thresholds[rest[i].matches] <= 100 by {
            assert(rest[i] == wins[i]);
        }
        assert((n - 1) * pool <= n * pool && n * pool == (n - 1) * pool + pool && (n - 1) * pool
            >= 0) by (nonlinear_arith)
            requires
                pool >= 0,
                n >= 1,
        ;
        lemma_prizes_add_up(rest, thresholds, pool);
        let before = prizes_of(rest, thresholds, pool);
        let who = wins.last().player;
        let p = thresholds[wins.last().matches];
        assert(wins[n - 1].matches == wins.last().matches);
        let amount = prize(pool, p);
        assert(0 <= pool * p <= pool * 100) by (nonlinear_arith)
            requires
                0 <= pool,
                0 <= p <= 100,
        ;
        vstd::arithmetic::div_mod::lemma_div_is_ordered(pool * p, pool * 100, 100);
        vstd::arithmetic::div_mod::lemma_div_multiples_vanish(pool as int, 100);
        vstd::arithmetic::div_mod::lemma_div_pos_is_pos(pool * p, 100);
        assert(pool * 100 == 100 * pool) by (nonlinear_arith);
        assert(0 <= amount <= pool);
        let f = prize_in(before);
        let g = prize_in(all);
        if before.dom().contains(who) {
            assert(all.dom() =~= before.dom());
            crate::sum::lemma_sum_remove(before.dom(), f, who);
            crate::sum::lemma_sum_remove(before.dom(), g, who);
            crate::sum::lemma_sum_agree(before.dom().remove(who), f, g);
        } else {
            assert(all.dom() =~= before.dom().insert(who));
            crate::sum::lemma_sum_insert(before.dom(), g, who);
            crate::sum::lemma_sum_agree(before.dom(), f, g);
        }
    }
}

/// What the players of a lottery get together is no more than the pool:
/// the prizes that `calculate_prizes` hands out, added up over the players,
/// lie between nothing and the pool.
pub proof fn lemma_lottery_within_pool(wins: Seq<Win>, thresholds: Map<u32, u32>, pool: i128)
    requires
        pool_fits(pool, wins.len()),
        forall|i: int| 0 <= i < wins.len() ==> thresholds.dom().contains((#[trigger] wins[i]).matches),
        forall|k: u32| thresholds.dom().contains(k) ==> #[trigger] thresholds[k] <= 100,
    ensures
        0 <= prizes_total(
            prizes_of(
                wins,
                recalculated(thresholds, wins, total_percentage(wins, thresholds)),
                pool,
            ),
        ) <= pool,
{
    let total = total_percentage(wins, thresholds);
    let after = recalculated(thresholds, wins, total);
    lemma_wins_are_won(wins);
    assert forall|i: int| 0 <= i < wins.len() implies after.dom().contains(
        (#[trigger] wins[i]).matches,
    ) && after[wins[i].matches] <= 100 by {
        let k = wins[i].matches;
        if total > 100 {
            lemma_lowered(thresholds[k], won(wins, k), total);
        }
    }
    lemma_prizes_add_up(wins, after, pool);
    lemma_prizes_within_pool(wins, thresholds, pool);
}

} // verus!
