//! Participants and the table that holds them.

use vstd::prelude::*;
use crate::balances::Balances;
use crate::governance::Error;
use crate::identity::Identity;

verus! {

/// A member of the organisation: who it is, whether the curator has
/// whitelisted it, and what it has staked. The stake is never negative.
#[derive(Clone, Copy, Debug)]
pub struct Participant {
    address: Identity,
    whitelisted: bool,
    current_balance: i128,
}

/// A participant as a mathematical value.
pub struct ParticipantView {
    pub address: Identity,
    pub whitelisted: bool,
    pub balance: i128,
}

impl View for Participant {
    type V = ParticipantView;

    closed spec fn view(&self) -> ParticipantView {
        ParticipantView {
            address: self.address,
            whitelisted: self.whitelisted,
            balance: self.current_balance,
        }
    }
}

impl Participant {
    #[verifier::type_invariant]
    spec fn solvent(self) -> bool {
        self.current_balance >= 0
    }

    /// A participant that has staked nothing and is not whitelisted.
    pub fn new(address: Identity) -> (r: Participant)
        ensures
            r@ == (ParticipantView { address, whitelisted: false, balance: 0 }),
    {
        Participant { address, whitelisted: false, current_balance: 0 }
    }

    /// Whether the curator has whitelisted the participant.
    pub fn is_whitelisted(&self) -> (r: bool)
        ensures
            r == self@.whitelisted,
    {
        self.whitelisted
    }

    /// Marks the participant as whitelisted.
    pub fn whitelist(&mut self)
        ensures
            final(self)@ == (ParticipantView { whitelisted: true, ..old(self)@ }),
    {
        proof {
            use_type_invariant(&*self);
        }
        self.whitelisted = true
    }

    /// Who the participant is.
    pub fn address(&self) -> (r: &Identity)
        ensures
            *r == self@.address,
    {
        &self.address
    }

    /// What the participant has staked; never negative.
    pub fn balance(&self) -> (r: i128)
        ensures
            r == self@.balance,
            r >= 0,
    {
        proof {
            use_type_invariant(self);
        }
        self.current_balance
    }

    /// Adds `inc` to the stake. Fails with `InvalidAmount`, changing
    /// nothing, unless `inc` is positive.
    pub fn increase_balance(&mut self, inc: i128) -> (r: Result<(), Error>)
        requires
            inc > 0 ==> old(self)@.balance + inc <= i128::MAX,
        ensures
            inc <= 0 ==> r == Err::<(), Error>(Error::InvalidAmount) && final(self)@ == old(self)@,
            inc > 0 ==> r == Ok::<(), Error>(()) && final(self)@ == (ParticipantView {
                balance: (old(self)@.balance + inc) as i128,
                ..old(self)@
            }),
    {
        proof {
            use_type_invariant(&*self);
        }
        if inc <= 0 {
            return Err(Error::InvalidAmount);
        }
        self.current_balance = self.current_balance + inc;
        Ok(())
    }

    /// Takes `dec` from the stake. Fails, changing nothing, with
    /// `InvalidAmount` unless `dec` is positive, and with `InsufficientFunds`
    /// where `dec` is more than the stake.
    pub fn decrease_balance(&mut self, dec: i128) -> (r: Result<(), Error>)
        ensures
            dec <= 0 ==> r == Err::<(), Error>(Error::InvalidAmount) && final(self)@ == old(self)@,
            dec > 0 && dec > old(self)@.balance ==> r == Err::<(), Error>(
                Error::InsufficientFunds,
            ) && final(self)@ == old(self)@,
            0 < dec <= old(self)@.balance ==> r == Ok::<(), Error>(()) && final(self)@ == (
            ParticipantView { balance: (old(self)@.balance - dec) as i128, ..old(self)@ }),
    {
        proof {
            use_type_invariant(&*self);
        }
        if dec <= 0 {
            return Err(Error::InvalidAmount);
        }
        if dec > self.current_balance {
            return Err(Error::InsufficientFunds);
        }
        self.current_balance = self.current_balance - dec;
        Ok(())
    }
}

/// The table of participants, one record per identity.
#[derive(Debug)]
pub struct Repository {
    participants: Vec<Participant>,
}

/// The identities of a list of participants, in the order of the list.
pub open spec fn addresses_of(list: Seq<Participant>) -> Seq<Identity> {
    list.map_values(|p: Participant| p@.address)
}

/// A table of participants is sound when it is finite, files every record
/// under the record's own identity, and holds no negative stake.
pub open spec fn table_wf(m: Map<Identity, ParticipantView>) -> bool {
    &&& m.dom().finite()
    &&& forall|k: Identity| #[trigger] m.dom().contains(k) ==> m[k].address == k && m[k].balance >= 0
}

/// The stakes of the whitelisted participants of a table.
pub open spec fn whitelisted_stakes(m: Map<Identity, ParticipantView>) -> Map<Identity, i128> {
    Map::new(|k: Identity| m.dom().contains(k) && m[k].whitelisted, |k: Identity| m[k].balance)
}

/// The table that results from saving the records of a list one after the
/// other; of two records for one identity the later one stays.
pub open spec fn saved_in_order(list: Seq<ParticipantView>) -> Map<Identity, ParticipantView>
    decreases list.len(),
{
    if list.len() == 0 {
        Map::empty()
    } else {
        saved_in_order(list.drop_last()).insert(list.last().address, list.last())
    }
}

impl View for Repository {
    type V = Map<Identity, ParticipantView>;

    closed spec fn view(&self) -> Map<Identity, ParticipantView> {
        Map::new(
            |k: Identity| addresses_of(self.participants@).contains(k),
            |k: Identity| self.participants@[addresses_of(self.participants@).index_of(k)]@,
        )
    }
}

impl Repository {
    #[verifier::type_invariant]
    spec fn sound(self) -> bool {
        &&& addresses_of(self.participants@).no_duplicates()
        &&& forall|i: int|
            0 <= i < self.participants@.len() ==> (#[trigger] self.participants@[i]).current_balance
                >= 0
    }

    proof fn lemma_wf(self)
        requires
            self.sound(),
        ensures
            table_wf(self@),
    {
        let names = addresses_of(self.participants@);
        vstd::seq_lib::seq_to_set_is_finite(names);
        assert(self@.dom() =~= names.to_set());
        assert forall|k: Identity| #[trigger] self@.dom().contains(k) implies self@[k].address == k
            && self@[k].balance >= 0 by {
            let j = names.index_of(k);
            assert(0 <= j < names.len() && names[j] == k);
        }
    }

    /// A table without participants.
    pub fn empty() -> (r: Repository)
        ensures
            r@ == Map::<Identity, ParticipantView>::empty(),
            table_wf(r@),
    {
        let r = Repository { participants: Vec::new() };
        proof {
            assert(r@ =~= Map::<Identity, ParticipantView>::empty());
            r.lemma_wf();
        }
        r
    }

    /// The table that was stored, rebuilt from its records. Fails with
    /// `NotInitialized` where none was stored.
    pub fn new(stored: Option<Vec<Participant>>) -> (r: Result<Repository, Error>)
        ensures
            stored is None ==> r is Err && r->Err_0 == Error::NotInitialized,
            stored is Some ==> r is Ok && r->Ok_0@ == saved_in_order(
                stored->0@.map_values(|p: Participant| p@),
            ) && table_wf(r->Ok_0@),
    {
        match stored {
            None => Err(Error::NotInitialized),
            Some(list) => {
                let mut repo = Repository::empty();
                let ghost views = list@.map_values(|p: Participant| p@);
                let mut i: usize = 0;
                while i < list.len()
                    invariant
                        i <= list.len(),
                        views == list@.map_values(|p: Participant| p@),
                        repo@ == saved_in_order(views.take(i as int)),
                        table_wf(repo@),
                    decreases list.len() - i,
                {
                    proof {
                        assert(views.take(i as int + 1).drop_last() =~= views.take(i as int));
                    }
                    repo.save(list[i]);
                    i += 1;
                }
                proof {
                    assert(views.take(i as int) =~= views);
                }
                Ok(repo)
            },
        }
    }

    fn position(&self, address: Identity) -> (r: Option<usize>)
        ensures
            table_wf(self@),
            match r {
                Some(i) => i < self.participants@.len() && self.participants@[i as int]@.address
                    == address && self@.dom().contains(address) && self@[address]
                    == self.participants@[i as int]@,
                None => !self@.dom().contains(address),
            },
    {
        proof {
            use_type_invariant(self);
            self.lemma_wf();
        }
        let ghost names = addresses_of(self.participants@);
        let mut i: usize = 0;
        while i < self.participants.len()
            invariant
                i <= self.participants.len(),
                names == addresses_of(self.participants@),
                names.no_duplicates(),
                table_wf(self@),
                forall|j: int| 0 <= j < i ==> names[j] != address,
            decreases self.participants.len() - i,
        {
            if self.participants[i].address == address {
                proof {
                    assert(names[i as int] == address);
                    let j = names.index_of(address);
                    assert(0 <= j < names.len() && names[j] == address);
                    assert(j == i);
                }
                return Some(i);
            }
            i += 1;
        }
        None
    }

    /// Files `participant` under its identity, in place of an earlier record
    /// for that identity.
    pub fn save(&mut self, participant: Participant)
        ensures
            final(self)@ == old(self)@.insert(participant@.address, participant@),
            table_wf(final(self)@),
    {
        proof {
            use_type_invariant(&*self);
            use_type_invariant(&participant);
        }
        let who = participant.address;
        let found = self.position(who);
        let mut list: Vec<Participant> = Vec::new();
        std::mem::swap(&mut list, &mut self.participants);
        let ghost before = list@;
        let ghost names = addresses_of(before);
        match found {
            Some(i) => {
                list.set(i, participant);
                assert(addresses_of(list@) =~= names);
            },
            None => {
                list.push(participant);
                assert(addresses_of(list@) =~= names.push(who));
                assert(!names.contains(who));
            },
        }
        proof {
            let after = addresses_of(list@);
            assert(after.no_duplicates());
            assert forall|k: Identity| #[trigger] after.contains(k) <==> (k == who
                || names.contains(k)) by {
                if names.contains(k) {
                    let j = names.index_of(k);
                    assert(after[j] == k);
                }
                if k == who {
                    match found {
                        Some(i) => {
                            assert(after[i as int] == who);
                        },
                        None => {
                            assert(after[after.len() - 1] == who);
                        },
                    }
                }
            }
            assert forall|k: Identity| after.contains(k) implies list@[after.index_of(k)]@ == (if k
                == who {
                participant@
            } else {
                before[names.index_of(k)]@
            }) by {
                let j = after.index_of(k);
                assert(0 <= j < after.len() && after[j] == k);
                if k != who {
                    let j0 = names.index_of(k);
                    assert(0 <= j0 < names.len() && names[j0] == k);
                    assert(after[j0] == k);
                    assert(j == j0);
                } else {
                    match found {
                        Some(i) => {
                            assert(after[i as int] == who);
                            assert(j == i);
                        },
                        None => {
                            assert(after[after.len() - 1] == who);
                            assert(j == after.len() - 1);
                        },
                    }
                }
            }
        }
        self.participants = list;
        proof {
            assert(self@ =~= old(self)@.insert(participant@.address, participant@));
            self.lemma_wf();
        }
    }

    /// The record filed under `address`. Fails with `ParticipantNotFound`
    /// where there is none.
    pub fn find(&self, address: Identity) -> (r: Result<Participant, Error>)
        ensures
            table_wf(self@),
            self@.dom().contains(address) ==> r is Ok && r->Ok_0@ == self@[address],
            !self@.dom().contains(address) ==> r is Err && r->Err_0 == Error::ParticipantNotFound,
    {
        match self.position(address) {
            Some(i) => Ok(self.participants[i]),
            None => Err(Error::ParticipantNotFound),
        }
    }

    /// Takes the record filed under `address` out of the table. Fails with
    /// `ParticipantNotFound`, changing nothing, where there is none.
    pub fn remove(&mut self, address: Identity) -> (r: Result<(), Error>)
        ensures
            table_wf(final(self)@),
            old(self)@.dom().contains(address) ==> r == Ok::<(), Error>(()) && final(self)@ == old(
                self,
            )@.remove(address),
            !old(self)@.dom().contains(address) ==> r == Err::<(), Error>(
                Error::ParticipantNotFound,
            ) && final(self)@ == old(self)@,
    {
        proof {
            use_type_invariant(&*self);
        }
        let found = self.position(address);
        match found {
            None => Err(Error::ParticipantNotFound),
            Some(i) => {
                let mut list: Vec<Participant> = Vec::new();
                std::mem::swap(&mut list, &mut self.participants);
                let ghost before = list@;
                let ghost names = addresses_of(before);
                list.remove(i);
                proof {
                    let after = addresses_of(list@);
                    assert(after =~= names.remove(i as int));
                    assert(after.no_duplicates()) by {
                        assert forall|a: int, b: int|
                            0 <= a < after.len() && 0 <= b < after.len() && a != b implies after[a]
                            != after[b] by {
                            let a0 = if a < i { a } else { a + 1 };
                            let b0 = if b < i { b } else { b + 1 };
                            assert(after[a] == names[a0]);
                            assert(after[b] == names[b0]);
                        }
                    }
                    assert forall|k: Identity| #[trigger] after.contains(k) <==> (k != address
                        && names.contains(k)) by {
                        if after.contains(k) {
                            let a = choose|a: int| 0 <= a < after.len() && after[a] == k;
                            let a0 = if a < i { a } else { a + 1 };
                            assert(names[a0] == k);
                            assert(names[i as int] == address);
                        }
                        if k != address && names.contains(k) {
                            let j = names.index_of(k);
                            assert(0 <= j < names.len() && names[j] == k);
                            assert(j != i);
                            let a = if j < i { j } else { j - 1 };
                            assert(after[a] == k);
                        }
                    }
                    assert forall|k: Identity| after.contains(k) implies list@[after.index_of(k)]@
                        == before[names.index_of(k)]@ by {
                        let a = after.index_of(k);
                        assert(0 <= a < after.len() && after[a] == k);
                        let a0 = if a < i { a } else { a + 1 };
                        assert(names[a0] == k);
                        let j0 = names.index_of(k);
                        assert(0 <= j0 < names.len() && names[j0] == k);
                        assert(j0 == a0);
                    }
                    assert forall|a: int| 0 <= a < list@.len() implies (#[trigger] list@[a]).current_balance
                        >= 0 by {
                        let a0 = if a < i { a } else { a + 1 };
                        assert(list@[a] == before[a0]);
                    }
                }
                self.participants = list;
                proof {
                    assert(self@ =~= old(self)@.remove(address));
                    self.lemma_wf();
                }
                Ok(())
            },
        }
    }

    /// The stakes of the whitelisted participants, as a snapshot.
    pub fn whitelisted_balance(&self) -> (r: Balances)
        ensures
            table_wf(self@),
            r@ == whitelisted_stakes(self@),
    {
        proof {
            use_type_invariant(self);
            self.lemma_wf();
        }
        let ghost names = addresses_of(self.participants@);
        let mut out = Balances::new();
        let mut i: usize = 0;
        while i < self.participants.len()
            invariant
                i <= self.participants.len(),
                names == addresses_of(self.participants@),
                names.no_duplicates(),
                forall|k: Identity| #[trigger]
                    out@.dom().contains(k) <==> (exists|j: int|
                        0 <= j < i && names[j] == k && self.participants@[j]@.whitelisted),
                forall|j: int|
                    0 <= j < i && self.participants@[j]@.whitelisted ==> out@[#[trigger] names[j]]
                        == self.participants@[j]@.balance,
            decreases self.participants.len() - i,
        {
            let p = self.participants[i];
            if p.whitelisted {
                let ghost prev = out@;
                out.set(p.address, p.current_balance);
                proof {
                    assert(names[i as int] == p.address);
                    assert forall|k: Identity| #[trigger]
                        out@.dom().contains(k) <==> (exists|j: int|
                            0 <= j < i + 1 && names[j] == k
                                && self.participants@[j]@.whitelisted) by {
                        if prev.dom().contains(k) {
                            let j = choose|j: int|
                                0 <= j < i && names[j] == k && self.participants@[j]@.whitelisted;
                            assert(0 <= j < i + 1 && names[j] == k
                                && self.participants@[j]@.whitelisted);
                        }
                        if k == p.address {
                            assert(0 <= i < i + 1 && names[i as int] == k
                                && self.participants@[i as int]@.whitelisted);
                        }
                    }
                    assert forall|j: int|
                        0 <= j < i + 1 && self.participants@[j]@.whitelisted implies out@[#[trigger] names[j]]
                        == self.participants@[j]@.balance by {
                        if j < i {
                            assert(names[j] != names[i as int]);
                        }
                    }
                }
            }
            i += 1;
        }
        proof {
            let want = whitelisted_stakes(self@);
            assert forall|k: Identity| out@.dom().contains(k) <==> want.dom().contains(k) by {
                if out@.dom().contains(k) {
                    let j = choose|j: int|
                        0 <= j < i && names[j] == k && self.participants@[j]@.whitelisted;
                    let j0 = names.index_of(k);
                    assert(0 <= j0 < names.len() && names[j0] == k);
                    assert(j0 == j);
                }
                if want.dom().contains(k) {
                    let j0 = names.index_of(k);
                    assert(0 <= j0 < names.len() && names[j0] == k);
                    assert(self.participants@[j0]@.whitelisted);
                }
            }
            assert forall|k: Identity| out@.dom().contains(k) implies out@[k] == want[k] by {
                let j = choose|j: int|
                    0 <= j < i && names[j] == k && self.participants@[j]@.whitelisted;
                let j0 = names.index_of(k);
                assert(0 <= j0 < names.len() && names[j0] == k);
                assert(j0 == j);
                assert(out@[names[j]] == self.participants@[j]@.balance);
            }
            assert(out@ =~= want);
        }
        out
    }

    /// How many participants the table holds.
    pub fn count(&self) -> (r: usize)
        ensures
            table_wf(self@),
            r == self@.dom().len(),
    {
        proof {
            use_type_invariant(self);
            self.lemma_wf();
            addresses_of(self.participants@).unique_seq_to_set();
            assert(self@.dom() =~= addresses_of(self.participants@).to_set());
        }
        self.participants.len()
    }

    /// The records of the table, one per identity; saving them in this order
    /// into an empty table gives the table back.
    pub fn participants(&self) -> (r: Vec<Participant>)
        ensures
            table_wf(self@),
            r@.len() == self@.dom().len(),
            forall|k: Identity| #[trigger]
                self@.dom().contains(k) <==> addresses_of(r@).contains(k),
            forall|i: int| 0 <= i < r@.len() ==> self@[(#[trigger] r@[i])@.address] == r@[i]@,
            addresses_of(r@).no_duplicates(),
    {
        proof {
            use_type_invariant(self);
            self.lemma_wf();
            addresses_of(self.participants@).unique_seq_to_set();
            assert(self@.dom() =~= addresses_of(self.participants@).to_set());
        }
        let ghost names = addresses_of(self.participants@);
        let mut out: Vec<Participant> = Vec::new();
        let mut i: usize = 0;
        while i < self.participants.len()
            invariant
                i <= self.participants.len(),
                out@ == self.participants@.take(i as int),
            decreases self.participants.len() - i,
        {
            out.push(self.participants[i]);
            assert(out@ =~= self.participants@.take(i as int + 1));
            i += 1;
        }
        proof {
            assert(out@ =~= self.participants@);
            assert forall|j: int| 0 <= j < out@.len() implies self@[(#[trigger] out@[j])@.address]
                == out@[j]@ by {
                let k = out@[j]@.address;
                assert(names[j] == k);
                let j0 = names.index_of(k);
                assert(0 <= j0 < names.len() && names[j0] == k);
                assert(j0 == j);
            }
        }
        out
    }
}

} // verus!
