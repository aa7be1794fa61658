//! A snapshot of amounts held, keyed by identity.

use vstd::prelude::*;
use crate::identity::Identity;

verus! {

/// A finite table from identity to amount, one entry per identity.
#[derive(Debug)]
pub struct Balances {
    entries: Vec<(Identity, i128)>,
}

/// The identities of a list of entries, in the order of the list.
pub open spec fn holders_of(entries: Seq<(Identity, i128)>) -> Seq<Identity> {
    entries.map_values(|e: (Identity, i128)| e.0)
}

impl View for Balances {
    type V = Map<Identity, i128>;

    closed spec fn view(&self) -> Map<Identity, i128> {
        Map::new(
            |k: Identity| holders_of(self.entries@).contains(k),
            |k: Identity| self.entries@[holders_of(self.entries@).index_of(k)].1,
        )
    }
}

impl Balances {
    #[verifier::type_invariant]
    spec fn unique(self) -> bool {
        holders_of(self.entries@).no_duplicates()
    }

    /// The table always has finitely many entries.
    pub proof fn lemma_finite(&self)
        ensures
            self@.dom().finite(),
    {
        vstd::seq_lib::seq_to_set_is_finite(holders_of(self.entries@));
        assert(self@.dom() =~= holders_of(self.entries@).to_set());
    }

    /// A table without entries.
    pub fn new() -> (r: Balances)
        ensures
            r@ == Map::<Identity, i128>::empty(),
    {
        let r = Balances { entries: Vec::new() };
        assert(r@ =~= Map::<Identity, i128>::empty());
        r
    }

    fn position(&self, who: Identity) -> (r: Option<usize>)
        ensures
            match r {
                Some(i) => i < self.entries@.len() && self.entries@[i as int].0 == who
                    && self@.dom().contains(who) && self@[who] == self.entries@[i as int].1,
                None => !self@.dom().contains(who),
            },
    {
        proof {
            use_type_invariant(self);
        }
        let ghost holders = holders_of(self.entries@);
        let mut i: usize = 0;
        while i < self.entries.len()
            invariant
                i <= self.entries.len(),
                holders == holders_of(self.entries@),
                holders.no_duplicates(),
                forall|j: int| 0 <= j < i ==> holders[j] != who,
            decreases self.entries.len() - i,
        {
            if self.entries[i].0 == who {
                proof {
                    assert(holders[i as int] == who);
                    let j = holders.index_of(who);
                    assert(0 <= j < holders.len() && holders[j] == who);
                    assert(j == i);
                }
                return Some(i);
            }
            i += 1;
        }
        None
    }

    /// The amount held by `who`, if the table has an entry for it.
    pub fn get(&self, who: Identity) -> (r: Option<i128>)
        ensures
            r == (if self@.dom().contains(who) {
                Some(self@[who])
            } else {
                None
            }),
    {
        match self.position(who) {
            Some(i) => Some(self.entries[i].1),
            None => None,
        }
    }

    /// Sets the amount held by `who`, replacing an earlier entry for it.
    pub fn set(&mut self, who: Identity, amount: i128)
        ensures
            final(self)@ == old(self)@.insert(who, amount),
    {
        proof {
            use_type_invariant(&*self);
        }
        let found = self.position(who);
        let mut list: Vec<(Identity, i128)> = Vec::new();
        std::mem::swap(&mut list, &mut self.entries);
        let ghost before = list@;
        let ghost names = holders_of(before);
        match found {
            Some(i) => {
                list.set(i, (who, amount));
                assert(holders_of(list@) =~= names);
            },
            None => {
                list.push((who, amount));
                assert(holders_of(list@) =~= names.push(who));
                assert(!names.contains(who));
            },
        }
        proof {
            let after = holders_of(list@);
            assert(after.no_duplicates());
            assert forall|k: Identity| #[trigger] after.contains(k) <==> (k == who
                || names.contains(k)) by {
                if names.contains(k) {
                    let j = names.index_of(k);
                    assert(after[j] == k);
                }
                if k == who {
                    match found {
                        Some(i) => {
                            assert(after[i as int] == who);
                        },
                        None => {
                            assert(after[after.len() - 1] == who);
                        },
                    }
                }
            }
            assert forall|k: Identity| after.contains(k) implies list@[after.index_of(k)].1 == (if k
                == who {
                amount
            } else {
                before[names.index_of(k)].1
            }) by {
                let j = after.index_of(k);
                assert(0 <= j < after.len() && after[j] == k);
                if k != who {
                    let j0 = names.index_of(k);
                    assert(0 <= j0 < names.len() && names[j0] == k);
                    assert(after[j0] == k);
                    assert(j == j0);
                } else {
                    match found {
                        Some(i) => {
                            assert(after[i as int] == who);
                            assert(j == i);
                        },
                        None => {
                            assert(after[after.len() - 1] == who);
                            assert(j == after.len() - 1);
                        },
                    }
                }
            }
        }
        self.entries = list;
        assert(self@ =~= old(self)@.insert(who, amount));
    }

    /// How many entries the table has.
    pub fn len(&self) -> (r: usize)
        ensures
            r == self@.dom().len(),
    {
        proof {
            use_type_invariant(self);
            holders_of(self.entries@).unique_seq_to_set();
            assert(self@.dom() =~= holders_of(self.entries@).to_set());
        }
        self.entries.len()
    }

    /// The identities that have an entry, each listed once.
    pub fn holders(&self) -> (r: Vec<Identity>)
        ensures
            r@.no_duplicates(),
            r@.to_set() == self@.dom(),
    {
        proof {
            use_type_invariant(self);
        }
        let mut out: Vec<Identity> = Vec::new();
        let mut i: usize = 0;
        while i < self.entries.len()
            invariant
                i <= self.entries.len(),
                out@ == holders_of(self.entries@).take(i as int),
            decreases self.entries.len() - i,
        {
            out.push(self.entries[i].0);
            assert(out@ =~= holders_of(self.entries@).take(i as int + 1));
            i += 1;
        }
        assert(out@ =~= holders_of(self.entries@));
        assert(self@.dom() =~= holders_of(self.entries@).to_set());
        out
    }
}

} // verus!
