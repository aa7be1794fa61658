//! The register of who has voted on a proposal.

use vstd::prelude::*;
use crate::identity::Identity;

verus! {

/// The identities that have voted: a finite set, each member held once.
#[derive(Debug)]
pub struct Voters {
    list: Vec<Identity>,
}

impl View for Voters {
    type V = Set<Identity>;

    closed spec fn view(&self) -> Set<Identity> {
        self.list@.to_set()
    }
}

impl Clone for Voters {
    fn clone(&self) -> (r: Self)
        ensures
            r@ == self@,
    {
        let list = self.members();
        Voters { list }
    }
}

impl Voters {
    #[verifier::type_invariant]
    spec fn unique(self) -> bool {
        self.list@.no_duplicates()
    }

    /// The register is always finite.
    pub proof fn lemma_finite(&self)
        ensures
            self@.finite(),
    {
        vstd::seq_lib::seq_to_set_is_finite(self.list@);
    }

    /// A register with nobody in it.
    pub fn new() -> (r: Voters)
        ensures
            r@ == Set::<Identity>::empty(),
    {
        let r = Voters { list: Vec::new() };
        assert(r.list@.to_set() =~= Set::<Identity>::empty());
        r
    }

    /// Whether `who` has voted.
    pub fn contains(&self, who: Identity) -> (r: bool)
        ensures
            r == self@.contains(who),
    {
        let mut i: usize = 0;
        while i < self.list.len()
            invariant
                i <= self.list.len(),
                forall|j: int| 0 <= j < i ==> self.list@[j] != who,
            decreases self.list.len() - i,
        {
            if self.list[i] == who {
                return true;
            }
            i += 1;
        }
        false
    }

    /// Records `who`; a voter already recorded stays recorded once.
    pub fn insert(&mut self, who: Identity)
        ensures
            final(self)@ == old(self)@.insert(who),
    {
        proof {
            use_type_invariant(&*self);
        }
        if !self.contains(who) {
            let mut list = Vec::new();
            std::mem::swap(&mut list, &mut self.list);
            list.push(who);
            assert(list@.to_set() =~= old(self).list@.to_set().insert(who)) by {
                assert forall|x: Identity| list@.to_set().contains(x) <==> old(self).list@.to_set().insert(who).contains(x) by {
                    if list@.contains(x) {
                        let j = choose|j: int| 0 <= j < list@.len() && list@[j] == x;
                        if j < old(self).list@.len() {
                            assert(old(self).list@[j] == x);
                        }
                    }
                    if old(self).list@.contains(x) {
                        let j = choose|j: int| 0 <= j < old(self).list@.len() && old(self).list@[j] == x;
                        assert(list@[j] == x);
                    }
                    if x == who {
                        assert(list@[list@.len() - 1] == x);
                    }
                }
            }
            self.list = list;
        } else {
            assert(self@ =~= self@.insert(who));
        }
    }

    /// The voters, each listed once.
    pub fn members(&self) -> (r: Vec<Identity>)
        ensures
            r@.no_duplicates(),
            r@.to_set() == self@,
    {
        proof {
            use_type_invariant(self);
        }
        let mut out: Vec<Identity> = Vec::new();
        let mut i: usize = 0;
        while i < self.list.len()
            invariant
                i <= self.list.len(),
                out@ == self.list@.take(i as int),
            decreases self.list.len() - i,
        {
            out.push(self.list[i]);
            assert(out@ =~= self.list@.take(i as int + 1));
            i += 1;
        }
        assert(out@ =~= self.list@);
        out
    }

    /// How many have voted.
    pub fn len(&self) -> (r: usize)
        ensures
            r == self@.len(),
    {
        proof {
            use_type_invariant(self);
            self.list@.unique_seq_to_set();
        }
        self.list.len()
    }
}

} // verus!
