//! Tables that keep their entries in the order of their keys.

use vstd::prelude::*;
use crate::identity::Identity;
use crate::wide::two_128;

verus! {

/// Keys that have a place in one line: each key has a rank, no two keys
/// share one, and the key with the lower rank comes first.
pub trait Ranked: Copy + Sized {
    /// The place of the key in the line.
    spec fn rank(self) -> int;

    /// No two keys share a rank.
    proof fn lemma_rank(a: Self, b: Self)
        ensures
            a.rank() == b.rank() ==> a == b,
    ;

    /// Whether this key comes before the other.
    fn precedes(&self, other: &Self) -> (r: bool)
        ensures
            r == (self.rank() < other.rank()),
    ;
}

impl Ranked for u32 {
    open spec fn rank(self) -> int {
        self as int
    }

    proof fn lemma_rank(a: Self, b: Self) {
    }

    fn precedes(&self, other: &Self) -> (r: bool) {
        *self < *other
    }
}

impl Ranked for Identity {
    /// Accounts come before programs; within a kind the keys go by their
    /// value as numbers of 256 bits.
    open spec fn rank(self) -> int {
        (if self.program {
            1int
        } else {
            0int
        }) * (two_128() * two_128()) + self.hi * two_128() + self.lo
    }

    proof fn lemma_rank(a: Self, b: Self) {
        lemma_identity_rank(a, b);
    }

    fn precedes(&self, other: &Self) -> (r: bool) {
        proof {
            lemma_identity_rank(*self, *other);
            lemma_identity_rank(*other, *self);
        }
        if self.program != other.program {
            !self.program
        } else if self.hi != other.hi {
            self.hi < other.hi
        } else {
            self.lo < other.lo
        }
    }
}

/// The rank of an identity orders by kind, then by the upper word, then by
/// the lower word.
pub proof fn lemma_identity_rank(a: Identity, b: Identity)
    ensures
        a.rank() == b.rank() ==> a == b,
        a.rank() < b.rank() <==> ((!a.program && b.program) || (a.program == b.program && (a.hi
            < b.hi || (a.hi == b.hi && a.lo < b.lo)))),
{
    let t = two_128();
    let low_a = a.hi * t + a.lo;
    let low_b = b.hi * t + b.lo;
    assert(0 <= low_a < t * t && 0 <= low_b < t * t) by (nonlinear_arith)
        requires
            0 <= a.hi < t,
            0 <= a.lo < t,
            0 <= b.hi < t,
            0 <= b.lo < t,
            low_a == a.hi * t + a.lo,
            low_b == b.hi * t + b.lo,
    ;
    assert(a.hi < b.hi ==> low_a < low_b) by (nonlinear_arith)
        requires
            0 <= a.lo < t,
            0 <= b.lo < t,
            low_a == a.hi * t + a.lo,
            low_b == b.hi * t + b.lo,
    ;
    assert(b.hi < a.hi ==> low_b < low_a) by (nonlinear_arith)
        requires
            0 <= a.lo < t,
            0 <= b.lo < t,
            low_a == a.hi * t + a.lo,
            low_b == b.hi * t + b.lo,
    ;
    assert(1int * (t * t) == t * t && 0int * (t * t) == 0);
}

/// The keys of a list of entries, in the order of the list.
pub open spec fn keys_of<K, V>(entries: Seq<(K, V)>) -> Seq<K> {
    entries.map_values(|e: (K, V)| e.0)
}

/// Whether the keys of a list of entries rise strictly in rank.
pub open spec fn ordered<K: Ranked, V>(entries: Seq<(K, V)>) -> bool {
    forall|i: int, j: int| 0 <= i < j < entries.len() ==> entries[i].0.rank() < entries[j].0.rank()
}

/// The table that a list of entries with distinct keys stands for.
pub open spec fn table_of<K, V>(entries: Seq<(K, V)>) -> Map<K, V> {
    Map::new(
        |k: K| keys_of(entries).contains(k),
        |k: K| entries[keys_of(entries).index_of(k)].1,
    )
}

/// In a list with rising keys an entry is where its key is found.
pub proof fn lemma_entry_found<K: Ranked, V>(entries: Seq<(K, V)>, i: int)
    requires
        ordered(entries),
        0 <= i < entries.len(),
    ensures
        table_of(entries).dom().contains(entries[i].0),
        table_of(entries)[entries[i].0] == entries[i].1,
        keys_of(entries).index_of(entries[i].0) == i,
{
    let keys = keys_of(entries);
    assert(keys[i] == entries[i].0);
    let j = keys.index_of(entries[i].0);
    assert(0 <= j < keys.len() && keys[j] == entries[i].0);
    if j != i {
        if j < i {
            assert(entries[j].0.rank() < entries[i].0.rank());
        } else {
            assert(entries[i].0.rank() < entries[j].0.rank());
        }
    }
}

/// A table is finite, and as large as the list that stands for it.
pub proof fn lemma_table_size<K: Ranked, V>(entries: Seq<(K, V)>)
    requires
        ordered(entries),
    ensures
        table_of(entries).dom().finite(),
        table_of(entries).dom().len() == entries.len(),
{
    let keys = keys_of(entries);
    assert(keys.no_duplicates()) by {
        assert forall|i: int, j: int| 0 <= i < keys.len() && 0 <= j < keys.len() && i != j implies keys[i]
            != keys[j] by {
            if i < j {
                assert(entries[i].0.rank() < entries[j].0.rank());
            } else {
                assert(entries[j].0.rank() < entries[i].0.rank());
            }
        }
    }
    keys.unique_seq_to_set();
    vstd::seq_lib::seq_to_set_is_finite(keys);
    assert(table_of(entries).dom() =~= keys.to_set());
}

/// A table from keys to values that keeps its entries in the order of the
/// keys, one entry per key.
#[derive(Debug)]
pub struct SortedMap<K: Ranked, V> {
    entries: Vec<(K, V)>,
}

impl<K: Ranked, V> View for SortedMap<K, V> {
    type V = Map<K, V>;

    closed spec fn view(&self) -> Map<K, V> {
        table_of(self.entries@)
    }
}

impl<K: Ranked, V> SortedMap<K, V> {
    #[verifier::type_invariant]
    spec fn rising(self) -> bool {
        ordered(self.entries@)
    }

    /// The entries in the order of their keys.
    pub closed spec fn in_order(&self) -> Seq<(K, V)> {
        self.entries@
    }

    /// A table without entries.
    pub fn new() -> (r: Self)
        ensures
            r@ == Map::<K, V>::empty(),
            r.in_order() == Seq::<(K, V)>::empty(),
    {
        let r = SortedMap { entries: Vec::new() };
        assert(r@ =~= Map::<K, V>::empty());
        r
    }

    /// How many entries the table has.
    pub fn len(&self) -> (r: usize)
        ensures
            r == self.in_order().len(),
            r == self@.dom().len(),
            self@.dom().finite(),
            ordered(self.in_order()),
            self@ == table_of(self.in_order()),
    {
        proof {
            use_type_invariant(self);
            lemma_table_size(self.entries@);
        }
        self.entries.len()
    }

    /// The entry at place `i` in the order of the keys.
    pub fn at(&self, i: usize) -> (r: (K, &V))
        requires
            i < self.in_order().len(),
        ensures
            r.0 == self.in_order()[i as int].0,
            *r.1 == self.in_order()[i as int].1,
            self@.dom().contains(r.0),
            self@[r.0] == *r.1,
    {
        proof {
            use_type_invariant(self);
            lemma_entry_found(self.entries@, i as int);
        }
        (self.entries[i].0, &self.entries[i].1)
    }

    /// The place of `key`, or the place where it would go.
    fn place(&self, key: K) -> (r: (usize, bool))
        ensures
            r.0 <= self.entries@.len(),
            forall|j: int| 0 <= j < r.0 ==> self.entries@[j].0.rank() < key.rank(),
            forall|j: int| r.0 <= j < self.entries@.len() ==> key.rank() <= self.entries@[j].0.rank(),
            r.1 <==> (r.0 < self.entries@.len() && self.entries@[r.0 as int].0 == key),
            r.1 <==> self@.dom().contains(key),
            r.1 ==> self@[key] == self.entries@[r.0 as int].1,
    {
        proof {
            use_type_invariant(self);
        }
        let mut i: usize = 0;
        while i < self.entries.len() && self.entries[i].0.precedes(&key)
            invariant
                i <= self.entries.len(),
                ordered(self.entries@),
                forall|j: int| 0 <= j < i ==> self.entries@[j].0.rank() < key.rank(),
            decreases self.entries.len() - i,
        {
            i += 1;
        }
        let found = i < self.entries.len() && !key.precedes(&self.entries[i].0);
        proof {
            let keys = keys_of(self.entries@);
            if i < self.entries.len() {
                assert forall|j: int| i <= j < self.entries@.len() implies key.rank()
                    <= self.entries@[j].0.rank() by {
                    if j > i {
                        assert(self.entries@[i as int].0.rank() < self.entries@[j].0.rank());
                    }
                }
            }
            if found {
                K::lemma_rank(key, self.entries@[i as int].0);
                lemma_entry_found(self.entries@, i as int);
            } else {
                if keys.contains(key) {
                    let j = choose|j: int| 0 <= j < keys.len() && keys[j] == key;
                    assert(self.entries@[j].0 == key);
                    if j < i {
                        assert(self.entries@[j].0.rank() < key.rank());
                    } else {
                        assert(false);
                    }
                }
            }
        }
        (i, found)
    }

    /// Whether the table has an entry for `key`.
    pub fn contains_key(&self, key: K) -> (r: bool)
        ensures
            r == self@.dom().contains(key),
    {
        self.place(key).1
    }

    /// The value that the table holds for `key`, if it holds one.
    pub fn get(&self, key: K) -> (r: Option<&V>)
        ensures
            r is Some <==> self@.dom().contains(key),
            r is Some ==> *r->0 == self@[key],
    {
        let (i, found) = self.place(key);
        if found {
            Some(&self.entries[i].1)
        } else {
            None
        }
    }

    /// Sets the value for `key`, in place of an earlier one.
    pub fn set(&mut self, key: K, value: V)
        ensures
            final(self)@ == old(self)@.insert(key, value),
    {
        proof {
            use_type_invariant(&*self);
        }
        let (i, found) = self.place(key);
        let mut list: Vec<(K, V)> = Vec::new();
        std::mem::swap(&mut list, &mut self.entries);
        let ghost before = list@;
        if found {
            list.set(i, (key, value));
            proof {
                assert forall|a: int, b: int| 0 <= a < b < list@.len() implies list@[a].0.rank()
                    < list@[b].0.rank() by {
                    assert(before[a].0.rank() < before[b].0.rank());
                    assert(list@[a].0 == before[a].0);
                    assert(list@[b].0 == before[b].0);
                }
            }
        } else {
            list.insert(i, (key, value));
            proof {
                assert(list@ =~= before.insert(i as int, (key, value)));
                assert forall|a: int, b: int| 0 <= a < b < list@.len() implies list@[a].0.rank()
                    < list@[b].0.rank() by {
                    let a0 = if a < i { a } else { a - 1 };
                    let b0 = if b < i { b } else { b - 1 };
                    if a != i && b != i {
                        assert(list@[a] == before[a0]);
                        assert(list@[b] == before[b0]);
                        assert(before[a0].0.rank() < before[b0].0.rank());
                    } else if a == i {
                        assert(list@[b] == before[b0]);
                        assert(key.rank() <= before[b0].0.rank());
                        if key.rank() == before[b0].0.rank() {
                            K::lemma_rank(key, before[b0].0);
                            assert(keys_of(before)[b0] == key);
                        }
                    } else {
                        assert(list@[a] == before[a0]);
                    }
                }
            }
        }
        proof {
            let after = list@;
            assert forall|k: K| table_of(after).dom().contains(k) <==> (k == key || table_of(
                before,
            ).dom().contains(k)) by {
                if keys_of(after).contains(k) {
                    let j = choose|j: int| 0 <= j < after.len() && keys_of(after)[j] == k;
                    if found {
                        assert(keys_of(before)[j] == before[j].0);
                        if j != i {
                            assert(after[j] == before[j]);
                        }
                    } else {
                        if j != i {
                            let j0 = if j < i { j } else { j - 1 };
                            assert(after[j] == before[j0]);
                            assert(keys_of(before)[j0] == k);
                        }
                    }
                }
                if keys_of(before).contains(k) {
                    let j0 = choose|j: int| 0 <= j < before.len() && keys_of(before)[j] == k;
                    let j = if found || j0 < i { j0 } else { j0 + 1 };
                    if found && j0 == i {
                        assert(k == key);
                    }
                    assert(keys_of(after)[j] == after[j].0);
                    if !(found && j0 == i) {
                        assert(after[j] == before[j0]);
                    }
                }
                if k == key {
                    assert(keys_of(after)[i as int] == key);
                }
            }
            assert forall|k: K| table_of(after).dom().contains(k) implies table_of(after)[k] == (
            if k == key {
                value
            } else {
                table_of(before)[k]
            }) by {
                if k == key {
                    lemma_entry_found(after, i as int);
                } else {
                    let j0 = keys_of(before).index_of(k);
                    assert(0 <= j0 < before.len() && keys_of(before)[j0] == k);
                    lemma_entry_found(before, j0);
                    let j = if found || j0 < i { j0 } else { j0 + 1 };
                    assert(after[j] == before[j0]);
                    lemma_entry_found(after, j);
                }
            }
        }
        self.entries = list;
        assert(self@ =~= old(self)@.insert(key, value));
    }

    /// Takes the entry for `key` out of the table and hands its value out,
    /// if there is one.
    pub fn remove(&mut self, key: K) -> (r: Option<V>)
        ensures
            final(self)@ == old(self)@.remove(key),
            r is Some <==> old(self)@.dom().contains(key),
            r is Some ==> r->0 == old(self)@[key],
    {
        proof {
            use_type_invariant(&*self);
        }
        let (i, found) = self.place(key);
        if !found {
            assert(self@ =~= self@.remove(key));
            return None;
        }
        let mut list: Vec<(K, V)> = Vec::new();
        std::mem::swap(&mut list, &mut self.entries);
        let ghost before = list@;
        let gone = list.remove(i);
        proof {
            let after = list@;
            assert(after =~= before.remove(i as int));
            assert forall|a: int, b: int| 0 <= a < b < after.len() implies after[a].0.rank()
                < after[b].0.rank() by {
                let a0 = if a < i { a } else { a + 1 };
                let b0 = if b < i { b } else { b + 1 };
                assert(after[a] == before[a0]);
                assert(after[b] == before[b0]);
                assert(before[a0].0.rank() < before[b0].0.rank());
            }
            assert forall|k: K| table_of(after).dom().contains(k) <==> (k != key && table_of(
                before,
            ).dom().contains(k)) by {
                if keys_of(after).contains(k) {
                    let j = choose|j: int| 0 <= j < after.len() && keys_of(after)[j] == k;
                    let j0 = if j < i { j } else { j + 1 };
                    assert(after[j] == before[j0]);
                    assert(keys_of(before)[j0] == k);
                    if k == key {
                        if j0 < i {
                            assert(before[j0].0.rank() < before[i as int].0.rank());
                        } else {
                            assert(before[i as int].0.rank() < before[j0].0.rank());
                        }
                    }
                }
                if k != key && keys_of(before).contains(k) {
                    let j0 = choose|j: int| 0 <= j < before.len() && keys_of(before)[j] == k;
                    assert(j0 != i);
                    let j = if j0 < i { j0 } else { j0 - 1 };
                    assert(after[j] == before[j0]);
                    assert(keys_of(after)[j] == k);
                }
            }
            assert forall|k: K| table_of(after).dom().contains(k) implies table_of(after)[k]
                == table_of(before)[k] by {
                let j0 = keys_of(before).index_of(k);
                assert(0 <= j0 < before.len() && keys_of(before)[j0] == k);
                lemma_entry_found(before, j0);
                let j = if j0 < i { j0 } else { j0 - 1 };
                assert(after[j] == before[j0]);
                lemma_entry_found(after, j);
            }
        }
        self.entries = list;
        assert(self@ =~= old(self)@.remove(key));
        Some(gone.1)
    }

    /// A table with the same entries.
    pub fn duplicate(&self) -> (r: Self) where V: Copy
        ensures
            r@ == self@,
            r.in_order() == self.in_order(),
    {
        proof {
            use_type_invariant(self);
        }
        let mut out: Vec<(K, V)> = Vec::new();
        let mut i: usize = 0;
        while i < self.entries.len()
            invariant
                i <= self.entries.len(),
                out@ == self.entries@.take(i as int),
            decreases self.entries.len() - i,
        {
            out.push((self.entries[i].0, self.entries[i].1));
            assert(out@ =~= self.entries@.take(i as int + 1));
            i += 1;
        }
        assert(out@ =~= self.entries@);
        SortedMap { entries: out }
    }

    /// The keys of the table, in their order.
    pub fn keys(&self) -> (r: Vec<K>)
        ensures
            r@ == keys_of(self.in_order()),
    {
        let mut out: Vec<K> = Vec::new();
        let mut i: usize = 0;
        while i < self.entries.len()
            invariant
                i <= self.entries.len(),
                out@ == keys_of(self.entries@).take(i as int),
            decreases self.entries.len() - i,
        {
            out.push(self.entries[i].0);
            assert(out@ =~= keys_of(self.entries@).take(i as int + 1));
            i += 1;
        }
        assert(out@ =~= keys_of(self.entries@));
        out
    }
}

} // verus!
