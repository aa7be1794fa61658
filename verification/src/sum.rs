//! Sums of an integer quantity over a finite set of identities.

use vstd::prelude::*;
use crate::identity::Identity;

verus! {

/// The step that adds the quantity of one more identity to a running total.
pub open spec fn adding(f: spec_fn(Identity) -> int) -> spec_fn(int, Identity) -> int {
    |acc: int, k: Identity| acc + f(k)
}

/// The sum of `f` over the members of `keys`.
pub open spec fn sum_over(keys: Set<Identity>, f: spec_fn(Identity) -> int) -> int {
    keys.fold(0int, adding(f))
}

/// The sum of the amounts that `m` holds.
pub open spec fn total(m: Map<Identity, int>) -> int {
    sum_over(m.dom(), |k: Identity| m[k])
}

proof fn lemma_adding_commutes(f: spec_fn(Identity) -> int)
    ensures
        vstd::set::fold::is_fun_commutative(adding(f)),
{
    assert forall|a1: Identity, a2: Identity, b: int| #[trigger]
        adding(f)(adding(f)(b, a2), a1) == adding(f)(adding(f)(b, a1), a2) by {}
}

/// Nothing sums to zero.
pub proof fn lemma_sum_empty(f: spec_fn(Identity) -> int)
    ensures
        sum_over(Set::<Identity>::empty(), f) == 0,
{
    vstd::set::fold::lemma_fold_empty(0int, adding(f));
}

/// A new member adds its own quantity to the sum.
pub proof fn lemma_sum_insert(keys: Set<Identity>, f: spec_fn(Identity) -> int, k: Identity)
    requires
        keys.finite(),
        !keys.contains(k),
    ensures
        sum_over(keys.insert(k), f) == sum_over(keys, f) + f(k),
{
    lemma_adding_commutes(f);
    vstd::set::fold::lemma_fold_insert(keys, 0int, adding(f), k);
}

/// A member that leaves takes its own quantity out of the sum.
pub proof fn lemma_sum_remove(keys: Set<Identity>, f: spec_fn(Identity) -> int, k: Identity)
    requires
        keys.finite(),
        keys.contains(k),
    ensures
        sum_over(keys.remove(k), f) == sum_over(keys, f) - f(k),
{
    let rest = keys.remove(k);
    assert(rest.insert(k) =~= keys);
    lemma_sum_insert(rest, f, k);
}

/// Two quantities that agree on every member have the same sum.
pub proof fn lemma_sum_agree(
    keys: Set<Identity>,
    f: spec_fn(Identity) -> int,
    g: spec_fn(Identity) -> int,
)
    requires
        keys.finite(),
        forall|k: Identity| keys.contains(k) ==> f(k) == g(k),
    ensures
        sum_over(keys, f) == sum_over(keys, g),
    decreases keys.len(),
{
    if keys.len() == 0 {
        keys.lemma_len0_is_empty();
        lemma_sum_empty(f);
        lemma_sum_empty(g);
    } else {
        let k = keys.choose();
        let rest = keys.remove(k);
        lemma_sum_agree(rest, f, g);
        lemma_sum_remove(keys, f, k);
        lemma_sum_remove(keys, g, k);
    }
}

/// A sum of quantities that are never negative is not negative, and no
/// smaller than the sum over any part of the set.
pub proof fn lemma_sum_monotone(
    part: Set<Identity>,
    keys: Set<Identity>,
    f: spec_fn(Identity) -> int,
)
    requires
        keys.finite(),
        part.subset_of(keys),
        forall|k: Identity| keys.contains(k) ==> f(k) >= 0,
    ensures
        0 <= sum_over(part, f) <= sum_over(keys, f),
    decreases keys.len(),
{
    vstd::set_lib::lemma_set_subset_finite(keys, part);
    if keys.len() == 0 {
        keys.lemma_len0_is_empty();
        assert(part =~= Set::<Identity>::empty());
        lemma_sum_empty(f);
    } else {
        let k = keys.choose();
        let rest = keys.remove(k);
        lemma_sum_remove(keys, f, k);
        if part.contains(k) {
            lemma_sum_monotone(part.remove(k), rest, f);
            lemma_sum_remove(part, f, k);
        } else {
            lemma_sum_monotone(part, rest, f);
        }
    }
}

} // verus!
