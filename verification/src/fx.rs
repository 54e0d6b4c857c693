//! The hash sets of `rustc_hash`, as the stores use them.

use crate::lists::lemma_take_one_more;
use rustc_hash::{FxBuildHasher, FxHashSet};
use vstd::prelude::*;

verus! {

/// `rustc_hash::FxBuildHasher`, which makes the hashers of `FxHashSet` and `FxHashMap`.
#[verifier::external_type_specification]
#[verifier::external_body]
pub struct ExFxBuildHasher(FxBuildHasher);

/// Calls `HashSet::insert` on an `FxHashSet` of integers: afterwards the set holds `item` beside
/// what it held, and the result tells whether `item` was new.
#[verifier::external_body]
pub(crate) fn set_insert(set: &mut FxHashSet<u64>, item: u64) -> (new: bool)
    ensures
        final(set)@ == old(set)@.insert(item),
        new == !old(set)@.contains(item),
{
    set.insert(item)
}

/// Calls `HashSet::contains` on an `FxHashSet` of integers: the result tells whether the set
/// holds `item`.
#[verifier::external_body]
pub(crate) fn set_contains(set: &FxHashSet<u64>, item: u64) -> (found: bool)
    ensures
        found == set@.contains(item),
{
    set.contains(&item)
}

/// The set of the integers in `items`.
pub(crate) fn collect_set(items: &Vec<u64>) -> (set: FxHashSet<u64>)
    ensures
        set@ == items@.to_set(),
{
    let mut set: FxHashSet<u64> = FxHashSet::default();
    let mut i: usize = 0;
    assert(set@ =~= items@.take(0).to_set());
    while i < items.len()
        invariant
            i <= items.len(),
            set@ == items@.take(i as int).to_set(),
        decreases items.len() - i,
    {
        set_insert(&mut set, items[i]);
        proof {
            lemma_take_one_more(items@, i as int);
            assert(set@ =~= items@.take(i + 1).to_set());
        }
        i += 1;
    }
    assert(items@.take(i as int) =~= items@);
    set
}

} // verus!
