//! Picking the oldest of a number of timed entries.

use crate::keyed::{distinct_keys, keyed, lemma_keyed, lemma_same_pairs};
use vstd::prelude::*;

verus! {

/// Whether entry `a`, an identifier with its time, is picked before entry `b`: the earlier time
/// first, and the smaller identifier among equal times.
pub open spec fn comes_before(a: (u64, u64), b: (u64, u64)) -> bool {
    a.1 < b.1 || (a.1 == b.1 && a.0 < b.0)
}

/// The identifiers of the entries that are picked before that of `id`.
pub open spec fn picked_before(times: Map<u64, u64>, id: u64) -> Set<u64> {
    times.dom().filter(|other: u64| comes_before((other, times[other]), (id, times[id])))
}

/// The identifiers of the `count` oldest entries, or of all where there are not that many.
pub open spec fn oldest(times: Map<u64, u64>, count: nat) -> Set<u64> {
    times.dom().filter(|id: u64| picked_before(times, id).len() < count)
}

/// Whether no entry stands behind one that is picked after it.
pub open spec fn in_order(entries: Seq<(u64, u64)>) -> bool {
    forall|i: int, j: int|
        0 <= i < j < entries.len() ==> !comes_before(#[trigger] entries[j], #[trigger] entries[i])
}

fn goes_first(a: (u64, u64), b: (u64, u64)) -> (first: bool)
    ensures
        first == comes_before(a, b),
{
    a.1 < b.1 || (a.1 == b.1 && a.0 < b.0)
}

fn merge(left: &Vec<(u64, u64)>, right: &Vec<(u64, u64)>) -> (merged: Vec<(u64, u64)>)
    requires
        in_order(left@),
        in_order(right@),
    ensures
        in_order(merged@),
        merged@.to_multiset() == left@.to_multiset().add(right@.to_multiset()),
{
    broadcast use vstd::multiset::group_multiset_axioms;
    broadcast use vstd::seq_lib::group_to_multiset_ensures;

    let mut merged: Vec<(u64, u64)> = Vec::new();
    let mut i: usize = 0;
    let mut j: usize = 0;
    proof {
        assert(left@.take(0) =~= Seq::<(u64, u64)>::empty());
        assert(right@.take(0) =~= Seq::<(u64, u64)>::empty());
        assert(merged@ =~= Seq::<(u64, u64)>::empty());
        assert(merged@.to_multiset() =~= left@.take(0).to_multiset().add(
            right@.take(0).to_multiset(),
        ));
    }
    while i < left.len() || j < right.len()
        invariant
            i <= left.len(),
            j <= right.len(),
            in_order(left@),
            in_order(right@),
            in_order(merged@),
            merged@.to_multiset() == left@.take(i as int).to_multiset().add(
                right@.take(j as int).to_multiset(),
            ),
            forall|m: int, k: int|
                0 <= m < merged.len() && i <= k < left.len() ==> !comes_before(
                    #[trigger] left@[k],
                    #[trigger] merged@[m],
                ),
            forall|m: int, k: int|
                0 <= m < merged.len() && j <= k < right.len() ==> !comes_before(
                    #[trigger] right@[k],
                    #[trigger] merged@[m],
                ),
        decreases left.len() - i + right.len() - j,
    {
        broadcast use vstd::multiset::group_multiset_axioms;
        broadcast use vstd::seq_lib::group_to_multiset_ensures;

        let ghost before = merged@;
        if j >= right.len() || (i < left.len() && !goes_first(right[j], left[i])) {
            merged.push(left[i]);
            proof {
                assert(left@.take(i + 1) =~= left@.take(i as int).push(left@[i as int]));
                assert(merged@.to_multiset() =~= left@.take(i + 1).to_multiset().add(
                    right@.take(j as int).to_multiset(),
                ));
            }
            i += 1;
        } else {
            merged.push(right[j]);
            proof {
                assert(right@.take(j + 1) =~= right@.take(j as int).push(right@[j as int]));
                assert(merged@.to_multiset() =~= left@.take(i as int).to_multiset().add(
                    right@.take(j + 1).to_multiset(),
                ));
            }
            j += 1;
        }
        assert forall|p: int, q: int| 0 <= p < q < merged.len() implies !comes_before(
            #[trigger] merged@[q],
            #[trigger] merged@[p],
        ) by {
            assert(merged@[p] == before[p]);
            if q < before.len() {
                assert(merged@[q] == before[q]);
            }
        }
    }
    proof {
        assert(left@.take(i as int) =~= left@);
        assert(right@.take(j as int) =~= right@);
    }
    merged
}

fn sort(entries: Vec<(u64, u64)>) -> (sorted: Vec<(u64, u64)>)
    ensures
        in_order(sorted@),
        sorted@.to_multiset() == entries@.to_multiset(),
    decreases entries@.len(),
{
    if entries.len() <= 1 {
        return entries;
    }
    let ghost all = entries@;
    let middle = entries.len() / 2;
    let mut left = entries;
    let right = left.split_off(middle);
    proof {
        assert(left@ + right@ =~= all);
        vstd::seq_lib::lemma_multiset_commutative(left@, right@);
    }
    let left = sort(left);
    let right = sort(right);
    merge(&left, &right)
}

/// An ordering of a list with distinct keys holds the same pairs.
proof fn lemma_reordered(before: Seq<(u64, u64)>, after: Seq<(u64, u64)>)
    requires
        distinct_keys(before),
        after.to_multiset() == before.to_multiset(),
    ensures
        distinct_keys(after),
        keyed(after) == keyed(before),
        after.len() == before.len(),
{
    before.to_multiset_ensures();
    after.to_multiset_ensures();
    assert(before.no_duplicates()) by {
        assert forall|i: int, j: int|
            0 <= i < before.len() && 0 <= j < before.len() && i != j implies before[i]
            != before[j] by {
            if i < j {
                assert(before[i].0 != before[j].0);
            } else {
                assert(before[j].0 != before[i].0);
            }
        }
    }
    before.lemma_multiset_has_no_duplicates();
    assert forall|x: (u64, u64)| after.to_multiset().contains(x) implies after.to_multiset().count(
        x,
    ) == 1 by {}
    after.lemma_multiset_has_no_duplicates_conv();
    lemma_keyed(before);
    assert forall|i: int| 0 <= i < after.len() implies before.contains(#[trigger] after[i]) by {
        assert(after.contains(after[i]));
        assert(after.to_multiset().count(after[i]) > 0);
    }
    assert forall|i: int| 0 <= i < before.len() implies after.contains(#[trigger] before[i]) by {
        assert(before.contains(before[i]));
        assert(before.to_multiset().count(before[i]) > 0);
    }
    assert forall|i: int, j: int| 0 <= i < j < after.len() implies (#[trigger] after[i]).0 != (
    #[trigger] after[j]).0 by {
        let p = choose|p: int| 0 <= p < before.len() && before[p] == after[i];
        let q = choose|q: int| 0 <= q < before.len() && before[q] == after[j];
        assert(after[i] != after[j]);
        assert(p != q);
        if p < q {
            assert(before[p].0 != before[q].0);
        } else {
            assert(before[q].0 != before[p].0);
        }
    }
    assert forall|i: int| 0 <= i < after.len() implies keyed(before).contains_key(
        (#[trigger] after[i]).0,
    ) && keyed(before)[after[i].0] == after[i].1 by {
        let p = choose|p: int| 0 <= p < before.len() && before[p] == after[i];
        assert(keyed(before).contains_key(before[p].0));
    }
    assert forall|k: u64| #[trigger] keyed(before).contains_key(k) implies exists|i: int|
        0 <= i < after.len() && (#[trigger] after[i]).0 == k by {
        let p = choose|p: int| 0 <= p < before.len() && (#[trigger] before[p]).0 == k;
        let i = choose|i: int| 0 <= i < after.len() && after[i] == before[p];
        assert(after[i].0 == k);
    }
    lemma_same_pairs(after, keyed(before));
}

/// In a sorted list the entries that are picked before one are those that stand before it.
proof fn lemma_position(entries: Seq<(u64, u64)>, at: int)
    requires
        distinct_keys(entries),
        in_order(entries),
        0 <= at < entries.len(),
    ensures
        picked_before(keyed(entries), entries[at].0).len() == at,
{
    let times = keyed(entries);
    lemma_keyed(entries);
    let ids = Seq::new(at as nat, |i: int| entries[i].0);
    let before = picked_before(times, entries[at].0);
    assert(times[entries[at].0] == entries[at].1);
    assert forall|id: u64| before.contains(id) implies ids.contains(id) by {
        assert(times.contains_key(id));
        let i = choose|i: int| 0 <= i < entries.len() && (#[trigger] entries[i]).0 == id;
        assert(entries[i] == (id, times[id]));
        assert(comes_before(entries[i], entries[at]));
        if i > at {
            assert(!comes_before(entries[i], entries[at]));
        }
        assert(i < at);
        assert(ids[i] == id);
    }
    assert forall|id: u64| ids.contains(id) implies before.contains(id) by {
        let i = choose|i: int| 0 <= i < ids.len() && ids[i] == id;
        assert(entries[i].0 == id && times[id] == entries[i].1);
        assert(entries[i].0 != entries[at].0);
        assert(!comes_before(entries[at], entries[i]));
    }
    assert(before =~= ids.to_set());
    assert forall|i: int, j: int| 0 <= i < ids.len() && 0 <= j < ids.len() && i != j implies ids[i]
        != ids[j] by {
        if i < j {
            assert(entries[i].0 != entries[j].0);
        } else {
            assert(entries[j].0 != entries[i].0);
        }
    }
    ids.unique_seq_to_set();
}

/// The identifiers of the `count` oldest among `candidates`, each an identifier with its time.
pub fn pick_oldest(candidates: Vec<(u64, u64)>, count: usize) -> (ids: Vec<u64>)
    requires
        distinct_keys(candidates@),
    ensures
        ids@.to_set() == oldest(keyed(candidates@), count as nat),
        ids@.no_duplicates(),
        ids.len() == if count < candidates.len() {
            count
        } else {
            candidates.len()
        },
{
    let ghost times = keyed(candidates@);
    let sorted = sort(candidates);
    proof {
        lemma_reordered(candidates@, sorted@);
        lemma_keyed(sorted@);
    }
    let mut ids: Vec<u64> = Vec::new();
    let mut i: usize = 0;
    while i < sorted.len() && i < count
        invariant
            i <= sorted.len(),
            i <= count,
            ids.len() == i,
            forall|k: int| 0 <= k < i ==> #[trigger] ids@[k] == sorted@[k].0,
        decreases sorted.len() - i,
    {
        ids.push(sorted[i].0);
        i += 1;
    }
    proof {
        let picked = oldest(times, count as nat);
        assert forall|id: u64| ids@.contains(id) implies picked.contains(id) by {
            let k = choose|k: int| 0 <= k < ids@.len() && ids@[k] == id;
            lemma_position(sorted@, k);
            assert(times.contains_key(sorted@[k].0));
        }
        assert forall|id: u64| picked.contains(id) implies ids@.contains(id) by {
            assert(times.contains_key(id));
            let k = choose|k: int| 0 <= k < sorted@.len() && (#[trigger] sorted@[k]).0 == id;
            lemma_position(sorted@, k);
            assert(k < count);
            assert(ids@[k] == id);
        }
        assert(ids@.to_set() =~= picked);
        assert forall|p: int, q: int|
            0 <= p < ids@.len() && 0 <= q < ids@.len() && p != q implies ids@[p] != ids@[q] by {
            if p < q {
                assert(sorted@[p].0 != sorted@[q].0);
            } else {
                assert(sorted@[q].0 != sorted@[p].0);
            }
        }
    }
    ids
}

/// Every entry that is picked comes before every entry that is not.
pub proof fn oldest_come_first(times: Map<u64, u64>, count: nat, picked: u64, left: u64)
    requires
        times.dom().finite(),
        oldest(times, count).contains(picked),
        times.contains_key(left),
        !oldest(times, count).contains(left),
    ensures
        comes_before((picked, times[picked]), (left, times[left])),
{
    if !comes_before((picked, times[picked]), (left, times[left])) {
        let before_picked = picked_before(times, picked);
        let before_left = picked_before(times, left);
        assert(picked != left);
        assert(before_left.subset_of(before_picked));
        vstd::set_lib::lemma_len_subset(before_left, before_picked);
    }
}

/// The entry that is picked last.
proof fn lemma_last(times: Map<u64, u64>) -> (last: u64)
    requires
        times.dom().finite(),
        times.len() > 0,
    ensures
        times.contains_key(last),
        forall|other: u64| #[trigger]
            times.contains_key(other) && other != last ==> comes_before(
                (other, times[other]),
                (last, times[last]),
            ),
    decreases times.len(),
{
    let some = times.dom().choose();
    assert(times.dom().contains(some)) by {
        if !times.dom().contains(some) {
            assert(times.dom() =~= Set::empty());
        }
    }
    let rest = times.remove(some);
    if rest.len() == 0 {
        assert forall|other: u64| #[trigger] times.contains_key(other) implies other == some by {
            if other != some {
                assert(rest.dom().contains(other));
                assert(rest.dom().remove(other).len() == rest.len() - 1);
            }
        }
        some
    } else {
        let last = lemma_last(rest);
        assert(rest.contains_key(last));
        assert forall|other: u64| times.contains_key(other) && other != some implies (
        #[trigger] rest.contains_key(other)) && rest[other] == times[other] by {}
        if comes_before((some, times[some]), (last, times[last])) {
            last
        } else {
            assert forall|other: u64| #[trigger]
                times.contains_key(other) && other != some implies comes_before(
                (other, times[other]),
                (some, times[some]),
            ) by {
                assert(rest.contains_key(other));
            }
            some
        }
    }
}

/// As many entries are picked as were asked for, or all where there are not that many.
pub proof fn oldest_are_as_many_as_asked(times: Map<u64, u64>, count: nat)
    requires
        times.dom().finite(),
    ensures
        oldest(times, count).finite(),
        oldest(times, count).len() == if count < times.len() {
            count
        } else {
            times.len()
        },
    decreases times.len(),
{
    let picked = oldest(times, count);
    if times.len() == 0 {
        assert(times.dom() =~= Set::empty()) by {
            times.dom().lemma_len0_is_empty();
        }
        assert(picked =~= Set::empty());
    } else {
        let last = lemma_last(times);
        let rest = times.remove(last);
        oldest_are_as_many_as_asked(rest, count);
        assert(picked_before(times, last) =~= rest.dom());
        assert forall|id: u64| rest.contains_key(id) implies picked_before(times, id)
            == #[trigger] picked_before(rest, id) by {
            assert forall|other: u64| picked_before(times, id).contains(other) implies picked_before(
                rest,
                id,
            ).contains(other) by {
                if other == last {
                    assert(comes_before((id, times[id]), (last, times[last])));
                }
            }
            assert(picked_before(times, id) =~= picked_before(rest, id));
        }
        let others = oldest(rest, count);
        assert forall|id: u64| id != last implies picked.contains(id) == others.contains(id) by {
            if rest.contains_key(id) {
                assert(picked_before(times, id) == picked_before(rest, id));
            }
        }
        assert(!others.contains(last));
        if rest.len() < count {
            assert(picked =~= others.insert(last));
        } else {
            assert(picked =~= others);
        }
    }
}

/// The entries that are picked are among those given, as many as asked for or all. Of the entries
/// left, none has an earlier time than one that is picked, and none has the same time and a
/// smaller identifier.
pub proof fn picked_have_the_earliest_times(
    times: Map<u64, u64>,
    count: nat,
    picked: u64,
    left: u64,
)
    requires
        times.dom().finite(),
    ensures
        oldest(times, count).subset_of(times.dom()),
        oldest(times, count).len() == if count < times.len() {
            count
        } else {
            times.len()
        },
        oldest(times, count).contains(picked) && times.contains_key(left) && !oldest(
            times,
            count,
        ).contains(left) ==> times[picked] < times[left] || (times[picked] == times[left] && picked
            < left),
{
    oldest_are_as_many_as_asked(times, count);
    if oldest(times, count).contains(picked) && times.contains_key(left) && !oldest(
        times,
        count,
    ).contains(left) {
        oldest_come_first(times, count, picked, left);
    }
}

} // verus!
