//! Lists of pairs read as maps.

use vstd::prelude::*;

verus! {

/// The map from the first of each pair to the second.
pub open spec fn keyed<K, V>(pairs: Seq<(K, V)>) -> Map<K, V>
    decreases pairs.len(),
{
    if pairs.len() == 0 {
        Map::empty()
    } else {
        keyed(pairs.drop_last()).insert(pairs.last().0, pairs.last().1)
    }
}

/// Whether no two pairs share their first.
pub open spec fn distinct_keys<K, V>(pairs: Seq<(K, V)>) -> bool {
    forall|i: int, j: int| 0 <= i < j < pairs.len() ==> (#[trigger] pairs[i]).0 != (#[trigger] pairs[j]).0
}

/// What the map of a list with distinct keys holds: exactly its pairs.
pub proof fn lemma_keyed<K, V>(pairs: Seq<(K, V)>)
    requires
        distinct_keys(pairs),
    ensures
        keyed(pairs).dom().finite(),
        keyed(pairs).len() == pairs.len(),
        forall|i: int|
            0 <= i < pairs.len() ==> keyed(pairs).contains_key((#[trigger] pairs[i]).0) && keyed(
                pairs,
            )[pairs[i].0] == pairs[i].1,
        forall|k: K| #[trigger]
            keyed(pairs).contains_key(k) ==> exists|i: int|
                0 <= i < pairs.len() && (#[trigger] pairs[i]).0 == k,
    decreases pairs.len(),
{
    if pairs.len() > 0 {
        let front = pairs.drop_last();
        assert forall|i: int, j: int| 0 <= i < j < front.len() implies (#[trigger] front[i]).0 != (
        #[trigger] front[j]).0 by {
            assert(front[i] == pairs[i] && front[j] == pairs[j]);
        }
        lemma_keyed(front);
        let last = pairs[pairs.len() - 1];
        assert(!keyed(front).contains_key(last.0)) by {
            if keyed(front).contains_key(last.0) {
                let i = choose|i: int| 0 <= i < front.len() && (#[trigger] front[i]).0 == last.0;
                assert(pairs[i] == front[i]);
            }
        }
        assert forall|i: int| 0 <= i < pairs.len() implies keyed(pairs).contains_key(
            (#[trigger] pairs[i]).0,
        ) && keyed(pairs)[pairs[i].0] == pairs[i].1 by {
            if i < front.len() {
                assert(front[i] == pairs[i]);
            }
        }
        assert forall|k: K| #[trigger] keyed(pairs).contains_key(k) implies exists|i: int|
            0 <= i < pairs.len() && (#[trigger] pairs[i]).0 == k by {
            if k == last.0 {
                assert(pairs[pairs.len() - 1].0 == k);
            } else {
                assert(keyed(front).contains_key(k));
                let i = choose|i: int| 0 <= i < front.len() && (#[trigger] front[i]).0 == k;
                assert(pairs[i].0 == k);
            }
        }
    }
}

/// Two lists with distinct keys that hold the same pairs are the same map.
pub proof fn lemma_same_pairs<K, V>(a: Seq<(K, V)>, m: Map<K, V>)
    requires
        distinct_keys(a),
        forall|i: int|
            0 <= i < a.len() ==> m.contains_key((#[trigger] a[i]).0) && m[a[i].0] == a[i].1,
        forall|k: K| #[trigger]
            m.contains_key(k) ==> exists|i: int| 0 <= i < a.len() && (#[trigger] a[i]).0 == k,
    ensures
        keyed(a) == m,
{
    lemma_keyed(a);
    assert forall|k: K| keyed(a).contains_key(k) implies m.contains_key(k) && m[k] == keyed(
        a,
    )[k] by {
        let i = choose|i: int| 0 <= i < a.len() && (#[trigger] a[i]).0 == k;
        assert(m.contains_key(a[i].0));
    }
    assert forall|k: K| m.contains_key(k) implies keyed(a).contains_key(k) by {
        let i = choose|i: int| 0 <= i < a.len() && (#[trigger] a[i]).0 == k;
        assert(keyed(a).contains_key(a[i].0));
    }
    assert(keyed(a) =~= m);
}

/// Appending a pair with a key that the list has not inserts it into the map.
pub proof fn lemma_keyed_push<K, V>(pairs: Seq<(K, V)>, key: K, value: V)
    requires
        distinct_keys(pairs),
        !keyed(pairs).contains_key(key),
    ensures
        distinct_keys(pairs.push((key, value))),
        keyed(pairs.push((key, value))) == keyed(pairs).insert(key, value),
{
    lemma_keyed(pairs);
    let longer = pairs.push((key, value));
    assert(longer.drop_last() =~= pairs);
    assert forall|i: int, j: int| 0 <= i < j < longer.len() implies (#[trigger] longer[i]).0 != (
    #[trigger] longer[j]).0 by {
        assert(longer[i] == pairs[i]);
        if j < pairs.len() {
            assert(longer[j] == pairs[j]);
        } else {
            assert(keyed(pairs).contains_key(pairs[i].0));
        }
    }
}

/// Taking a pair out of the list takes its key out of the map.
pub proof fn lemma_keyed_remove<K, V>(pairs: Seq<(K, V)>, at: int)
    requires
        distinct_keys(pairs),
        0 <= at < pairs.len(),
    ensures
        distinct_keys(pairs.remove(at)),
        keyed(pairs.remove(at)) == keyed(pairs).remove(pairs[at].0),
{
    lemma_keyed(pairs);
    let rest = pairs.remove(at);
    let target = keyed(pairs).remove(pairs[at].0);
    assert forall|i: int, j: int| 0 <= i < j < rest.len() implies (#[trigger] rest[i]).0 != (
    #[trigger] rest[j]).0 by {
        let i0 = if i < at { i } else { i + 1 };
        let j0 = if j < at { j } else { j + 1 };
        assert(rest[i] == pairs[i0] && rest[j] == pairs[j0]);
    }
    assert forall|i: int| 0 <= i < rest.len() implies target.contains_key((#[trigger] rest[i]).0)
        && target[rest[i].0] == rest[i].1 by {
        let i0 = if i < at { i } else { i + 1 };
        assert(rest[i] == pairs[i0]);
        assert(pairs[i0].0 != pairs[at].0);
    }
    assert forall|k: K| #[trigger] target.contains_key(k) implies exists|i: int|
        0 <= i < rest.len() && (#[trigger] rest[i]).0 == k by {
        let i0 = choose|i: int| 0 <= i < pairs.len() && (#[trigger] pairs[i]).0 == k;
        let i = if i0 < at { i0 } else { i0 - 1 };
        assert(rest[i] == pairs[i0]);
    }
    lemma_same_pairs(rest, target);
}

/// Changing the second of a pair changes the value of its key.
pub proof fn lemma_keyed_update<K, V>(pairs: Seq<(K, V)>, at: int, value: V)
    requires
        distinct_keys(pairs),
        0 <= at < pairs.len(),
    ensures
        distinct_keys(pairs.update(at, (pairs[at].0, value))),
        keyed(pairs.update(at, (pairs[at].0, value))) == keyed(pairs).insert(pairs[at].0, value),
{
    lemma_keyed(pairs);
    let changed = pairs.update(at, (pairs[at].0, value));
    let target = keyed(pairs).insert(pairs[at].0, value);
    assert forall|i: int| 0 <= i < changed.len() implies (#[trigger] changed[i]).0 == pairs[i].0 by {}
    assert forall|i: int, j: int| 0 <= i < j < changed.len() implies (#[trigger] changed[i]).0 != (
    #[trigger] changed[j]).0 by {
        assert(pairs[i].0 != pairs[j].0);
    }
    assert forall|i: int| 0 <= i < changed.len() implies target.contains_key(
        (#[trigger] changed[i]).0,
    ) && target[changed[i].0] == changed[i].1 by {
        if i != at {
            assert(pairs[i].0 != pairs[at].0);
            assert(changed[i] == pairs[i]);
        }
    }
    assert forall|k: K| #[trigger] target.contains_key(k) implies exists|i: int|
        0 <= i < changed.len() && (#[trigger] changed[i]).0 == k by {
        if k == pairs[at].0 {
            assert(changed[at].0 == k);
        } else {
            assert(keyed(pairs).contains_key(k));
            let i = choose|i: int| 0 <= i < pairs.len() && (#[trigger] pairs[i]).0 == k;
            assert(changed[i].0 == k);
        }
    }
    lemma_same_pairs(changed, target);
}

} // verus!
