//! The items of growing lists.

use vstd::prelude::*;

verus! {

/// The items of a list up to one more are those so far and that one.
pub proof fn lemma_take_one_more<A>(items: Seq<A>, at: int)
    requires
        0 <= at < items.len(),
    ensures
        forall|x: A|
            #![trigger items.take(at + 1).contains(x)]
            #![trigger items.take(at).contains(x)]
            items.take(at + 1).contains(x) <==> items.take(at).contains(x) || x == items[at],
        items.no_duplicates() ==> !items.take(at).contains(items[at]),
{
    assert(items.take(at + 1) =~= items.take(at).push(items[at]));
    lemma_push_contains(items.take(at), items[at]);
    if items.no_duplicates() && items.take(at).contains(items[at]) {
        let k = choose|k: int| 0 <= k < at && items.take(at)[k] == items[at];
        assert(items[k] == items[at]);
    }
}

/// Appending an item keeps the others, and keeps a list free of duplicates if the item is new.
pub proof fn lemma_push_contains<A>(items: Seq<A>, item: A)
    ensures
        forall|x: A|
            #![trigger items.push(item).contains(x)]
            #![trigger items.contains(x)]
            items.push(item).contains(x) <==> items.contains(x) || x == item,
        items.no_duplicates() && !items.contains(item) ==> items.push(item).no_duplicates(),
{
    let longer = items.push(item);
    assert forall|x: A| items.contains(x) || x == item implies longer.contains(x) by {
        if x == item {
            assert(longer[items.len() as int] == x);
        } else {
            let k = choose|k: int| 0 <= k < items.len() && items[k] == x;
            assert(longer[k] == x);
        }
    }
    assert forall|x: A| longer.contains(x) implies items.contains(x) || x == item by {
        let k = choose|k: int| 0 <= k < longer.len() && longer[k] == x;
        if k < items.len() {
            assert(items[k] == x);
        }
    }
    if items.no_duplicates() && !items.contains(item) {
        assert forall|i: int, j: int|
            0 <= i < longer.len() && 0 <= j < longer.len() && i != j implies longer[i]
            != longer[j] by {
            if i < items.len() {
                assert(items.contains(items[i]));
            }
            if j < items.len() {
                assert(items.contains(items[j]));
            }
        }
    }
}

} // verus!
