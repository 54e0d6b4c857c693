//! The known maps.

use crate::domain::{MapId, MapKey, MapKeyView, MapSegment, MapSegmentView};
use crate::keyed::{
    distinct_keys, keyed, lemma_keyed, lemma_keyed_push, lemma_keyed_remove, lemma_keyed_update,
};
use vstd::prelude::*;

verus! {

/// Whether a map with the key `key` is among `maps`.
pub open spec fn has_map(maps: Map<MapId, MapSegmentView>, key: MapKeyView) -> bool {
    exists|id: MapId| #[trigger] maps.contains_key(id) && maps[id].key() == key
}

#[derive(Debug)]
struct MapEntry {
    id: MapId,
    segment: MapSegment,
}

/// Maps by identifier. Each is known by its key once, and no identifier is given twice.
#[derive(Debug)]
pub struct MapStore {
    entries: Vec<MapEntry>,
    next_id: MapId,
}

spec fn pairs(entries: Seq<MapEntry>) -> Seq<(MapId, MapSegmentView)> {
    entries.map_values(|entry: MapEntry| (entry.id, entry.segment@))
}

/// What it is to ensure `segment` in a store: the result is the identifier of its key, and the
/// store afterwards holds it, with the time of `segment` and, where it was known, all else as it
/// was.
pub open spec fn ensured_map(
    before: MapStore,
    after: MapStore,
    segment: MapSegmentView,
    id: MapId,
) -> bool {
    if has_map(before@, segment.key()) {
        &&& before@.contains_key(id)
        &&& before@[id].key() == segment.key()
        &&& after@ == before@.insert(
            id,
            MapSegmentView { update_time: segment.update_time, ..before@[id] },
        )
        &&& after.next_id() == before.next_id()
    } else {
        &&& id == before.next_id()
        &&& after.next_id() == id + 1
        &&& !before@.contains_key(id)
        &&& after@ == before@.insert(id, segment)
    }
}

impl View for MapStore {
    type V = Map<MapId, MapSegmentView>;

    closed spec fn view(&self) -> Map<MapId, MapSegmentView> {
        keyed(pairs(self.entries@))
    }
}

impl MapStore {
    /// The identifier that the next new map gets.
    pub closed spec fn next_id(&self) -> MapId {
        self.next_id
    }

    /// What holds of every store.
    pub closed spec fn wf(&self) -> bool {
        &&& forall|i: int, j: int|
            0 <= i < j < self.entries@.len() ==> (#[trigger] self.entries@[i]).id < (
            #[trigger] self.entries@[j]).id
        &&& forall|i: int|
            0 <= i < self.entries@.len() ==> (#[trigger] self.entries@[i]).id < self.next_id
        &&& forall|i: int, j: int|
            0 <= i < j < self.entries@.len() ==> (#[trigger] self.entries@[i]).segment@.key() != (
            #[trigger] self.entries@[j]).segment@.key()
    }

    proof fn lemma_pairs(&self)
        requires
            self.wf(),
        ensures
            distinct_keys(pairs(self.entries@)),
            self@.dom().finite(),
            self@.len() == self.entries@.len(),
            forall|i: int|
                0 <= i < self.entries@.len() ==> self@.contains_key(
                    (#[trigger] self.entries@[i]).id,
                ) && self@[self.entries@[i].id] == self.entries@[i].segment@,
            forall|id: MapId| #[trigger]
                self@.contains_key(id) ==> exists|i: int|
                    0 <= i < self.entries@.len() && (#[trigger] self.entries@[i]).id == id,
    {
        let listed = pairs(self.entries@);
        assert forall|i: int, j: int| 0 <= i < j < listed.len() implies (#[trigger] listed[i]).0
            != (#[trigger] listed[j]).0 by {
            assert(self.entries@[i].id < self.entries@[j].id);
        }
        lemma_keyed(listed);
        assert forall|i: int| 0 <= i < self.entries@.len() implies self@.contains_key(
            (#[trigger] self.entries@[i]).id,
        ) && self@[self.entries@[i].id] == self.entries@[i].segment@ by {
            assert(self@.contains_key(listed[i].0));
        }
        assert forall|id: MapId| #[trigger] self@.contains_key(id) implies exists|i: int|
            0 <= i < self.entries@.len() && (#[trigger] self.entries@[i]).id == id by {
            let i = choose|i: int| 0 <= i < listed.len() && (#[trigger] listed[i]).0 == id;
            assert(self.entries@[i].id == id);
        }
    }

    /// No two maps of a store have the same key, every identifier in use has been given
    /// out, and the store is finite.
    pub proof fn keys_are_unique(&self)
        requires
            self.wf(),
        ensures
            self@.dom().finite(),
            forall|id: MapId| #[trigger] self@.contains_key(id) ==> id < self.next_id(),
            forall|a: MapId, b: MapId|
                #[trigger] self@.contains_key(a) && #[trigger] self@.contains_key(b) && self@[a].key()
                    == self@[b].key() ==> a == b,
    {
        self.lemma_pairs();
        assert forall|a: MapId, b: MapId| #[trigger]
            self@.contains_key(a) && #[trigger] self@.contains_key(b) && self@[a].key()
                == self@[b].key() implies a == b by {
            let i = choose|i: int|
                0 <= i < self.entries@.len() && (#[trigger] self.entries@[i]).id == a;
            let j = choose|j: int|
                0 <= j < self.entries@.len() && (#[trigger] self.entries@[j]).id == b;
            if i < j {
                assert(self.entries@[i].segment@.key() != self.entries@[j].segment@.key());
            } else if j < i {
                assert(self.entries@[j].segment@.key() != self.entries@[i].segment@.key());
            }
        }
    }

    /// A store without maps.
    pub fn new() -> (store: MapStore)
        ensures
            store.wf(),
            store@ == Map::<MapId, MapSegmentView>::empty(),
            store.next_id() == 0,
    {
        let store = MapStore { entries: Vec::new(), next_id: 0 };
        proof {
            assert(pairs(store.entries@).len() == 0);
        }
        store
    }

    /// How many maps there are.
    pub fn len(&self) -> (count: usize)
        requires
            self.wf(),
        ensures
            count == self@.len(),
    {
        proof {
            self.lemma_pairs();
        }
        self.entries.len()
    }

    /// Whether every identifier has been given out.
    pub fn is_full(&self) -> (full: bool)
        ensures
            full == (self.next_id() == u64::MAX),
    {
        self.next_id == u64::MAX
    }

    fn position(&self, id: MapId) -> (found: Option<usize>)
        requires
            self.wf(),
        ensures
            match found {
                Some(at) => at < self.entries@.len() && self.entries@[at as int].id == id
                    && self@.contains_key(id),
                None => !self@.contains_key(id),
            },
    {
        proof {
            self.lemma_pairs();
        }
        let mut low: usize = 0;
        let mut high: usize = self.entries.len();
        while low < high
            invariant
                self.wf(),
                low <= high <= self.entries@.len(),
                forall|i: int| 0 <= i < low ==> (#[trigger] self.entries@[i]).id < id,
                forall|i: int|
                    high <= i < self.entries@.len() ==> (#[trigger] self.entries@[i]).id > id,
                forall|i: int|
                    0 <= i < self.entries@.len() ==> self@.contains_key(
                        (#[trigger] self.entries@[i]).id,
                    ),
            decreases high - low,
        {
            let middle = low + (high - low) / 2;
            let probed = self.entries[middle].id;
            if probed == id {
                return Some(middle);
            } else if probed < id {
                low = middle + 1;
            } else {
                high = middle;
            }
        }
        None
    }

    /// The identifiers in use, in ascending order.
    pub fn ids(&self) -> (ids: Vec<MapId>)
        requires
            self.wf(),
        ensures
            ids@.to_set() == self@.dom(),
            forall|i: int, j: int| 0 <= i < j < ids.len() ==> ids@[i] < ids@[j],
    {
        let mut ids: Vec<MapId> = Vec::new();
        let mut i: usize = 0;
        while i < self.entries.len()
            invariant
                i <= self.entries@.len(),
                ids.len() == i,
                forall|k: int| 0 <= k < i ==> #[trigger] ids@[k] == self.entries@[k].id,
            decreases self.entries.len() - i,
        {
            ids.push(self.entries[i].id);
            i += 1;
        }
        proof {
            self.lemma_pairs();
            assert forall|id: MapId| ids@.contains(id) implies self@.contains_key(id) by {
                let k = choose|k: int| 0 <= k < ids@.len() && ids@[k] == id;
                assert(self.entries@[k].id == id);
            }
            assert forall|id: MapId| self@.contains_key(id) implies ids@.contains(id) by {
                let k = choose|k: int|
                    0 <= k < self.entries@.len() && (#[trigger] self.entries@[k]).id == id;
                assert(ids@[k] == id);
            }
            assert(ids@.to_set() =~= self@.dom());
        }
        ids
    }

    /// The map `id`.
    pub fn get(&self, id: MapId) -> (found: Option<&MapSegment>)
        requires
            self.wf(),
        ensures
            match found {
                Some(segment) => self@.contains_key(id) && segment@ == self@[id],
                None => !self@.contains_key(id),
            },
    {
        proof {
            self.lemma_pairs();
        }
        match self.position(id) {
            Some(at) => Some(&self.entries[at].segment),
            None => None,
        }
    }

    fn position_by_key(&self, key: &MapKey) -> (found: Option<usize>)
        requires
            self.wf(),
        ensures
            match found {
                Some(at) => at < self.entries@.len() && self.entries@[at as int].segment@.key()
                    == key@.identity() && self@.contains_key(self.entries@[at as int].id),
                None => !has_map(self@, key@.identity()),
            },
    {
        proof {
            self.lemma_pairs();
        }
        let mut i: usize = 0;
        while i < self.entries.len()
            invariant
                self.wf(),
                i <= self.entries@.len(),
                forall|k: int|
                    0 <= k < i ==> (#[trigger] self.entries@[k]).segment@.key() != key@.identity(),
                forall|k: int|
                    0 <= k < self.entries@.len() ==> self@.contains_key(
                        (#[trigger] self.entries@[k]).id,
                    ) && self@[self.entries@[k].id] == self.entries@[k].segment@,
            decreases self.entries.len() - i,
        {
            if self.entries[i].segment.has_key(key) {
                return Some(i);
            }
            i += 1;
        }
        None
    }

    /// The identifier of the map with the key `key`.
    pub fn id_by_key(&self, key: &MapKey) -> (found: Option<MapId>)
        requires
            self.wf(),
        ensures
            match found {
                Some(id) => self@.contains_key(id) && self@[id].key() == key@.identity(),
                None => !has_map(self@, key@.identity()),
            },
    {
        proof {
            self.lemma_pairs();
        }
        match self.position_by_key(key) {
            Some(at) => Some(self.entries[at].id),
            None => None,
        }
    }

    /// The identifier of the map with the key of `segment`, as [`MapStore::ensure_with_flag`]
    /// gives it.
    pub fn ensure(&mut self, segment: MapSegment) -> (id: MapId)
        requires
            old(self).wf(),
            has_map(old(self)@, segment@.key()) || old(self).next_id() < u64::MAX,
        ensures
            final(self).wf(),
            ensured_map(*old(self), *final(self), segment@, id),
    {
        self.ensure_with_flag(segment).0
    }

    /// The identifier of the map with the key of `segment`, and whether it is new. A map that is
    /// not known is added; one that is known counts as observed again at the time of `segment`.
    pub fn ensure_with_flag(&mut self, segment: MapSegment) -> (ensured: (MapId, bool))
        requires
            old(self).wf(),
            has_map(old(self)@, segment@.key()) || old(self).next_id() < u64::MAX,
        ensures
            final(self).wf(),
            ensured_map(*old(self), *final(self), segment@, ensured.0),
            ensured.1 == !has_map(old(self)@, segment@.key()),
    {
        proof {
            self.lemma_pairs();
            self.keys_are_unique();
        }
        let ghost before = self.entries@;
        let ghost added = segment@;
        if let Some(at) = self.position_by_key(&segment.key()) {
            let id = self.entries[at].id;
            let slot = &mut self.entries[at].segment.update_time;
            *slot = segment.update_time;
            proof {
                let refreshed = MapSegmentView {
                    update_time: added.update_time,
                    ..before[at as int].segment@
                };
                assert(old(self)@.contains_key(before[at as int].id));
                lemma_keyed_update(pairs(before), at as int, refreshed);
                assert(pairs(self.entries@) =~= pairs(before).update(at as int, (id, refreshed)));
                assert forall|i: int| 0 <= i < before.len() implies (#[trigger] self.entries@[i]).id
                    == before[i].id && self.entries@[i].segment@.key()
                    == before[i].segment@.key() by {}
            }
            return (id, false);
        }
        let id = self.next_id;
        self.entries.push(MapEntry { id, segment });
        self.next_id = id + 1;
        proof {
            lemma_keyed_push(pairs(before), id, added);
            assert(pairs(self.entries@) =~= pairs(before).push((id, added)));
            assert forall|i: int, j: int| 0 <= i < j < self.entries@.len() implies (
            #[trigger] self.entries@[i]).segment@.key() != (
            #[trigger] self.entries@[j]).segment@.key() by {
                assert(self.entries@[i] == before[i]);
                if j < before.len() {
                    assert(self.entries@[j] == before[j]);
                } else {
                    assert(old(self)@.contains_key(before[i].id));
                }
            }
        }
        (id, true)
    }

    /// Forgets the map `id`, if it is known.
    pub fn remove(&mut self, id: MapId)
        requires
            old(self).wf(),
        ensures
            final(self).wf(),
            final(self)@ == old(self)@.remove(id),
            final(self).next_id() == old(self).next_id(),
    {
        let ghost before = self.entries@;
        proof {
            self.lemma_pairs();
        }
        match self.position(id) {
            Some(at) => {
                self.entries.remove(at);
                proof {
                    lemma_keyed_remove(pairs(before), at as int);
                    assert(pairs(self.entries@) =~= pairs(before).remove(at as int));
                    assert forall|i: int| 0 <= i < self.entries@.len() implies #[trigger]
                        self.entries@[i] == before[if i < at {
                        i
                    } else {
                        i + 1
                    }] by {}
                }
            },
            None => {
                proof {
                    assert(old(self)@.remove(id) =~= old(self)@);
                }
            },
        }
    }
}

} // verus!
