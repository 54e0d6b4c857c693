//! The known executables.

use crate::domain::{Exe, ExeId, ExeKey};
use crate::keyed::{
    distinct_keys, keyed, lemma_keyed, lemma_keyed_push, lemma_keyed_remove, lemma_keyed_update,
};
use crate::paths::canonical;
use vstd::prelude::*;

verus! {

/// What the store holds of one executable.
#[verifier::ext_equal]
pub struct ExeView {
    /// Its path, as it was spelled first.
    pub path: Seq<u8>,
    pub exe: Exe,
}

impl ExeView {
    /// What identifies the executable: its path, however it is spelled.
    pub open spec fn key(self) -> Seq<u8> {
        canonical(self.path)
    }
}

/// Whether an executable with the key `key` is among `exes`.
pub open spec fn has_exe(exes: Map<ExeId, ExeView>, key: Seq<u8>) -> bool {
    exists|id: ExeId| #[trigger] exes.contains_key(id) && exes[id].key() == key
}

#[derive(Debug)]
struct ExeEntry {
    id: ExeId,
    key: ExeKey,
    exe: Exe,
}

/// Executables by identifier. Each is known by its key once, and no identifier is given twice.
#[derive(Debug)]
pub struct ExeStore {
    entries: Vec<ExeEntry>,
    next_id: ExeId,
}

spec fn pairs(entries: Seq<ExeEntry>) -> Seq<(ExeId, ExeView)> {
    entries.map_values(|entry: ExeEntry| (entry.id, ExeView { path: entry.key@, exe: entry.exe }))
}

impl View for ExeStore {
    type V = Map<ExeId, ExeView>;

    closed spec fn view(&self) -> Map<ExeId, ExeView> {
        keyed(pairs(self.entries@))
    }
}

impl ExeStore {
    /// The identifier that the next new executable gets.
    pub closed spec fn next_id(&self) -> ExeId {
        self.next_id
    }

    /// What holds of every store.
    pub closed spec fn wf(&self) -> bool {
        &&& forall|i: int, j: int|
            0 <= i < j < self.entries@.len() ==> (#[trigger] self.entries@[i]).id < (
            #[trigger] self.entries@[j]).id
        &&& forall|i: int|
            0 <= i < self.entries@.len() ==> (#[trigger] self.entries@[i]).id < self.next_id
        &&& forall|i: int, j: int|
            0 <= i < j < self.entries@.len() ==> canonical((#[trigger] self.entries@[i]).key@)
                != canonical((#[trigger] self.entries@[j]).key@)
    }

    proof fn lemma_pairs(&self)
        requires
            self.wf(),
        ensures
            distinct_keys(pairs(self.entries@)),
            self@.dom().finite(),
            self@.len() == self.entries@.len(),
            forall|i: int|
                0 <= i < self.entries@.len() ==> self@.contains_key(
                    (#[trigger] self.entries@[i]).id,
                ) && self@[self.entries@[i].id] == (ExeView {
                    path: self.entries@[i].key@,
                    exe: self.entries@[i].exe,
                }),
            forall|id: ExeId| #[trigger]
                self@.contains_key(id) ==> exists|i: int|
                    0 <= i < self.entries@.len() && (#[trigger] self.entries@[i]).id == id,
    {
        let listed = pairs(self.entries@);
        assert forall|i: int, j: int| 0 <= i < j < listed.len() implies (#[trigger] listed[i]).0
            != (#[trigger] listed[j]).0 by {
            assert(self.entries@[i].id < self.entries@[j].id);
        }
        lemma_keyed(listed);
        assert forall|i: int| 0 <= i < self.entries@.len() implies self@.contains_key(
            (#[trigger] self.entries@[i]).id,
        ) && self@[self.entries@[i].id] == (ExeView {
            path: self.entries@[i].key@,
            exe: self.entries@[i].exe,
        }) by {
            assert(self@.contains_key(listed[i].0));
        }
        assert forall|id: ExeId| #[trigger] self@.contains_key(id) implies exists|i: int|
            0 <= i < self.entries@.len() && (#[trigger] self.entries@[i]).id == id by {
            let i = choose|i: int| 0 <= i < listed.len() && (#[trigger] listed[i]).0 == id;
            assert(self.entries@[i].id == id);
        }
    }

    /// No two executables of a store have the same key, every identifier in use has been given
    /// out, and the store is finite.
    pub proof fn keys_are_unique(&self)
        requires
            self.wf(),
        ensures
            self@.dom().finite(),
            forall|id: ExeId| #[trigger] self@.contains_key(id) ==> id < self.next_id(),
            forall|a: ExeId, b: ExeId|
                #[trigger] self@.contains_key(a) && #[trigger] self@.contains_key(b) && self@[a].key()
                    == self@[b].key() ==> a == b,
    {
        self.lemma_pairs();
        assert forall|a: ExeId, b: ExeId| #[trigger]
            self@.contains_key(a) && #[trigger] self@.contains_key(b) && self@[a].key()
                == self@[b].key() implies a == b by {
            let i = choose|i: int|
                0 <= i < self.entries@.len() && (#[trigger] self.entries@[i]).id == a;
            let j = choose|j: int|
                0 <= j < self.entries@.len() && (#[trigger] self.entries@[j]).id == b;
            if i < j {
                assert(canonical(self.entries@[i].key@) != canonical(self.entries@[j].key@));
            } else if j < i {
                assert(canonical(self.entries@[j].key@) != canonical(self.entries@[i].key@));
            }
        }
    }

    /// A store without executables.
    pub fn new() -> (store: ExeStore)
        ensures
            store.wf(),
            store@ == Map::<ExeId, ExeView>::empty(),
            store.next_id() == 0,
    {
        let store = ExeStore { entries: Vec::new(), next_id: 0 };
        proof {
            assert(pairs(store.entries@).len() == 0);
        }
        store
    }

    /// How many executables there are.
    pub fn len(&self) -> (count: usize)
        requires
            self.wf(),
        ensures
            count == self@.len(),
    {
        proof {
            self.lemma_pairs();
        }
        self.entries.len()
    }

    /// Whether every identifier has been given out.
    pub fn is_full(&self) -> (full: bool)
        ensures
            full == (self.next_id() == u64::MAX),
    {
        self.next_id == u64::MAX
    }

    fn position(&self, id: ExeId) -> (found: Option<usize>)
        requires
            self.wf(),
        ensures
            match found {
                Some(at) => at < self.entries@.len() && self.entries@[at as int].id == id
                    && self@.contains_key(id),
                None => !self@.contains_key(id),
            },
    {
        proof {
            self.lemma_pairs();
        }
        let mut low: usize = 0;
        let mut high: usize = self.entries.len();
        while low < high
            invariant
                self.wf(),
                low <= high <= self.entries@.len(),
                forall|i: int| 0 <= i < low ==> (#[trigger] self.entries@[i]).id < id,
                forall|i: int|
                    high <= i < self.entries@.len() ==> (#[trigger] self.entries@[i]).id > id,
                forall|i: int|
                    0 <= i < self.entries@.len() ==> self@.contains_key(
                        (#[trigger] self.entries@[i]).id,
                    ),
            decreases high - low,
        {
            let middle = low + (high - low) / 2;
            let probed = self.entries[middle].id;
            if probed == id {
                return Some(middle);
            } else if probed < id {
                low = middle + 1;
            } else {
                high = middle;
            }
        }
        None
    }

    /// The identifiers in use, in ascending order.
    pub fn ids(&self) -> (ids: Vec<ExeId>)
        requires
            self.wf(),
        ensures
            ids@.to_set() == self@.dom(),
            forall|i: int, j: int| 0 <= i < j < ids.len() ==> ids@[i] < ids@[j],
    {
        let mut ids: Vec<ExeId> = Vec::new();
        let mut i: usize = 0;
        while i < self.entries.len()
            invariant
                i <= self.entries@.len(),
                ids.len() == i,
                forall|k: int| 0 <= k < i ==> #[trigger] ids@[k] == self.entries@[k].id,
            decreases self.entries.len() - i,
        {
            ids.push(self.entries[i].id);
            i += 1;
        }
        proof {
            self.lemma_pairs();
            assert forall|id: ExeId| ids@.contains(id) implies self@.contains_key(id) by {
                let k = choose|k: int| 0 <= k < ids@.len() && ids@[k] == id;
                assert(self.entries@[k].id == id);
            }
            assert forall|id: ExeId| self@.contains_key(id) implies ids@.contains(id) by {
                let k = choose|k: int|
                    0 <= k < self.entries@.len() && (#[trigger] self.entries@[k]).id == id;
                assert(ids@[k] == id);
            }
            assert(ids@.to_set() =~= self@.dom());
        }
        ids
    }

    /// What is recorded of the executable `id`.
    pub fn get(&self, id: ExeId) -> (found: Option<&Exe>)
        requires
            self.wf(),
        ensures
            match found {
                Some(exe) => self@.contains_key(id) && *exe == self@[id].exe,
                None => !self@.contains_key(id),
            },
    {
        proof {
            self.lemma_pairs();
        }
        match self.position(id) {
            Some(at) => Some(&self.entries[at].exe),
            None => None,
        }
    }

    /// The key of the executable `id`.
    pub fn key_of(&self, id: ExeId) -> (found: Option<&ExeKey>)
        requires
            self.wf(),
        ensures
            match found {
                Some(key) => self@.contains_key(id) && key@ == self@[id].path,
                None => !self@.contains_key(id),
            },
    {
        proof {
            self.lemma_pairs();
        }
        match self.position(id) {
            Some(at) => Some(&self.entries[at].key),
            None => None,
        }
    }

    /// What is recorded of the executable `id`, for changing it.
    pub fn get_mut(&mut self, id: ExeId) -> (found: Option<&mut Exe>)
        requires
            old(self).wf(),
        ensures
            final(self).wf(),
            final(self).next_id() == old(self).next_id(),
            match found {
                Some(exe) => old(self)@.contains_key(id) && *exe == old(self)@[id].exe
                    && final(self)@ == old(self)@.insert(
                    id,
                    ExeView { path: old(self)@[id].path, exe: *final(exe) },
                ),
                None => !old(self)@.contains_key(id) && final(self)@ == old(self)@,
            },
    {
        proof {
            self.lemma_pairs();
        }
        let ghost before = self.entries@;
        match self.position(id) {
            Some(at) => {
                let slot = &mut self.entries[at].exe;
                proof {
                    let exe = *final(slot);
                    let changed = ExeView { path: before[at as int].key@, exe };
                    let after = before.update(at as int, ExeEntry { exe, ..before[at as int] });
                    lemma_keyed_update(pairs(before), at as int, changed);
                    assert(pairs(after) =~= pairs(before).update(at as int, (id, changed)));
                }
                Some(slot)
            },
            None => None,
        }
    }

    /// The identifier of the executable with the key `key`.
    pub fn id_by_key(&self, key: &ExeKey) -> (found: Option<ExeId>)
        requires
            self.wf(),
        ensures
            match found {
                Some(id) => self@.contains_key(id) && self@[id].key() == canonical(key@),
                None => !has_exe(self@, canonical(key@)),
            },
    {
        proof {
            self.lemma_pairs();
        }
        let mut i: usize = 0;
        while i < self.entries.len()
            invariant
                self.wf(),
                i <= self.entries@.len(),
                forall|k: int|
                    0 <= k < i ==> canonical((#[trigger] self.entries@[k]).key@) != canonical(key@),
                forall|k: int|
                    0 <= k < self.entries@.len() ==> self@.contains_key(
                        (#[trigger] self.entries@[k]).id,
                    ) && self@[self.entries@[k].id].path == self.entries@[k].key@,
            decreases self.entries.len() - i,
        {
            if self.entries[i].key.same(key) {
                return Some(self.entries[i].id);
            }
            i += 1;
        }
        None
    }

    /// The identifier of the executable with the key `key`, which is added as one not seen yet
    /// where it is not known.
    pub fn ensure(&mut self, key: ExeKey) -> (id: ExeId)
        requires
            old(self).wf(),
            has_exe(old(self)@, canonical(key@)) || old(self).next_id() < u64::MAX,
        ensures
            final(self).wf(),
            has_exe(old(self)@, canonical(key@)) ==> {
                &&& old(self)@.contains_key(id)
                &&& old(self)@[id].key() == canonical(key@)
                &&& *final(self) == *old(self)
            },
            !has_exe(old(self)@, canonical(key@)) ==> {
                &&& id == old(self).next_id()
                &&& final(self).next_id() == id + 1
                &&& !old(self)@.contains_key(id)
                &&& final(self)@ == old(self)@.insert(
                    id,
                    ExeView { path: key@, exe: Exe::unseen() },
                )
            },
    {
        if let Some(id) = self.id_by_key(&key) {
            return id;
        }
        proof {
            self.lemma_pairs();
            self.keys_are_unique();
        }
        let id = self.next_id;
        let ghost before = self.entries@;
        let ghost added = ExeView { path: key@, exe: Exe::unseen() };
        self.entries.push(
            ExeEntry {
                id,
                key,
                exe: Exe { running: false, last_seen_time: None, total_running_time: 0 },
            },
        );
        self.next_id = id + 1;
        proof {
            lemma_keyed_push(pairs(before), id, added);
            assert(pairs(self.entries@) =~= pairs(before).push((id, added)));
            assert forall|i: int, j: int| 0 <= i < j < self.entries@.len() implies canonical(
                (#[trigger] self.entries@[i]).key@,
            ) != canonical((#[trigger] self.entries@[j]).key@) by {
                assert(self.entries@[i] == before[i]);
                if j < before.len() {
                    assert(self.entries@[j] == before[j]);
                } else {
                    assert(old(self)@.contains_key(before[i].id));
                }
            }
        }
        id
    }

    /// Forgets the executable `id`, if it is known.
    pub fn remove(&mut self, id: ExeId)
        requires
            old(self).wf(),
        ensures
            final(self).wf(),
            final(self)@ == old(self)@.remove(id),
            final(self).next_id() == old(self).next_id(),
    {
        let ghost before = self.entries@;
        proof {
            self.lemma_pairs();
        }
        match self.position(id) {
            Some(at) => {
                self.entries.remove(at);
                proof {
                    lemma_keyed_remove(pairs(before), at as int);
                    assert(pairs(self.entries@) =~= pairs(before).remove(at as int));
                    assert forall|i: int| 0 <= i < self.entries@.len() implies #[trigger]
                        self.entries@[i] == before[if i < at {
                        i
                    } else {
                        i + 1
                    }] by {}
                }
            },
            None => {
                proof {
                    assert(old(self)@.remove(id) =~= old(self)@);
                }
            },
        }
    }
}

} // verus!
