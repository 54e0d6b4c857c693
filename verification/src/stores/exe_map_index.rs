//! Which executable maps what.

use crate::domain::{ExeId, MapId};
use crate::fx::{collect_set, set_contains};
use crate::lists::{lemma_push_contains, lemma_take_one_more};
use rustc_hash::FxHashSet;
use vstd::prelude::*;

verus! {

/// Pairs of an executable and a map of it.
#[derive(Debug)]
pub struct ExeMapIndex {
    pairs: Vec<(ExeId, MapId)>,
}

impl View for ExeMapIndex {
    type V = Set<(ExeId, MapId)>;

    closed spec fn view(&self) -> Set<(ExeId, MapId)> {
        self.pairs@.to_set()
    }
}

impl ExeMapIndex {
    /// What holds of every index: no pair is listed twice.
    pub closed spec fn wf(&self) -> bool {
        self.pairs@.no_duplicates()
    }

    /// An index is finite.
    pub proof fn is_finite(&self)
        ensures
            self@.finite(),
    {
        broadcast use vstd::seq_lib::seq_to_set_is_finite;

    }

    /// An index without pairs.
    pub fn new() -> (index: ExeMapIndex)
        ensures
            index.wf(),
            index@ == Set::<(ExeId, MapId)>::empty(),
    {
        let index = ExeMapIndex { pairs: Vec::new() };
        assert(index@ =~= Set::empty());
        index
    }

    /// Whether `exe_id` maps `map_id`.
    pub fn is_attached(&self, exe_id: ExeId, map_id: MapId) -> (attached: bool)
        ensures
            attached == self@.contains((exe_id, map_id)),
    {
        let mut i: usize = 0;
        while i < self.pairs.len()
            invariant
                i <= self.pairs.len(),
                forall|k: int| 0 <= k < i ==> #[trigger] self.pairs@[k] != (exe_id, map_id),
            decreases self.pairs.len() - i,
        {
            let (exe, map) = self.pairs[i];
            if exe == exe_id && map == map_id {
                assert(self.pairs@[i as int] == (exe_id, map_id));
                return true;
            }
            i += 1;
        }
        false
    }

    /// Records that `exe_id` maps `map_id`.
    pub fn attach(&mut self, exe_id: ExeId, map_id: MapId)
        requires
            old(self).wf(),
        ensures
            final(self).wf(),
            final(self)@ == old(self)@.insert((exe_id, map_id)),
    {
        if self.is_attached(exe_id, map_id) {
            assert(old(self)@.insert((exe_id, map_id)) =~= old(self)@);
        } else {
            proof {
                self.pairs@.lemma_push_to_set_commute((exe_id, map_id));
                assert forall|k: int| 0 <= k < self.pairs@.len() implies #[trigger] self.pairs@[k]
                    != (exe_id, map_id) by {
                    assert(self.pairs@.contains(self.pairs@[k]));
                }
            }
            self.pairs.push((exe_id, map_id));
        }
    }

    /// Forgets that any executable maps `map_id`.
    pub fn detach_map(&mut self, map_id: MapId)
        requires
            old(self).wf(),
        ensures
            final(self).wf(),
            final(self)@ == old(self)@.filter(|pair: (ExeId, MapId)| pair.1 != map_id),
    {
        let mut kept: Vec<(ExeId, MapId)> = Vec::new();
        let mut i: usize = 0;
        let ghost keeps = |pair: (ExeId, MapId)| pair.1 != map_id;
        while i < self.pairs.len()
            invariant
                i <= self.pairs.len(),
                *self == *old(self),
                self.wf(),
                keeps == (|pair: (ExeId, MapId)| pair.1 != map_id),
                kept@.no_duplicates(),
                forall|p: (ExeId, MapId)|
                    kept@.contains(p) <==> self.pairs@.take(i as int).contains(p) && keeps(p),
            decreases self.pairs.len() - i,
        {
            let pair = self.pairs[i];
            let ghost before = kept@;
            proof {
                lemma_take_one_more(self.pairs@, i as int);
            }
            if pair.1 != map_id {
                kept.push(pair);
                proof {
                    lemma_push_contains(before, pair);
                }
            }
            i += 1;
        }
        self.pairs = kept;
        proof {
            assert(old(self).pairs@.take(i as int) =~= old(self).pairs@);
            assert(self@ =~= old(self)@.filter(keeps));
        }
    }

    /// Forgets what `exe_id` maps.
    pub fn remove_exe(&mut self, exe_id: ExeId)
        requires
            old(self).wf(),
        ensures
            final(self).wf(),
            final(self)@ == old(self)@.filter(|pair: (ExeId, MapId)| pair.0 != exe_id),
    {
        let mut kept: Vec<(ExeId, MapId)> = Vec::new();
        let mut i: usize = 0;
        let ghost keeps = |pair: (ExeId, MapId)| pair.0 != exe_id;
        while i < self.pairs.len()
            invariant
                i <= self.pairs.len(),
                *self == *old(self),
                self.wf(),
                keeps == (|pair: (ExeId, MapId)| pair.0 != exe_id),
                kept@.no_duplicates(),
                forall|p: (ExeId, MapId)|
                    kept@.contains(p) <==> self.pairs@.take(i as int).contains(p) && keeps(p),
            decreases self.pairs.len() - i,
        {
            let pair = self.pairs[i];
            let ghost before = kept@;
            proof {
                lemma_take_one_more(self.pairs@, i as int);
            }
            if pair.0 != exe_id {
                kept.push(pair);
                proof {
                    lemma_push_contains(before, pair);
                }
            }
            i += 1;
        }
        self.pairs = kept;
        proof {
            assert(old(self).pairs@.take(i as int) =~= old(self).pairs@);
            assert(self@ =~= old(self)@.filter(keeps));
        }
    }

    /// The executables that map `map_id`.
    pub fn exes_for_map(&self, map_id: MapId) -> (exes: Vec<ExeId>)
        requires
            self.wf(),
        ensures
            exes@.no_duplicates(),
            forall|exe: ExeId| exes@.contains(exe) <==> self@.contains((exe, map_id)),
    {
        let mut exes: Vec<ExeId> = Vec::new();
        let mut i: usize = 0;
        while i < self.pairs.len()
            invariant
                i <= self.pairs.len(),
                self.wf(),
                exes@.no_duplicates(),
                forall|exe: ExeId|
                    exes@.contains(exe) <==> self.pairs@.take(i as int).contains((exe, map_id)),
            decreases self.pairs.len() - i,
        {
            let (exe, map) = self.pairs[i];
            let ghost before = exes@;
            proof {
                lemma_take_one_more(self.pairs@, i as int);
            }
            if map == map_id {
                exes.push(exe);
                proof {
                    lemma_push_contains(before, exe);
                }
            }
            i += 1;
        }
        assert(self.pairs@.take(i as int) =~= self.pairs@);
        exes
    }

    /// The maps of `exe_id`.
    pub fn maps_for_exe(&self, exe_id: ExeId) -> (maps: Vec<MapId>)
        requires
            self.wf(),
        ensures
            maps@.no_duplicates(),
            forall|map: MapId| maps@.contains(map) <==> self@.contains((exe_id, map)),
    {
        let mut maps: Vec<MapId> = Vec::new();
        let mut i: usize = 0;
        while i < self.pairs.len()
            invariant
                i <= self.pairs.len(),
                self.wf(),
                maps@.no_duplicates(),
                forall|map: MapId|
                    maps@.contains(map) <==> self.pairs@.take(i as int).contains((exe_id, map)),
            decreases self.pairs.len() - i,
        {
            let (exe, map) = self.pairs[i];
            let ghost before = maps@;
            proof {
                lemma_take_one_more(self.pairs@, i as int);
            }
            if exe == exe_id {
                maps.push(map);
                proof {
                    lemma_push_contains(before, map);
                }
            }
            i += 1;
        }
        assert(self.pairs@.take(i as int) =~= self.pairs@);
        maps
    }

    /// The maps that any executable maps.
    pub fn attached_maps(&self) -> (maps: FxHashSet<MapId>)
        ensures
            forall|map: MapId|
                maps@.contains(map) <==> exists|exe: ExeId| self@.contains((exe, map)),
    {
        let mut maps: Vec<MapId> = Vec::new();
        let mut i: usize = 0;
        while i < self.pairs.len()
            invariant
                i <= self.pairs.len(),
                maps.len() == i,
                forall|k: int| 0 <= k < i ==> #[trigger] maps@[k] == self.pairs@[k].1,
            decreases self.pairs.len() - i,
        {
            maps.push(self.pairs[i].1);
            i += 1;
        }
        proof {
            assert forall|map: MapId| maps@.contains(map) implies exists|exe: ExeId|
                self@.contains((exe, map)) by {
                let k = choose|k: int| 0 <= k < maps@.len() && maps@[k] == map;
                assert(self.pairs@.contains(self.pairs@[k]));
                assert(self@.contains((self.pairs@[k].0, map)));
            }
            assert forall|map: MapId|
                (exists|exe: ExeId| self@.contains((exe, map))) implies maps@.contains(map) by {
                let exe = choose|exe: ExeId| self@.contains((exe, map));
                let k = choose|k: int| 0 <= k < self.pairs@.len() && self.pairs@[k] == (exe, map);
                assert(maps@[k] == map);
            }
        }
        collect_set(&maps)
    }

    /// The maps that any of `exes` maps.
    pub fn maps_of(&self, exes: &FxHashSet<ExeId>) -> (maps: FxHashSet<MapId>)
        ensures
            forall|map: MapId|
                maps@.contains(map) <==> exists|exe: ExeId|
                    exes@.contains(exe) && self@.contains((exe, map)),
    {
        let mut maps: Vec<MapId> = Vec::new();
        let mut i: usize = 0;
        while i < self.pairs.len()
            invariant
                i <= self.pairs.len(),
                forall|map: MapId|
                    maps@.contains(map) <==> exists|exe: ExeId|
                        exes@.contains(exe) && self.pairs@.take(i as int).contains((exe, map)),
            decreases self.pairs.len() - i,
        {
            let (exe, map) = self.pairs[i];
            let ghost before = maps@;
            proof {
                lemma_take_one_more(self.pairs@, i as int);
            }
            if set_contains(exes, exe) {
                maps.push(map);
                proof {
                    lemma_push_contains(before, map);
                }
            }
            proof {
                assert forall|m: MapId| maps@.contains(m) implies exists|e: ExeId|
                    exes@.contains(e) && self.pairs@.take(i + 1).contains((e, m)) by {
                    if before.contains(m) {
                        let e = choose|e: ExeId|
                            exes@.contains(e) && self.pairs@.take(i as int).contains((e, m));
                        assert(self.pairs@.take(i + 1).contains((e, m)));
                    } else {
                        assert(self.pairs@.take(i + 1).contains((exe, m)));
                    }
                }
                assert forall|m: MapId|
                    (exists|e: ExeId|
                        exes@.contains(e) && self.pairs@.take(i + 1).contains(
                            (e, m),
                        )) implies maps@.contains(m) by {
                    let e = choose|e: ExeId|
                        exes@.contains(e) && self.pairs@.take(i + 1).contains((e, m));
                    if self.pairs@.take(i as int).contains((e, m)) {
                        assert(before.contains(m));
                    }
                }
            }
            i += 1;
        }
        assert(self.pairs@.take(i as int) =~= self.pairs@);
        collect_set(&maps)
    }
}

} // verus!
