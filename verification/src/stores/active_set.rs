//! The executables that take part in the model now.

use crate::domain::ExeId;
use crate::fx::collect_set;
use crate::lists::lemma_push_contains;
use rustc_hash::FxHashSet;
use vstd::prelude::*;

verus! {

/// A set of executables.
#[derive(Debug)]
pub struct ActiveSet {
    ids: Vec<ExeId>,
}

impl View for ActiveSet {
    type V = Set<ExeId>;

    closed spec fn view(&self) -> Set<ExeId> {
        self.ids@.to_set()
    }
}

impl ActiveSet {
    /// What holds of every set: no executable is listed twice.
    pub closed spec fn wf(&self) -> bool {
        self.ids@.no_duplicates()
    }

    /// A set without executables.
    pub fn new() -> (set: ActiveSet)
        ensures
            set.wf(),
            set@ == Set::<ExeId>::empty(),
    {
        let set = ActiveSet { ids: Vec::new() };
        assert(set@ =~= Set::empty());
        set
    }

    fn position(&self, id: ExeId) -> (found: Option<usize>)
        ensures
            match found {
                Some(at) => at < self.ids@.len() && self.ids@[at as int] == id,
                None => !self@.contains(id),
            },
    {
        let mut i: usize = 0;
        while i < self.ids.len()
            invariant
                i <= self.ids.len(),
                forall|k: int| 0 <= k < i ==> self.ids@[k] != id,
            decreases self.ids.len() - i,
        {
            if self.ids[i] == id {
                return Some(i);
            }
            i += 1;
        }
        None
    }

    /// Whether `id` is in the set.
    pub fn contains(&self, id: ExeId) -> (found: bool)
        ensures
            found == self@.contains(id),
    {
        match self.position(id) {
            Some(at) => {
                assert(self.ids@.contains(self.ids@[at as int]));
                true
            },
            None => false,
        }
    }

    /// Puts `id` into the set.
    pub fn insert(&mut self, id: ExeId)
        requires
            old(self).wf(),
        ensures
            final(self).wf(),
            final(self)@ == old(self)@.insert(id),
    {
        if !self.contains(id) {
            proof {
                lemma_push_contains(self.ids@, id);
            }
            self.ids.push(id);
        }
        assert(self@ =~= old(self)@.insert(id));
    }

    /// Takes `id` out of the set.
    pub fn remove(&mut self, id: ExeId)
        requires
            old(self).wf(),
        ensures
            final(self).wf(),
            final(self)@ == old(self)@.remove(id),
    {
        let ghost before = self.ids@;
        if let Some(at) = self.position(id) {
            self.ids.swap_remove(at);
            proof {
                let after = self.ids@;
                assert forall|x: ExeId| after.contains(x) implies before.contains(x) && x
                    != id by {
                    let k = choose|k: int| 0 <= k < after.len() && after[k] == x;
                    if k == at {
                        assert(before[before.len() - 1] == x);
                    } else {
                        assert(before[k] == x);
                    }
                }
                assert forall|x: ExeId| before.contains(x) && x != id implies after.contains(
                    x,
                ) by {
                    let k = choose|k: int| 0 <= k < before.len() && before[k] == x;
                    if k == before.len() - 1 {
                        assert(after[at as int] == x);
                    } else {
                        assert(after[k] == x);
                    }
                }
            }
        }
        assert(self@ =~= old(self)@.remove(id));
    }

    /// The members, as a hash set.
    pub fn exes(&self) -> (exes: FxHashSet<ExeId>)
        ensures
            exes@ == self@,
    {
        collect_set(&self.ids)
    }
}

} // verus!
