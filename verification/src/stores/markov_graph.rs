//! The edges of the model, each between two executables.

use crate::domain::{ExeId, MarkovState};
use crate::fx::set_contains;
use crate::keyed::{distinct_keys, keyed, lemma_keyed, lemma_keyed_push, lemma_same_pairs};
use rustc_hash::FxHashSet;
use vstd::prelude::*;

verus! {

/// The two executables of an edge. An edge has no direction: the smaller identifier comes first.
#[derive(Debug, Clone, Copy, PartialEq, Eq, Structural)]
pub struct EdgeKey {
    pub first: ExeId,
    pub second: ExeId,
}

impl EdgeKey {
    /// The key of the edge between `a` and `b`.
    pub open spec fn between(a: ExeId, b: ExeId) -> EdgeKey {
        if a <= b {
            EdgeKey { first: a, second: b }
        } else {
            EdgeKey { first: b, second: a }
        }
    }

    /// The key of the edge between `a` and `b`.
    pub fn new(a: ExeId, b: ExeId) -> (key: EdgeKey)
        ensures
            key == EdgeKey::between(a, b),
    {
        if a <= b {
            EdgeKey { first: a, second: b }
        } else {
            EdgeKey { first: b, second: a }
        }
    }

    /// Whether both executables of the edge are in `exes`.
    pub open spec fn within(self, exes: Set<ExeId>) -> bool {
        exes.contains(self.first) && exes.contains(self.second)
    }
}

/// What is recorded of an edge.
#[derive(Debug, Clone, Copy, PartialEq, Eq, Structural)]
pub struct MarkovEdge {
    /// Which of the two executables run.
    pub state: MarkovState,
    /// Since when, in model time.
    pub since: u64,
}

/// Edges by their two executables.
#[derive(Debug)]
pub struct MarkovGraph {
    edges: Vec<(EdgeKey, MarkovEdge)>,
}

impl View for MarkovGraph {
    type V = Map<EdgeKey, MarkovEdge>;

    closed spec fn view(&self) -> Map<EdgeKey, MarkovEdge> {
        keyed(self.edges@)
    }
}

/// The edge that joins `a` and `b`, in the state `state` of `a` and `b`, since `now`.
pub open spec fn edge_between(a: ExeId, b: ExeId, now: u64, state: MarkovState) -> MarkovEdge {
    MarkovEdge {
        state: if a <= b {
            state
        } else {
            state.spec_exchanged()
        },
        since: now,
    }
}

impl MarkovGraph {
    /// What holds of every graph: no two executables are joined twice.
    pub closed spec fn wf(&self) -> bool {
        distinct_keys(self.edges@)
    }

    /// A graph is finite.
    pub proof fn is_finite(&self)
        requires
            self.wf(),
        ensures
            self@.dom().finite(),
    {
        lemma_keyed(self.edges@);
    }

    /// A graph without edges.
    pub fn new() -> (graph: MarkovGraph)
        ensures
            graph.wf(),
            graph@ == Map::<EdgeKey, MarkovEdge>::empty(),
    {
        MarkovGraph { edges: Vec::new() }
    }

    /// How many edges there are.
    pub fn len(&self) -> (count: usize)
        requires
            self.wf(),
        ensures
            count == self@.len(),
    {
        proof {
            lemma_keyed(self.edges@);
        }
        self.edges.len()
    }

    /// The edge between `a` and `b`.
    pub fn get(&self, a: ExeId, b: ExeId) -> (found: Option<MarkovEdge>)
        requires
            self.wf(),
        ensures
            match found {
                Some(edge) => self@.contains_key(EdgeKey::between(a, b)) && edge
                    == self@[EdgeKey::between(a, b)],
                None => !self@.contains_key(EdgeKey::between(a, b)),
            },
    {
        let key = EdgeKey::new(a, b);
        proof {
            lemma_keyed(self.edges@);
        }
        let mut i: usize = 0;
        while i < self.edges.len()
            invariant
                i <= self.edges.len(),
                key == EdgeKey::between(a, b),
                forall|k: int| 0 <= k < i ==> (#[trigger] self.edges@[k]).0 != key,
                forall|k: int|
                    0 <= k < self.edges@.len() ==> self@.contains_key(
                        (#[trigger] self.edges@[k]).0,
                    ) && self@[self.edges@[k].0] == self.edges@[k].1,
            decreases self.edges.len() - i,
        {
            let (other, edge) = self.edges[i];
            if other == key {
                return Some(edge);
            }
            i += 1;
        }
        None
    }

    /// Joins `a` and `b`, in the state `state` since `now`, unless they are joined already.
    /// Returns whether the edge is new.
    pub fn ensure_edge(&mut self, a: ExeId, b: ExeId, now: u64, state: MarkovState) -> (new: bool)
        requires
            old(self).wf(),
        ensures
            final(self).wf(),
            new == !old(self)@.contains_key(EdgeKey::between(a, b)),
            final(self)@ == if new {
                old(self)@.insert(EdgeKey::between(a, b), edge_between(a, b, now, state))
            } else {
                old(self)@
            },
    {
        if self.get(a, b).is_some() {
            return false;
        }
        let key = EdgeKey::new(a, b);
        let edge = MarkovEdge {
            state: if a <= b {
                state
            } else {
                state.exchanged()
            },
            since: now,
        };
        proof {
            lemma_keyed_push(self.edges@, key, edge);
        }
        self.edges.push((key, edge));
        true
    }

    /// Drops every edge of an executable that is not in `active`.
    pub fn prune_inactive(&mut self, active: &FxHashSet<ExeId>)
        requires
            old(self).wf(),
        ensures
            final(self).wf(),
            final(self)@ == old(self)@.filter_keys(|key: EdgeKey| key.within(active@)),
    {
        let ghost keeps = |key: EdgeKey| key.within(active@);
        let ghost before = self.edges@;
        let mut kept: Vec<(EdgeKey, MarkovEdge)> = Vec::new();
        let mut i: usize = 0;
        while i < self.edges.len()
            invariant
                i <= self.edges.len(),
                self.edges@ == before,
                distinct_keys(before),
                keeps == (|key: EdgeKey| key.within(active@)),
                distinct_keys(kept@),
                forall|m: int|
                    0 <= m < kept@.len() ==> keeps((#[trigger] kept@[m]).0) && exists|k: int|
                        0 <= k < i && #[trigger] before[k] == kept@[m],
                forall|k: int|
                    0 <= k < i && keeps((#[trigger] before[k]).0) ==> exists|m: int|
                        0 <= m < kept@.len() && #[trigger] kept@[m] == before[k],
            decreases self.edges.len() - i,
        {
            let (key, edge) = self.edges[i];
            let ghost earlier = kept@;
            if set_contains(active, key.first) && set_contains(active, key.second) {
                kept.push((key, edge));
                proof {
                    assert(kept@[earlier.len() as int] == before[i as int]);
                    assert forall|p: int, q: int| 0 <= p < q < kept@.len() implies (
                    #[trigger] kept@[p]).0 != (#[trigger] kept@[q]).0 by {
                        assert(kept@[p] == earlier[p]);
                        if q < earlier.len() {
                            assert(kept@[q] == earlier[q]);
                        } else {
                            let k = choose|k: int|
                                0 <= k < i && #[trigger] before[k] == earlier[p];
                            assert(before[k].0 != before[i as int].0);
                        }
                    }
                    assert forall|m: int| 0 <= m < kept@.len() implies keeps(
                        (#[trigger] kept@[m]).0,
                    ) && exists|k: int| 0 <= k < i + 1 && #[trigger] before[k] == kept@[m] by {
                        if m < earlier.len() {
                            assert(kept@[m] == earlier[m]);
                        }
                    }
                    assert forall|k: int|
                        0 <= k < i + 1 && keeps(
                            (#[trigger] before[k]).0,
                        ) implies exists|m: int|
                        0 <= m < kept@.len() && #[trigger] kept@[m] == before[k] by {
                        if k < i {
                            let m = choose|m: int|
                                0 <= m < earlier.len() && #[trigger] earlier[m] == before[k];
                            assert(kept@[m] == before[k]);
                        }
                    }
                }
            }
            i += 1;
        }
        self.edges = kept;
        proof {
            lemma_keyed(before);
            let target = old(self)@.filter_keys(keeps);
            assert forall|m: int| 0 <= m < kept@.len() implies target.contains_key(
                (#[trigger] kept@[m]).0,
            ) && target[kept@[m].0] == kept@[m].1 by {
                let k = choose|k: int| 0 <= k < i && #[trigger] before[k] == kept@[m];
                assert(keyed(before).contains_key(before[k].0));
            }
            assert forall|key: EdgeKey| #[trigger] target.contains_key(key) implies exists|m: int|
                0 <= m < kept@.len() && (#[trigger] kept@[m]).0 == key by {
                assert(keyed(before).contains_key(key));
                let k = choose|k: int| 0 <= k < before.len() && (#[trigger] before[k]).0 == key;
                let m = choose|m: int| 0 <= m < kept@.len() && #[trigger] kept@[m] == before[k];
                assert(kept@[m].0 == key);
            }
            lemma_same_pairs(kept@, target);
        }
    }
}

} // verus!
