//! The dependency graph itself: a stable-id arena of package nodes and
//! dependency edges. A node's or edge's identity is the arena slot it was
//! created in; reduction passes clear slots but never renumber them, so ids
//! handed out survive later deletions.

use vstd::prelude::*;
use crate::dep_info::{DepInfo, DepInfoInner};
use crate::package::Package;

pub mod builder;
pub mod reduce;
pub mod update;

verus! {

/// The annotated dependency graph.
pub struct DepGraph {
    /// Node arena; a cleared slot stays in place so ids remain stable.
    pub nodes: Vec<Option<Package>>,
    /// Edge arena; a cleared slot stays in place so ids remain stable.
    pub edges: Vec<Option<DepInfo>>,
}

/// The id-to-source-package lookup produced alongside the graph: for every
/// present node, the index of the resolved package it was created from.
pub struct DepMap {
    pub entries: Vec<Option<usize>>,
}

impl DepGraph {
    pub open spec fn node_present(self, i: int) -> bool {
        0 <= i < self.nodes@.len() && self.nodes@[i] is Some
    }

    pub open spec fn node_at(self, i: int) -> Package {
        self.nodes@[i]->0
    }

    pub open spec fn edge_present(self, j: int) -> bool {
        0 <= j < self.edges@.len() && self.edges@[j] is Some
    }

    pub open spec fn edge_at(self, j: int) -> DepInfo {
        self.edges@[j]->0
    }

    /// Every present edge records its own slot as its id and joins two
    /// present nodes, and parallel edges between the same ordered pair of
    /// nodes carry distinct ordinals.
    pub open spec fn wf(self) -> bool {
        &&& forall|j: int|
            #[trigger] self.edge_present(j) ==> {
                let e = self.edge_at(j);
                &&& e.id == j
                &&& self.node_present(e.source as int)
                &&& self.node_present(e.target as int)
            }
        &&& forall|j: int, k: int|
            self.edge_present(j) && self.edge_present(k) && j != k
                && (#[trigger] self.edge_at(j)).source == (#[trigger] self.edge_at(k)).source
                && self.edge_at(j).target == self.edge_at(k).target
                ==> self.edge_at(j).edge_no != self.edge_at(k).edge_no
    }

    /// The number of present nodes.
    pub open spec fn node_count_spec(self) -> nat {
        Seq::new(self.nodes@.len(), |i: int| self.nodes@[i]).filter(|n: Option<Package>| n is Some).len()
    }

    /// The number of present edges.
    pub open spec fn edge_count_spec(self) -> nat {
        Seq::new(self.edges@.len(), |j: int| self.edges@[j]).filter(|e: Option<DepInfo>| e is Some).len()
    }

    pub fn new() -> (r: DepGraph)
        ensures
            r.nodes@.len() == 0,
            r.edges@.len() == 0,
            r.wf(),
    {
        DepGraph { nodes: Vec::new(), edges: Vec::new() }
    }

    /// Create a node in a fresh slot and hand back its id.
    pub fn add_node(&mut self, pkg: Package) -> (id: usize)
        requires
            old(self).wf(),
        ensures
            final(self).wf(),
            id == old(self).nodes@.len(),
            final(self).nodes@ == old(self).nodes@.push(Some(pkg)),
            final(self).edges@ == old(self).edges@,
    {
        let id = self.nodes.len();
        self.nodes.push(Some(pkg));
        proof {
            assert forall|j: int| #[trigger] self.edge_present(j) implies {
                let e = self.edge_at(j);
                e.id == j && self.node_present(e.source as int) && self.node_present(e.target as int)
            } by {
                assert(old(self).edge_present(j));
            }
            assert forall|j: int, k: int|
                self.edge_present(j) && self.edge_present(k) && j != k
                    && (#[trigger] self.edge_at(j)).source == (#[trigger] self.edge_at(k)).source
                    && self.edge_at(j).target == self.edge_at(k).target implies self.edge_at(
                j,
            ).edge_no != self.edge_at(k).edge_no by {
                assert(old(self).edge_present(j));
                assert(old(self).edge_present(k));
            }
        }
        id
    }

    /// The next ordinal for the ordered pair `(source, target)`: one more
    /// than the largest ordinal any present parallel edge carries, `0` when
    /// there is none.
    fn next_edge_no(&self, source: usize, target: usize) -> (no: Option<u32>)
        ensures
            no is Some ==> forall|j: int|
                self.edge_present(j) && (#[trigger] self.edge_at(j)).source == source
                    && self.edge_at(j).target == target ==> self.edge_at(j).edge_no < no->0,
            no is None ==> exists|j: int|
                #[trigger] self.edge_present(j) && self.edge_at(j).source == source
                    && self.edge_at(j).target == target && self.edge_at(j).edge_no == u32::MAX,
    {
        let mut best: u32 = 0;
        let mut j: usize = 0;
        while j < self.edges.len()
            invariant
                j <= self.edges@.len(),
                forall|k: int|
                    0 <= k < j && self.edge_present(k) && (#[trigger] self.edge_at(k)).source == source
                        && self.edge_at(k).target == target ==> self.edge_at(k).edge_no < best,
            decreases self.edges@.len() - j,
        {
            if let Some(e) = &self.edges[j] {
                if e.source == source && e.target == target {
                    if e.edge_no == u32::MAX {
                        proof {
                            assert(self.edge_present(j as int) && self.edge_at(j as int).source
                                == source && self.edge_at(j as int).target == target
                                && self.edge_at(j as int).edge_no == u32::MAX);
                        }
                        return None;
                    }
                    if e.edge_no + 1 > best {
                        best = e.edge_no + 1;
                    }
                }
            }
            j = j + 1;
        }
        Some(best)
    }

    /// Insert an edge between two present nodes, allocating the next
    /// ordinal for the ordered pair. Fails only when the pair's ordinals
    /// are exhausted.
    pub fn add_edge(&mut self, source: usize, target: usize, inner: DepInfoInner) -> (id: Option<
        usize,
    >)
        requires
            old(self).wf(),
            old(self).node_present(source as int),
            old(self).node_present(target as int),
        ensures
            final(self).wf(),
            final(self).nodes@ == old(self).nodes@,
            id is Some ==> {
                &&& id->0 == old(self).edges@.len()
                &&& final(self).edges@.len() == old(self).edges@.len() + 1
                &&& forall|j: int|
                    0 <= j < old(self).edges@.len() ==> final(self).edges@[j] == old(
                        self,
                    ).edges@[j]
                &&& final(self).edge_present(id->0 as int)
                &&& forall|j: int|
                    old(self).edge_present(j) && (#[trigger] old(self).edge_at(j)).source == source
                        && old(self).edge_at(j).target == target ==> old(self).edge_at(j).edge_no
                        < final(self).edge_at(id->0 as int).edge_no
                &&& final(self).edge_at(id->0 as int) == (DepInfo {
                    id: id->0,
                    source,
                    target,
                    edge_no: final(self).edge_at(id->0 as int).edge_no,
                    inner,
                })
            },
            id is None ==> *final(self) == *old(self) && exists|j: int|
                #[trigger] old(self).edge_present(j) && old(self).edge_at(j).source == source
                    && old(self).edge_at(j).target == target && old(self).edge_at(j).edge_no
                    == u32::MAX,
    {
        let no = self.next_edge_no(source, target);
        match no {
            None => None,
            Some(edge_no) => {
                let id = self.edges.len();
                let e = DepInfo { id, source, target, edge_no, inner };
                self.edges.push(Some(e));
                proof {
                    assert forall|j: int| #[trigger] self.edge_present(j) implies {
                        let e2 = self.edge_at(j);
                        e2.id == j && self.node_present(e2.source as int) && self.node_present(
                            e2.target as int,
                        )
                    } by {
                        if j < old(self).edges@.len() {
                            assert(old(self).edge_present(j));
                        }
                    }
                    assert forall|j: int, k: int|
                        self.edge_present(j) && self.edge_present(k) && j != k
                            && (#[trigger] self.edge_at(j)).source == (
                        #[trigger] self.edge_at(k)).source && self.edge_at(j).target
                            == self.edge_at(k).target implies self.edge_at(j).edge_no
                        != self.edge_at(k).edge_no by {
                        if j < old(self).edges@.len() && k < old(self).edges@.len() {
                            assert(old(self).edge_present(j));
                            assert(old(self).edge_present(k));
                            assert(old(self).edge_at(j) == self.edge_at(j));
                            assert(old(self).edge_at(k) == self.edge_at(k));
                        } else if j < old(self).edges@.len() {
                            assert(old(self).edge_present(j));
                            assert(old(self).edge_at(j) == self.edge_at(j));
                        } else if k < old(self).edges@.len() {
                            assert(old(self).edge_present(k));
                            assert(old(self).edge_at(k) == self.edge_at(k));
                        }
                    }
                }
                Some(id)
            },
        }
    }

    /// The number of present nodes.
    pub fn node_count(&self) -> (n: usize)
        ensures
            n == self.node_count_spec(),
    {
        let mut n: usize = 0;
        let mut i: usize = 0;
        proof {
            assert(Seq::new(self.nodes@.len(), |k: int| self.nodes@[k]).take(0).filter(
                |x: Option<Package>| x is Some,
            ) =~= Seq::<Option<Package>>::empty());
        }
        while i < self.nodes.len()
            invariant
                i <= self.nodes@.len(),
                n == Seq::new(self.nodes@.len(), |k: int| self.nodes@[k]).take(i as int).filter(
                    |x: Option<Package>| x is Some,
                ).len(),
                n <= i,
            decreases self.nodes@.len() - i,
        {
            proof {
                let s = Seq::new(self.nodes@.len(), |k: int| self.nodes@[k]);
                assert(s.take(i + 1) =~= s.take(i as int).push(s[i as int]));
                s.take(i as int).lemma_filter_push(s[i as int], |x: Option<Package>| x is Some);
            }
            if self.nodes[i].is_some() {
                n = n + 1;
            }
            i = i + 1;
        }
        proof {
            let s = Seq::new(self.nodes@.len(), |k: int| self.nodes@[k]);
            assert(s.take(i as int) =~= s);
        }
        n
    }

    /// The number of present edges.
    pub fn edge_count(&self) -> (n: usize)
        ensures
            n == self.edge_count_spec(),
    {
        let mut n: usize = 0;
        let mut j: usize = 0;
        proof {
            assert(Seq::new(self.edges@.len(), |k: int| self.edges@[k]).take(0).filter(
                |x: Option<DepInfo>| x is Some,
            ) =~= Seq::<Option<DepInfo>>::empty());
        }
        while j < self.edges.len()
            invariant
                j <= self.edges@.len(),
                n == Seq::new(self.edges@.len(), |k: int| self.edges@[k]).take(j as int).filter(
                    |x: Option<DepInfo>| x is Some,
                ).len(),
                n <= j,
            decreases self.edges@.len() - j,
        {
            proof {
                let s = Seq::new(self.edges@.len(), |k: int| self.edges@[k]);
                assert(s.take(j + 1) =~= s.take(j as int).push(s[j as int]));
                s.take(j as int).lemma_filter_push(s[j as int], |x: Option<DepInfo>| x is Some);
            }
            if self.edges[j].is_some() {
                n = n + 1;
            }
            j = j + 1;
        }
        proof {
            let s = Seq::new(self.edges@.len(), |k: int| self.edges@[k]);
            assert(s.take(j as int) =~= s);
        }
        n
    }
}

impl DepMap {
    /// The resolved-package index a node id was created from.
    pub fn get(&self, id: usize) -> (r: Option<usize>)
        ensures
            id < self.entries@.len() ==> r == self.entries@[id as int],
            id >= self.entries@.len() ==> r is None,
    {
        if id < self.entries.len() {
            self.entries[id]
        } else {
            None
        }
    }
}

} // verus!
