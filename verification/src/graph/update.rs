//! The aggregation pass: fold every edge's dependency information into its
//! target node, so that a node's record states the conditions under which
//! it is required over *all* of its incoming edges.

use vstd::prelude::*;
use crate::dep_info::{lemma_combine_lattice, DepInfo, DepInfoInner, DepKind};
use crate::graph::DepGraph;
use crate::package::Package;

verus! {

/// Edge slot `j` holds an edge pointing at node `i`.
pub open spec fn incoming_edge(edges: Seq<Option<DepInfo>>, i: int, j: int) -> bool {
    0 <= j < edges.len() && edges[j] is Some && edges[j]->0.target == i
}

/// The combined kind of the incoming edges of node `i` among the first `j`
/// edge slots: `None` when there is none, otherwise the fold of
/// [`DepKind::combine_spec`] over them.
pub open spec fn agg_kind_upto(edges: Seq<Option<DepInfo>>, i: int, j: int) -> Option<DepKind>
    decreases j,
{
    if j <= 0 {
        None
    } else {
        let prev = agg_kind_upto(edges, i, j - 1);
        if incoming_edge(edges, i, j - 1) {
            match prev {
                None => Some(edges[j - 1]->0.inner.kind),
                Some(k) => Some(k.combine_spec(edges[j - 1]->0.inner.kind)),
            }
        } else {
            prev
        }
    }
}

/// The combined kind of all incoming edges of node `i`.
pub open spec fn agg_kind(edges: Seq<Option<DepInfo>>, i: int) -> Option<DepKind> {
    agg_kind_upto(edges, i, edges.len() as int)
}

/// Whether some incoming edge of node `i` satisfies one of the category
/// flags.
pub open spec fn has_incoming_dev(edges: Seq<Option<DepInfo>>, i: int) -> bool {
    exists|j: int| #[trigger] incoming_edge(edges, i, j) && edges[j]->0.inner.is_dev
}

pub open spec fn has_incoming_build(edges: Seq<Option<DepInfo>>, i: int) -> bool {
    exists|j: int| #[trigger] incoming_edge(edges, i, j) && edges[j]->0.inner.is_build
}

pub open spec fn has_incoming_normal(edges: Seq<Option<DepInfo>>, i: int) -> bool {
    exists|j: int| #[trigger] incoming_edge(edges, i, j) && edges[j]->0.inner.is_normal
}

/// What the pass leaves in a node that has at least one incoming edge: the
/// aggregate kind and the three OR-ed category flags; everything else is
/// kept.
pub open spec fn aggregated_package(p: Package, edges: Seq<Option<DepInfo>>, i: int) -> Package {
    Package {
        dep_info: DepInfoInner {
            kind: agg_kind(edges, i)->0,
            is_dev: has_incoming_dev(edges, i),
            is_build: has_incoming_build(edges, i),
            is_normal: has_incoming_normal(edges, i),
            ..p.dep_info
        },
        ..p
    }
}

/// What the pass leaves in an edge: only the visited mark changes.
pub open spec fn visited_edge(e: DepInfo) -> DepInfo {
    DepInfo { inner: DepInfoInner { visited: true, ..e.inner }, ..e }
}

/// A prefix that already contains an incoming edge folds to a value.
proof fn lemma_agg_some(edges: Seq<Option<DepInfo>>, i: int, j: int, jj: int)
    requires
        incoming_edge(edges, i, jj),
        jj < j <= edges.len(),
    ensures
        agg_kind_upto(edges, i, j) is Some,
    decreases j,
{
    if jj < j - 1 {
        lemma_agg_some(edges, i, j - 1, jj);
    }
}

/// The fold over a prefix absorbs every incoming edge the prefix contains.
proof fn lemma_agg_upto_absorbs(edges: Seq<Option<DepInfo>>, i: int, j: int, jj: int)
    requires
        incoming_edge(edges, i, jj),
        jj < j <= edges.len(),
    ensures
        agg_kind_upto(edges, i, j) is Some,
        agg_kind_upto(edges, i, j)->0.combine_spec(edges[jj]->0.inner.kind) == agg_kind_upto(
            edges,
            i,
            j,
        )->0,
    decreases j,
{
    lemma_agg_some(edges, i, j, jj);
    let kjj = edges[jj]->0.inner.kind;
    if jj == j - 1 {
        match agg_kind_upto(edges, i, j - 1) {
            None => {
                lemma_combine_lattice(kjj, kjj, kjj);
            },
            Some(k) => {
                lemma_combine_lattice(k, kjj, kjj);
                lemma_combine_lattice(kjj, kjj, kjj);
            },
        }
    } else {
        lemma_agg_upto_absorbs(edges, i, j - 1, jj);
        let prev = agg_kind_upto(edges, i, j - 1)->0;
        if incoming_edge(edges, i, j - 1) {
            let kj1 = edges[j - 1]->0.inner.kind;
            lemma_combine_lattice(prev, kj1, kjj);
            lemma_combine_lattice(prev, kjj, kj1);
            lemma_combine_lattice(kjj, kj1, prev);
        }
    }
}

/// A node's aggregate kind is the join over *all* of its incoming edges,
/// not merely the first discovered: folding any single incoming edge's
/// kind into the final aggregate leaves it unchanged.
pub proof fn lemma_aggregate_joins_all_incoming(edges: Seq<Option<DepInfo>>, i: int, jj: int)
    requires
        incoming_edge(edges, i, jj),
    ensures
        agg_kind(edges, i) is Some,
        agg_kind(edges, i)->0.combine_spec(edges[jj]->0.inner.kind) == agg_kind(edges, i)->0,
{
    lemma_agg_upto_absorbs(edges, i, edges.len() as int, jj);
}

/// Fold every edge's dependency information into its target node, and mark
/// every edge visited. The graph's node and edge sets are unchanged: a
/// node with incoming edges has its record replaced by the aggregate over
/// all of them, a node without any keeps its record, and edges change only
/// in their visited mark.
pub fn update_dep_info(graph: &mut DepGraph)
    requires
        old(graph).wf(),
    ensures
        final(graph).wf(),
        final(graph).nodes@.len() == old(graph).nodes@.len(),
        final(graph).edges@.len() == old(graph).edges@.len(),
        forall|i: int| final(graph).node_present(i) <==> old(graph).node_present(i),
        forall|j: int| final(graph).edge_present(j) <==> old(graph).edge_present(j),
        forall|j: int|
            old(graph).edge_present(j) ==> final(graph).edge_at(j) == visited_edge(
                old(graph).edge_at(j),
            ),
        forall|i: int|
            old(graph).node_present(i) ==> final(graph).node_at(i) == (if agg_kind(
                old(graph).edges@,
                i,
            ) is Some {
                aggregated_package(old(graph).node_at(i), old(graph).edges@, i)
            } else {
                old(graph).node_at(i)
            }),
{
    let ghost edges0 = graph.edges@;
    let n = graph.nodes.len();
    let mut i: usize = 0;
    while i < n
        invariant
            n == graph.nodes@.len(),
            i <= n,
            graph.edges@ == edges0,
            graph.wf(),
            forall|i2: int| graph.node_present(i2) <==> old(graph).node_present(i2),
            forall|i2: int|
                i <= i2 < n && old(graph).node_present(i2) ==> graph.node_at(i2) == old(
                    graph,
                ).node_at(i2),
            forall|i2: int|
                0 <= i2 < i && old(graph).node_present(i2) ==> graph.node_at(i2) == (if agg_kind(
                    edges0,
                    i2,
                ) is Some {
                    aggregated_package(old(graph).node_at(i2), edges0, i2)
                } else {
                    old(graph).node_at(i2)
                }),
            graph.nodes@.len() == old(graph).nodes@.len(),
            graph.edges@ == old(graph).edges@,
        decreases n - i,
    {
        if graph.nodes[i].is_some() {
            // Fold the incoming edges of node i.
            let mut kind_acc: Option<DepKind> = None;
            let mut dev_acc = false;
            let mut build_acc = false;
            let mut normal_acc = false;
            let m = graph.edges.len();
            let mut j: usize = 0;
            while j < m
                invariant
                    m == graph.edges@.len(),
                    j <= m,
                    graph.edges@ == edges0,
                    kind_acc == agg_kind_upto(edges0, i as int, j as int),
                    dev_acc == exists|j2: int|
                        0 <= j2 < j && #[trigger] incoming_edge(edges0, i as int, j2)
                            && edges0[j2]->0.inner.is_dev,
                    build_acc == exists|j2: int|
                        0 <= j2 < j && #[trigger] incoming_edge(edges0, i as int, j2)
                            && edges0[j2]->0.inner.is_build,
                    normal_acc == exists|j2: int|
                        0 <= j2 < j && #[trigger] incoming_edge(edges0, i as int, j2)
                            && edges0[j2]->0.inner.is_normal,
                decreases m - j,
            {
                let mut hit = false;
                let ghost pre_kind = kind_acc;
                if let Some(e) = &graph.edges[j] {
                    if e.target == i {
                        hit = true;
                        let einner = e.inner;
                        match kind_acc {
                            None => {
                                kind_acc = Some(einner.kind);
                            },
                            Some(k) => {
                                let mut k2 = k;
                                k2.combine_incoming(einner.kind);
                                kind_acc = Some(k2);
                            },
                        }
                        dev_acc = dev_acc || einner.is_dev;
                        build_acc = build_acc || einner.is_build;
                        normal_acc = normal_acc || einner.is_normal;
                        proof {
                            assert(incoming_edge(edges0, i as int, j as int));
                        }
                    }
                }
                proof {
                    if !hit {
                        assert(!incoming_edge(edges0, i as int, j as int));
                        assert(agg_kind_upto(edges0, i as int, j + 1) == pre_kind);
                    }
                }
                j = j + 1;
            }
            if let Some(new_kind) = kind_acc {
                // At least one incoming edge: replace the aggregate.
                let node = graph.nodes[i].as_ref().unwrap();
                let mut new_pkg = node.duplicate();
                new_pkg.dep_info.kind = new_kind;
                new_pkg.dep_info.is_dev = dev_acc;
                new_pkg.dep_info.is_build = build_acc;
                new_pkg.dep_info.is_normal = normal_acc;
                let ghost pre = graph;
                graph.nodes.set(i, Some(new_pkg));
                proof {
                    assert(graph.node_at(i as int) == aggregated_package(
                        old(graph).node_at(i as int),
                        edges0,
                        i as int,
                    ));
                    assert forall|j2: int| #[trigger] graph.edge_present(j2) implies {
                        let e = graph.edge_at(j2);
                        e.id == j2 && graph.node_present(e.source as int) && graph.node_present(
                            e.target as int,
                        )
                    } by {
                        assert(pre.edge_present(j2));
                    }
                    assert forall|j2: int, k2: int|
                        graph.edge_present(j2) && graph.edge_present(k2) && j2 != k2 && (
                        #[trigger] graph.edge_at(j2)).source == (
                        #[trigger] graph.edge_at(k2)).source && graph.edge_at(j2).target
                            == graph.edge_at(k2).target implies graph.edge_at(j2).edge_no
                        != graph.edge_at(k2).edge_no by {
                        assert(pre.edge_present(j2));
                        assert(pre.edge_present(k2));
                    }
                }
            }
        }
        i = i + 1;
    }

    // Mark every edge visited.
    let ghost mid = *graph;
    let m = graph.edges.len();
    let mut j: usize = 0;
    while j < m
        invariant
            m == graph.edges@.len(),
            j <= m,
            graph.nodes@ == mid.nodes@,
            graph.edges@.len() == mid.edges@.len(),
            forall|j2: int| j <= j2 < m ==> graph.edges@[j2] == mid.edges@[j2],
            forall|j2: int| 0 <= j2 < m ==> (graph.edges@[j2] is Some <==> mid.edges@[j2] is Some),
            forall|j2: int|
                0 <= j2 < j && mid.edge_present(j2) ==> graph.edge_at(j2) == visited_edge(
                    mid.edge_at(j2),
                ),
        decreases m - j,
    {
        if let Some(e) = &graph.edges[j] {
            let new_edge = DepInfo {
                id: e.id,
                source: e.source,
                target: e.target,
                edge_no: e.edge_no,
                inner: DepInfoInner { visited: true, ..e.inner },
            };
            graph.edges.set(j, Some(new_edge));
        }
        j = j + 1;
    }
    proof {
        assert forall|j2: int| #[trigger] graph.edge_present(j2) implies {
            let e = graph.edge_at(j2);
            e.id == j2 && graph.node_present(e.source as int) && graph.node_present(
                e.target as int,
            )
        } by {
            assert(mid.edge_present(j2));
            assert(graph.edge_at(j2) == visited_edge(mid.edge_at(j2)));
        }
        assert forall|j2: int, k2: int|
            graph.edge_present(j2) && graph.edge_present(k2) && j2 != k2 && (
            #[trigger] graph.edge_at(j2)).source == (#[trigger] graph.edge_at(k2)).source
                && graph.edge_at(j2).target == graph.edge_at(k2).target implies graph.edge_at(
            j2,
        ).edge_no != graph.edge_at(k2).edge_no by {
            assert(mid.edge_present(j2));
            assert(mid.edge_present(k2));
            assert(graph.edge_at(j2) == visited_edge(mid.edge_at(j2)));
            assert(graph.edge_at(k2) == visited_edge(mid.edge_at(k2)));
        }
        assert forall|j2: int| old(graph).edge_present(j2) implies graph.edge_at(j2)
            == visited_edge(old(graph).edge_at(j2)) by {
            assert(mid.edge_present(j2));
            assert(mid.edge_at(j2) == old(graph).edge_at(j2));
        }
    }
}

} // verus!
