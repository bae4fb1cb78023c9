//! Auxiliary passes and helpers: proc-macro detection on resolved packages
//! and the name-collision statistics pass.

use vstd::prelude::*;
use crate::graph::DepGraph;
use crate::package::Package;
use crate::resolve::ResolvedPackage;

verus! {

/// Whether a package is a proc-macro. A crate classified as both a regular
/// library and a proc-macro proceeds with the proc-macro classification.
pub fn is_proc_macro(pkg: &ResolvedPackage) -> (r: bool)
    ensures
        r == pkg.has_proc_macro_target,
{
    pkg.has_proc_macro_target
}

/// How many of the first `j` node slots hold a package of this name.
pub open spec fn name_count_upto(nodes: Seq<Option<Package>>, name: Seq<char>, j: int) -> nat
    decreases j,
{
    if j <= 0 {
        0
    } else {
        name_count_upto(nodes, name, j - 1) + (if nodes[j - 1] is Some && nodes[j - 1]->0.name@
            == name {
            1nat
        } else {
            0nat
        })
    }
}

/// How many present nodes carry this name.
pub open spec fn name_count(nodes: Seq<Option<Package>>, name: Seq<char>) -> nat {
    name_count_upto(nodes, name, nodes.len() as int)
}

proof fn lemma_name_count_bound(nodes: Seq<Option<Package>>, name: Seq<char>, j: int)
    requires
        0 <= j <= nodes.len(),
    ensures
        name_count_upto(nodes, name, j) <= j,
    decreases j,
{
    if j > 0 {
        lemma_name_count_bound(nodes, name, j - 1);
    }
}

/// Set every present node's name-collision count to the number of present
/// nodes sharing its name. The pipeline drives this single-threaded, after
/// construction and reduction, so a plain per-node count stands in for the
/// shared counter cell. The counter is sixteen bits wide, so the graph may
/// hold at most that many nodes.
pub fn set_name_stats(graph: &mut DepGraph)
    requires
        old(graph).wf(),
        old(graph).nodes@.len() <= u16::MAX,
    ensures
        final(graph).wf(),
        final(graph).nodes@.len() == old(graph).nodes@.len(),
        final(graph).edges@ == old(graph).edges@,
        forall|i: int| final(graph).node_present(i) <==> old(graph).node_present(i),
        forall|i: int|
            old(graph).node_present(i) ==> final(graph).node_at(i) == (Package {
                name_uses: Some(
                    name_count(old(graph).nodes@, old(graph).node_at(i).name@) as u16,
                ),
                ..old(graph).node_at(i)
            }),
{
    let ghost nodes0 = graph.nodes@;
    let n = graph.nodes.len();

    // Count first, against the unmodified graph.
    let mut counts: Vec<u16> = Vec::new();
    let mut i: usize = 0;
    while i < n
        invariant
            n == graph.nodes@.len(),
            graph.nodes@ == nodes0,
            n <= u16::MAX,
            i <= n,
            counts@.len() == i,
            forall|i2: int|
                0 <= i2 < i && nodes0[i2] is Some ==> (#[trigger] counts@[i2]) as nat == name_count(
                    nodes0,
                    nodes0[i2]->0.name@,
                ),
        decreases n - i,
    {
        if graph.nodes[i].is_some() {
            let name = &graph.nodes[i].as_ref().unwrap().name;
            let mut c: usize = 0;
            let mut j: usize = 0;
            while j < n
                invariant
                    n == graph.nodes@.len(),
                    graph.nodes@ == nodes0,
                    j <= n,
                    c == name_count_upto(nodes0, name@, j as int),
                    c <= j,
                decreases n - j,
            {
                let same = match &graph.nodes[j] {
                    Some(other) => other.name == *name,
                    None => false,
                };
                if same {
                    c = c + 1;
                }
                j = j + 1;
            }
            counts.push(c as u16);
        } else {
            counts.push(0);
        }
        i = i + 1;
    }

    // Then write the counts back.
    let mut i2: usize = 0;
    while i2 < n
        invariant
            n == graph.nodes@.len(),
            nodes0.len() == n,
            graph.edges@ == old(graph).edges@,
            i2 <= n,
            counts@.len() == n,
            forall|k: int|
                0 <= k < n && nodes0[k] is Some ==> (#[trigger] counts@[k]) as nat == name_count(
                    nodes0,
                    nodes0[k]->0.name@,
                ),
            forall|k: int| i2 <= k < n ==> graph.nodes@[k] == nodes0[k],
            forall|k: int| 0 <= k < n ==> ((#[trigger] graph.nodes@[k]) is Some <==> nodes0[k] is Some),
            forall|k: int|
                0 <= k < i2 && nodes0[k] is Some ==> (#[trigger] graph.nodes@[k])->0 == (Package {
                    name_uses: Some(name_count(nodes0, nodes0[k]->0.name@) as u16),
                    ..nodes0[k]->0
                }),
        decreases n - i2,
    {
        let is_present = graph.nodes[i2].is_some();
        if is_present {
            let c = counts[i2];
            let node = graph.nodes[i2].as_ref().unwrap();
            let mut updated = node.duplicate();
            updated.name_uses = Some(c);
            graph.nodes.set(i2, Some(updated));
        }
        i2 = i2 + 1;
    }
    proof {
        assert forall|j2: int| #[trigger] graph.edge_present(j2) implies {
            let e = graph.edge_at(j2);
            e.id == j2 && graph.node_present(e.source as int) && graph.node_present(
                e.target as int,
            )
        } by {
            assert(old(graph).edge_present(j2));
        }
        assert forall|j2: int, k2: int|
            graph.edge_present(j2) && graph.edge_present(k2) && j2 != k2 && (
            #[trigger] graph.edge_at(j2)).source == (#[trigger] graph.edge_at(k2)).source
                && graph.edge_at(j2).target == graph.edge_at(k2).target implies graph.edge_at(
            j2,
        ).edge_no != graph.edge_at(k2).edge_no by {
            assert(old(graph).edge_present(j2));
            assert(old(graph).edge_present(k2));
        }
    }
}

} // verus!
