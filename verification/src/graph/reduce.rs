//! The graph-reduction passes: focus-pruning, hide-pruning and
//! transitive-edge deduplication. Each pass deletes nodes or edges in
//! place; slots are cleared, never renumbered.

use vstd::prelude::*;
use vstd::set_lib::{lemma_len_subset, lemma_int_range, set_int_range};
use crate::dep_info::DepKind;
use crate::graph::DepGraph;
use crate::resolve::name_in;

verus! {

/// There is an edge from node `a` to node `b`.
pub open spec fn step(g: DepGraph, a: int, b: int) -> bool {
    exists|j: int|
        #[trigger] g.edge_present(j) && g.edge_at(j).source == a && g.edge_at(j).target == b
}

/// `p` is a walk through present nodes along edges of the graph.
pub open spec fn is_path(g: DepGraph, p: Seq<int>) -> bool {
    &&& p.len() >= 1
    &&& forall|k: int| 0 <= k < p.len() ==> g.node_present(#[trigger] p[k])
    &&& forall|k: int| 0 <= k < p.len() - 1 ==> step(g, #[trigger] p[k], p[k + 1])
}

/// Node `b` is reachable from node `a` (in zero or more hops).
pub open spec fn reaches(g: DepGraph, a: int, b: int) -> bool {
    exists|p: Seq<int>| #[trigger] is_path(g, p) && p[0] == a && p[p.len() - 1] == b
}

/// Node `f` is present and carries one of the focus names.
pub open spec fn focus_node(g: DepGraph, names: Seq<String>, f: int) -> bool {
    g.node_present(f) && name_in(names, g.node_at(f).name@)
}

/// Node `i` is an ancestor or a descendant of (or is itself) a node
/// carrying one of the focus names.
pub open spec fn relevant(g: DepGraph, names: Seq<String>, i: int) -> bool {
    exists|f: int| #[trigger] focus_node(g, names, f) && (reaches(g, f, i) || reaches(g, i, f))
}

proof fn lemma_reaches_self(g: DepGraph, a: int)
    requires
        g.node_present(a),
    ensures
        reaches(g, a, a),
{
    let p = seq![a];
    assert(is_path(g, p));
}

proof fn lemma_reaches_step(g: DepGraph, a: int, b: int, c: int)
    requires
        reaches(g, a, b),
        step(g, b, c),
        g.node_present(c),
    ensures
        reaches(g, a, c),
{
    let p = choose|p: Seq<int>| #[trigger] is_path(g, p) && p[0] == a && p[p.len() - 1] == b;
    let p2 = p.push(c);
    assert forall|k: int| 0 <= k < p2.len() - 1 implies step(g, #[trigger] p2[k], p2[k + 1]) by {
        if k < p.len() - 1 {
            assert(step(g, p[k], p[k + 1]));
        }
    }
    assert(is_path(g, p2));
    assert(p2[0] == a && p2[p2.len() - 1] == c);
}

proof fn lemma_reaches_prepend(g: DepGraph, a: int, b: int, c: int)
    requires
        reaches(g, b, c),
        step(g, a, b),
        g.node_present(a),
    ensures
        reaches(g, a, c),
{
    let p = choose|p: Seq<int>| #[trigger] is_path(g, p) && p[0] == b && p[p.len() - 1] == c;
    let p2 = seq![a] + p;
    assert(p2[0] == a);
    assert forall|k: int| 0 <= k < p2.len() implies g.node_present(#[trigger] p2[k]) by {
        if k > 0 {
            assert(p2[k] == p[k - 1]);
        }
    }
    assert forall|k: int| 0 <= k < p2.len() - 1 implies step(g, #[trigger] p2[k], p2[k + 1]) by {
        if k == 0 {
            assert(p2[0] == a && p2[1] == p[0]);
        } else {
            assert(p2[k] == p[k - 1] && p2[k + 1] == p[k]);
            assert(step(g, p[k - 1], p[k]));
        }
    }
    assert(is_path(g, p2));
    assert(p2[p2.len() - 1] == c);
}

/// A mark assignment closed under following edges forward.
pub open spec fn closed_forward(g: DepGraph, marks: Seq<bool>) -> bool {
    forall|j: int|
        #[trigger] g.edge_present(j) ==> (marks[g.edge_at(j).source as int]
            ==> marks[g.edge_at(j).target as int])
}

/// A mark assignment closed under following edges backward.
pub open spec fn closed_backward(g: DepGraph, marks: Seq<bool>) -> bool {
    forall|j: int|
        #[trigger] g.edge_present(j) ==> (marks[g.edge_at(j).target as int]
            ==> marks[g.edge_at(j).source as int])
}

proof fn lemma_closed_forward_reach(g: DepGraph, marks: Seq<bool>, p: Seq<int>)
    requires
        g.wf(),
        marks.len() == g.nodes@.len(),
        is_path(g, p),
        closed_forward(g, marks),
        marks[p[0]],
    ensures
        marks[p[p.len() - 1]],
    decreases p.len(),
{
    if p.len() > 1 {
        let q = p.drop_last();
        assert(is_path(g, q));
        lemma_closed_forward_reach(g, marks, q);
        assert(step(g, p[p.len() - 2], p[p.len() - 1]));
        let j = choose|j: int|
            #[trigger] g.edge_present(j) && g.edge_at(j).source == p[p.len() - 2] && g.edge_at(
                j,
            ).target == p[p.len() - 1];
        assert(marks[g.edge_at(j).target as int]);
    }
}

proof fn lemma_closed_backward_reach(g: DepGraph, marks: Seq<bool>, p: Seq<int>)
    requires
        g.wf(),
        marks.len() == g.nodes@.len(),
        is_path(g, p),
        closed_backward(g, marks),
        marks[p[p.len() - 1]],
    ensures
        marks[p[0]],
    decreases p.len(),
{
    if p.len() > 1 {
        let q = p.subrange(1, p.len() as int);
        assert forall|k: int| 0 <= k < q.len() - 1 implies step(g, #[trigger] q[k], q[k + 1]) by {
            assert(q[k] == p[k + 1] && q[k + 1] == p[k + 2]);
            assert(step(g, p[k + 1], p[k + 2]));
        }
        assert(is_path(g, q));
        assert(q[q.len() - 1] == p[p.len() - 1]);
        lemma_closed_backward_reach(g, marks, q);
        assert(marks[p[1]]);
        assert(step(g, p[0], p[1]));
        let j = choose|j: int|
            #[trigger] g.edge_present(j) && g.edge_at(j).source == p[0] && g.edge_at(j).target
                == p[1];
        assert(marks[g.edge_at(j).source as int]);
    }
}

/// The ghost set of marked node slots.
spec fn marked_set(marks: Seq<bool>) -> Set<int> {
    Set::new(|i: int| 0 <= i < marks.len() && marks[i])
}

proof fn lemma_marked_bound(marks: Seq<bool>)
    ensures
        marked_set(marks).finite(),
        marked_set(marks).len() <= marks.len(),
{
    lemma_int_range(0, marks.len() as int);
    assert(marked_set(marks).subset_of(set_int_range(0, marks.len() as int)));
    lemma_len_subset(marked_set(marks), set_int_range(0, marks.len() as int));
}

/// Mark every node reachable forward from a node carrying a focus name.
#[verifier::rlimit(60)]
fn mark_forward(graph: &DepGraph, focus: &Vec<String>) -> (marks: Vec<bool>)
    requires
        graph.wf(),
    ensures
        marks@.len() == graph.nodes@.len(),
        forall|i: int|
            0 <= i < marks@.len() ==> ((#[trigger] marks@[i]) <==> exists|f: int|
                focus_node(*graph, focus@, f) && #[trigger] reaches(*graph, f, i)),
{
    let n = graph.nodes.len();
    let mut marks: Vec<bool> = Vec::new();
    let mut i: usize = 0;
    while i < n
        invariant
            graph.wf(),
            n == graph.nodes@.len(),
            i <= n,
            marks@.len() == i,
            forall|i2: int|
                0 <= i2 < i ==> ((#[trigger] marks@[i2]) <==> focus_node(*graph, focus@, i2)),
        decreases n - i,
    {
        let seeded = match &graph.nodes[i] {
            Some(pkg) => crate::resolve::contains_name(focus, &pkg.name),
            None => false,
        };
        marks.push(seeded);
        i = i + 1;
    }
    let ghost mut marked: Set<int> = marked_set(marks@);
    proof {
        assert forall|i2: int| 0 <= i2 < n && #[trigger] marks@[i2] implies exists|f: int|
            focus_node(*graph, focus@, f) && #[trigger] reaches(*graph, f, i2) by {
            lemma_reaches_self(*graph, i2);
            assert(focus_node(*graph, focus@, i2) && reaches(*graph, i2, i2));
        }
    }
    let mut changed = true;
    while changed
        invariant
            graph.wf(),
            n == graph.nodes@.len(),
            marks@.len() == n,
            forall|i2: int|
                0 <= i2 < n && #[trigger] marks@[i2] ==> exists|f: int|
                    focus_node(*graph, focus@, f) && #[trigger] reaches(*graph, f, i2),
            forall|f: int| #[trigger] focus_node(*graph, focus@, f) ==> marks@[f],
            marked == marked_set(marks@),
            !changed ==> closed_forward(*graph, marks@),
        decreases n - marked.len() + (if changed { 1int } else { 0int }),
    {
        proof {
            lemma_marked_bound(marks@);
        }
        changed = false;
        let ghost marks_entry = marks@;
        let ghost marked_entry = marked;
        let m = graph.edges.len();
        let mut j: usize = 0;
        while j < m
            invariant
                graph.wf(),
                n == graph.nodes@.len(),
                m == graph.edges@.len(),
                j <= m,
                marks@.len() == n,
                forall|i2: int|
                    0 <= i2 < n && #[trigger] marks@[i2] ==> exists|f: int|
                        focus_node(*graph, focus@, f) && #[trigger] reaches(*graph, f, i2),
                forall|f: int| #[trigger] focus_node(*graph, focus@, f) ==> marks@[f],
                marked == marked_set(marks@),
                marked_entry.subset_of(marked),
                marked_entry.finite(),
                marked.finite(),
                marked.len() <= n,
                changed ==> marked_entry.len() < marked.len(),
                !changed ==> marks@ == marks_entry && forall|j2: int|
                    0 <= j2 < j && #[trigger] graph.edge_present(j2) ==> (marks@[graph.edge_at(
                        j2,
                    ).source as int] ==> marks@[graph.edge_at(j2).target as int]),
            decreases m - j,
        {
            if let Some(e) = &graph.edges[j] {
                let src = e.source;
                let tgt = e.target;
                proof {
                    assert(graph.edge_present(j as int));
                }
                if marks[src] && !marks[tgt] {
                    proof {
                        lemma_marked_bound(marks@);
                        lemma_len_subset(marked_entry, marked);
                        assert(graph.edge_present(j as int));
                        assert(step(*graph, src as int, tgt as int));
                        let f = choose|f: int|
                            focus_node(*graph, focus@, f) && #[trigger] reaches(
                                *graph,
                                f,
                                src as int,
                            );
                        lemma_reaches_step(*graph, f, src as int, tgt as int);
                        assert(!marked.contains(tgt as int));
                        vstd::set::axiom_set_insert_len(marked, tgt as int);
                        marked = marked.insert(tgt as int);
                    }
                    marks.set(tgt, true);
                    changed = true;
                    proof {
                        assert(marked =~= marked_set(marks@));
                        lemma_marked_bound(marks@);
                    }
                }
            }
            j = j + 1;
        }
    }
    proof {
        assert forall|i2: int|
            0 <= i2 < n && exists|f: int|
                focus_node(*graph, focus@, f) && #[trigger] reaches(
                    *graph,
                    f,
                    i2,
                ) implies marks@[i2] by {
            let f = choose|f: int| focus_node(*graph, focus@, f) && #[trigger] reaches(
                *graph,
                f,
                i2,
            );
            let p = choose|p: Seq<int>|
                #[trigger] is_path(*graph, p) && p[0] == f && p[p.len() - 1] == i2;
            lemma_closed_forward_reach(*graph, marks@, p);
        }
    }
    marks
}

/// Mark every node that reaches a node carrying a focus name.
#[verifier::rlimit(60)]
fn mark_backward(graph: &DepGraph, focus: &Vec<String>) -> (marks: Vec<bool>)
    requires
        graph.wf(),
    ensures
        marks@.len() == graph.nodes@.len(),
        forall|i: int|
            0 <= i < marks@.len() ==> ((#[trigger] marks@[i]) <==> exists|f: int|
                focus_node(*graph, focus@, f) && #[trigger] reaches(*graph, i, f)),
{
    let n = graph.nodes.len();
    let mut marks: Vec<bool> = Vec::new();
    let mut i: usize = 0;
    while i < n
        invariant
            graph.wf(),
            n == graph.nodes@.len(),
            i <= n,
            marks@.len() == i,
            forall|i2: int|
                0 <= i2 < i ==> ((#[trigger] marks@[i2]) <==> focus_node(*graph, focus@, i2)),
        decreases n - i,
    {
        let seeded = match &graph.nodes[i] {
            Some(pkg) => crate::resolve::contains_name(focus, &pkg.name),
            None => false,
        };
        marks.push(seeded);
        i = i + 1;
    }
    let ghost mut marked: Set<int> = marked_set(marks@);
    proof {
        assert forall|i2: int| 0 <= i2 < n && #[trigger] marks@[i2] implies exists|f: int|
            focus_node(*graph, focus@, f) && #[trigger] reaches(*graph, i2, f) by {
            lemma_reaches_self(*graph, i2);
            assert(focus_node(*graph, focus@, i2) && reaches(*graph, i2, i2));
        }
    }
    let mut changed = true;
    while changed
        invariant
            graph.wf(),
            n == graph.nodes@.len(),
            marks@.len() == n,
            forall|i2: int|
                0 <= i2 < n && #[trigger] marks@[i2] ==> exists|f: int|
                    focus_node(*graph, focus@, f) && #[trigger] reaches(*graph, i2, f),
            forall|f: int| #[trigger] focus_node(*graph, focus@, f) ==> marks@[f],
            marked == marked_set(marks@),
            !changed ==> closed_backward(*graph, marks@),
        decreases n - marked.len() + (if changed { 1int } else { 0int }),
    {
        proof {
            lemma_marked_bound(marks@);
        }
        changed = false;
        let ghost marks_entry = marks@;
        let ghost marked_entry = marked;
        let m = graph.edges.len();
        let mut j: usize = 0;
        while j < m
            invariant
                graph.wf(),
                n == graph.nodes@.len(),
                m == graph.edges@.len(),
                j <= m,
                marks@.len() == n,
                forall|i2: int|
                    0 <= i2 < n && #[trigger] marks@[i2] ==> exists|f: int|
                        focus_node(*graph, focus@, f) && #[trigger] reaches(*graph, i2, f),
                forall|f: int| #[trigger] focus_node(*graph, focus@, f) ==> marks@[f],
                marked == marked_set(marks@),
                marked_entry.subset_of(marked),
                marked_entry.finite(),
                marked.finite(),
                marked.len() <= n,
                changed ==> marked_entry.len() < marked.len(),
                !changed ==> marks@ == marks_entry && forall|j2: int|
                    0 <= j2 < j && #[trigger] graph.edge_present(j2) ==> (marks@[graph.edge_at(
                        j2,
                    ).target as int] ==> marks@[graph.edge_at(j2).source as int]),
            decreases m - j,
        {
            if let Some(e) = &graph.edges[j] {
                let src = e.source;
                let tgt = e.target;
                proof {
                    assert(graph.edge_present(j as int));
                }
                if marks[tgt] && !marks[src] {
                    proof {
                        lemma_marked_bound(marks@);
                        lemma_len_subset(marked_entry, marked);
                        assert(graph.edge_present(j as int));
                        assert(step(*graph, src as int, tgt as int));
                        let f = choose|f: int|
                            focus_node(*graph, focus@, f) && #[trigger] reaches(
                                *graph,
                                tgt as int,
                                f,
                            );
                        lemma_reaches_prepend(*graph, src as int, tgt as int, f);
                        assert(!marked.contains(src as int));
                        vstd::set::axiom_set_insert_len(marked, src as int);
                        marked = marked.insert(src as int);
                    }
                    marks.set(src, true);
                    changed = true;
                    proof {
                        assert(marked =~= marked_set(marks@));
                        lemma_marked_bound(marks@);
                    }
                }
            }
            j = j + 1;
        }
    }
    proof {
        assert forall|i2: int|
            0 <= i2 < n && exists|f: int|
                focus_node(*graph, focus@, f) && #[trigger] reaches(
                    *graph,
                    i2,
                    f,
                ) implies marks@[i2] by {
            let f = choose|f: int| focus_node(*graph, focus@, f) && #[trigger] reaches(
                *graph,
                i2,
                f,
            );
            let p = choose|p: Seq<int>|
                #[trigger] is_path(*graph, p) && p[0] == i2 && p[p.len() - 1] == f;
            assert(marks@[p[p.len() - 1]]);
            lemma_closed_backward_reach(*graph, marks@, p);
        }
    }
    marks
}
/// Focus-pruning: keep exactly the ancestors and descendants of (and) the
/// nodes carrying a focus name, and the edges joining two kept nodes;
/// delete everything else. A no-op when the focus set is empty.
#[verifier::rlimit(80)]
pub fn remove_irrelevant_deps(graph: &mut DepGraph, focus: &Vec<String>)
    requires
        old(graph).wf(),
    ensures
        final(graph).wf(),
        focus@.len() == 0 ==> *final(graph) == *old(graph),
        final(graph).nodes@.len() == old(graph).nodes@.len(),
        final(graph).edges@.len() == old(graph).edges@.len(),
        forall|i: int|
            final(graph).node_present(i) <==> old(graph).node_present(i) && (focus@.len() == 0
                || relevant(*old(graph), focus@, i)),
        forall|i: int|
            final(graph).node_present(i) ==> final(graph).node_at(i) == old(graph).node_at(i),
        forall|j: int|
            final(graph).edge_present(j) <==> old(graph).edge_present(j) && (focus@.len() == 0 || (
            relevant(*old(graph), focus@, old(graph).edge_at(j).source as int) && relevant(
                *old(graph),
                focus@,
                old(graph).edge_at(j).target as int,
            ))),
        forall|j: int|
            final(graph).edge_present(j) ==> final(graph).edge_at(j) == old(graph).edge_at(j),
{
    if focus.is_empty() {
        return ;
    }
    let fwd = mark_forward(graph, focus);
    let bwd = mark_backward(graph, focus);
    proof {
        assert forall|i: int| 0 <= i < fwd@.len() implies ((fwd@[i] || bwd@[i]) == relevant(
            *graph,
            focus@,
            i,
        )) by {
            if fwd@[i] {
                let f = choose|f: int|
                    focus_node(*graph, focus@, f) && #[trigger] reaches(*graph, f, i);
                assert(relevant(*graph, focus@, i));
            } else if bwd@[i] {
                let f = choose|f: int|
                    focus_node(*graph, focus@, f) && #[trigger] reaches(*graph, i, f);
                assert(relevant(*graph, focus@, i));
            } else if relevant(*graph, focus@, i) {
                let f = choose|f: int|
                    #[trigger] focus_node(*graph, focus@, f) && (reaches(*graph, f, i) || reaches(
                        *graph,
                        i,
                        f,
                    ));
                assert(false);
            }
        }
    }
    let ghost g0 = *graph;
    let m = graph.edges.len();
    let mut j: usize = 0;
    while j < m
        invariant
            m == graph.edges@.len(),
            g0.edges@.len() == m,
            j <= m,
            graph.nodes@ == g0.nodes@,
            fwd@.len() == g0.nodes@.len(),
            bwd@.len() == g0.nodes@.len(),
            g0.wf(),
            forall|i: int|
                0 <= i < fwd@.len() ==> ((fwd@[i] || bwd@[i]) == relevant(g0, focus@, i)),
            forall|j2: int| j <= j2 < m ==> graph.edges@[j2] == g0.edges@[j2],
            forall|j2: int|
                0 <= j2 < j ==> ((#[trigger] graph.edges@[j2]) is Some <==> (g0.edges@[j2] is Some
                    && relevant(g0, focus@, g0.edge_at(j2).source as int) && relevant(
                    g0,
                    focus@,
                    g0.edge_at(j2).target as int,
                ))),
            forall|j2: int|
                0 <= j2 < j && (#[trigger] graph.edges@[j2]) is Some ==> graph.edges@[j2]
                    == g0.edges@[j2],
        decreases m - j,
    {
        proof {
            if graph.edges@[j as int] is Some {
                assert(g0.edge_present(j as int));
            }
        }
        let clear = match &graph.edges[j] {
            Some(e) => !(fwd[e.source] || bwd[e.source]) || !(fwd[e.target] || bwd[e.target]),
            None => false,
        };
        if clear {
            graph.edges.set(j, None);
        } else {
            proof {
                if graph.edges@[j as int] is Some {
                    let e = g0.edge_at(j as int);
                    assert((fwd@[e.source as int] || bwd@[e.source as int]) == relevant(
                        g0,
                        focus@,
                        e.source as int,
                    ));
                    assert((fwd@[e.target as int] || bwd@[e.target as int]) == relevant(
                        g0,
                        focus@,
                        e.target as int,
                    ));
                }
            }
        }
        j = j + 1;
    }
    let ghost g1 = *graph;
    let n = graph.nodes.len();
    let mut i: usize = 0;
    while i < n
        invariant
            n == graph.nodes@.len(),
            i <= n,
            graph.edges@ == g1.edges@,
            g1.nodes@ == g0.nodes@,
            n == g0.nodes@.len(),
            fwd@.len() == n,
            bwd@.len() == n,
            forall|i2: int|
                0 <= i2 < fwd@.len() ==> ((fwd@[i2] || bwd@[i2]) == relevant(g0, focus@, i2)),
            forall|i2: int| i <= i2 < n ==> graph.nodes@[i2] == g0.nodes@[i2],
            forall|i2: int|
                0 <= i2 < i ==> ((#[trigger] graph.nodes@[i2]) is Some <==> (g0.nodes@[i2] is Some
                    && relevant(g0, focus@, i2))),
            forall|i2: int|
                0 <= i2 < i && (#[trigger] graph.nodes@[i2]) is Some ==> graph.nodes@[i2]
                    == g0.nodes@[i2],
        decreases n - i,
    {
        let clear = match &graph.nodes[i] {
            Some(_) => !(fwd[i] || bwd[i]),
            None => false,
        };
        if clear {
            graph.nodes.set(i, None);
        }
        i = i + 1;
    }
    proof {
        assert forall|i2: int|
            final(graph).node_present(i2) <==> old(graph).node_present(i2) && relevant(
                g0,
                focus@,
                i2,
            ) by {}
        assert forall|j2: int| #[trigger] graph.edge_present(j2) implies {
            let e = graph.edge_at(j2);
            e.id == j2 && graph.node_present(e.source as int) && graph.node_present(
                e.target as int,
            )
        } by {
            assert(g0.edge_present(j2));
            assert(graph.edge_at(j2) == g0.edge_at(j2));
            assert(relevant(g0, focus@, g0.edge_at(j2).source as int));
            assert(relevant(g0, focus@, g0.edge_at(j2).target as int));
            assert(graph.nodes@[g0.edge_at(j2).source as int] is Some);
            assert(graph.nodes@[g0.edge_at(j2).target as int] is Some);
        }
        assert forall|j2: int, k2: int|
            graph.edge_present(j2) && graph.edge_present(k2) && j2 != k2 && (
            #[trigger] graph.edge_at(j2)).source == (#[trigger] graph.edge_at(k2)).source
                && graph.edge_at(j2).target == graph.edge_at(k2).target implies graph.edge_at(
            j2,
        ).edge_no != graph.edge_at(k2).edge_no by {
            assert(g0.edge_present(j2));
            assert(g0.edge_present(k2));
            assert(graph.edge_at(j2) == g0.edge_at(j2));
            assert(graph.edge_at(k2) == g0.edge_at(k2));
        }
    }
}

/// Hide-pruning: delete every node whose name is in the hide set, and
/// every edge incident to a deleted node. No path reconnection occurs;
/// nodes that were only reachable through a deleted node stay in the graph
/// and merely become unreachable.
#[verifier::rlimit(80)]
pub fn remove_deps(graph: &mut DepGraph, hide: &Vec<String>)
    requires
        old(graph).wf(),
    ensures
        final(graph).wf(),
        final(graph).nodes@.len() == old(graph).nodes@.len(),
        final(graph).edges@.len() == old(graph).edges@.len(),
        forall|i: int|
            final(graph).node_present(i) <==> old(graph).node_present(i) && !name_in(
                hide@,
                old(graph).node_at(i).name@,
            ),
        forall|i: int|
            final(graph).node_present(i) ==> final(graph).node_at(i) == old(graph).node_at(i),
        forall|j: int|
            final(graph).edge_present(j) <==> old(graph).edge_present(j) && !name_in(
                hide@,
                old(graph).node_at(old(graph).edge_at(j).source as int).name@,
            ) && !name_in(hide@, old(graph).node_at(old(graph).edge_at(j).target as int).name@),
        forall|j: int|
            final(graph).edge_present(j) ==> final(graph).edge_at(j) == old(graph).edge_at(j),
{
    let ghost g0 = *graph;
    let m = graph.edges.len();
    let mut j: usize = 0;
    while j < m
        invariant
            m == graph.edges@.len(),
            g0.edges@.len() == m,
            j <= m,
            graph.nodes@ == g0.nodes@,
            g0.wf(),
            forall|j2: int| j <= j2 < m ==> graph.edges@[j2] == g0.edges@[j2],
            forall|j2: int|
                0 <= j2 < j ==> ((#[trigger] graph.edges@[j2]) is Some <==> (g0.edges@[j2] is Some
                    && !name_in(hide@, g0.node_at(g0.edge_at(j2).source as int).name@) && !name_in(
                    hide@,
                    g0.node_at(g0.edge_at(j2).target as int).name@,
                ))),
            forall|j2: int|
                0 <= j2 < j && (#[trigger] graph.edges@[j2]) is Some ==> graph.edges@[j2]
                    == g0.edges@[j2],
        decreases m - j,
    {
        proof {
            if graph.edges@[j as int] is Some {
                assert(g0.edge_present(j as int));
            }
        }
        let clear = match &graph.edges[j] {
            Some(e) => {
                let src_hidden = match &graph.nodes[e.source] {
                    Some(pkg) => crate::resolve::contains_name(hide, &pkg.name),
                    None => false,
                };
                let tgt_hidden = match &graph.nodes[e.target] {
                    Some(pkg) => crate::resolve::contains_name(hide, &pkg.name),
                    None => false,
                };
                src_hidden || tgt_hidden
            },
            None => false,
        };
        if clear {
            graph.edges.set(j, None);
        }
        j = j + 1;
    }
    let ghost g1 = *graph;
    let n = graph.nodes.len();
    let mut i: usize = 0;
    while i < n
        invariant
            n == graph.nodes@.len(),
            i <= n,
            graph.edges@ == g1.edges@,
            g1.nodes@ == g0.nodes@,
            n == g0.nodes@.len(),
            forall|i2: int| i <= i2 < n ==> graph.nodes@[i2] == g0.nodes@[i2],
            forall|i2: int|
                0 <= i2 < i ==> ((#[trigger] graph.nodes@[i2]) is Some <==> (g0.nodes@[i2] is Some
                    && !name_in(hide@, g0.node_at(i2).name@))),
            forall|i2: int|
                0 <= i2 < i && (#[trigger] graph.nodes@[i2]) is Some ==> graph.nodes@[i2]
                    == g0.nodes@[i2],
        decreases n - i,
    {
        let clear = match &graph.nodes[i] {
            Some(pkg) => crate::resolve::contains_name(hide, &pkg.name),
            None => false,
        };
        if clear {
            graph.nodes.set(i, None);
        }
        i = i + 1;
    }
    proof {
        assert forall|j2: int| #[trigger] graph.edge_present(j2) implies {
            let e = graph.edge_at(j2);
            e.id == j2 && graph.node_present(e.source as int) && graph.node_present(
                e.target as int,
            )
        } by {
            assert(g0.edge_present(j2));
            assert(graph.edge_at(j2) == g0.edge_at(j2));
            assert(!name_in(hide@, g0.node_at(g0.edge_at(j2).source as int).name@));
            assert(!name_in(hide@, g0.node_at(g0.edge_at(j2).target as int).name@));
            assert(graph.nodes@[g0.edge_at(j2).source as int] is Some);
            assert(graph.nodes@[g0.edge_at(j2).target as int] is Some);
        }
        assert forall|j2: int, k2: int|
            graph.edge_present(j2) && graph.edge_present(k2) && j2 != k2 && (
            #[trigger] graph.edge_at(j2)).source == (#[trigger] graph.edge_at(k2)).source
                && graph.edge_at(j2).target == graph.edge_at(k2).target implies graph.edge_at(
            j2,
        ).edge_no != graph.edge_at(k2).edge_no by {
            assert(g0.edge_present(j2));
            assert(g0.edge_present(k2));
            assert(graph.edge_at(j2) == g0.edge_at(j2));
            assert(graph.edge_at(k2) == g0.edge_at(k2));
        }
    }
}
/// The combined kind of a two-hop path: a link is active only when both
/// hops are, so the components meet (AND).
pub open spec fn path_kind(k1: DepKind, k2: DepKind) -> DepKind {
    DepKind { host: k1.host.and_spec(k2.host), target: k1.target.and_spec(k2.target) }
}

/// `strong` subsumes `weak`: joining `weak` into `strong` changes nothing,
/// component by component. This is the plain lattice order; the poisoning
/// rule of the aggregate join plays no part here.
pub open spec fn kind_dominates(strong: DepKind, weak: DepKind) -> bool {
    &&& weak.host.or_spec(strong.host) == strong.host
    &&& weak.target.or_spec(strong.target) == strong.target
}

/// Edges `j1` and `j2` form a two-hop detour around edge `j`, through a
/// third node, whose combined kind subsumes the direct edge's kind. An
/// edge carrying the poisoning kind is never subsumed: its activation
/// condition is indeterminate, so no detour may claim to cover it.
pub open spec fn two_hop_witness(
    edges: Seq<Option<crate::dep_info::DepInfo>>,
    j: int,
    j1: int,
    j2: int,
) -> bool {
    &&& 0 <= j < edges.len() && edges[j] is Some
    &&& 0 <= j1 < edges.len() && edges[j1] is Some
    &&& 0 <= j2 < edges.len() && edges[j2] is Some
    &&& j1 != j && j2 != j
    &&& {
        let e = edges[j]->0;
        let e1 = edges[j1]->0;
        let e2 = edges[j2]->0;
        &&& e.inner.kind != DepKind::unknown_spec()
        &&& e1.source == e.source
        &&& e1.target == e2.source
        &&& e2.target == e.target
        &&& e1.target != e.source
        &&& e1.target != e.target
        &&& kind_dominates(path_kind(e1.inner.kind, e2.inner.kind), e.inner.kind)
    }
}

/// The direct edge `j` is subsumed by some two-hop detour.
pub open spec fn two_hop_dominated(edges: Seq<Option<crate::dep_info::DepInfo>>, j: int) -> bool {
    exists|j1: int, j2: int| two_hop_witness(edges, j, j1, j2)
}

/// The edge arena after the first `j` slots have been considered in order:
/// a slot is cleared when the edges still alive at its turn hold a
/// dominating detour for it.
pub open spec fn dedup_upto(
    edges: Seq<Option<crate::dep_info::DepInfo>>,
    j: int,
) -> Seq<Option<crate::dep_info::DepInfo>>
    decreases j,
{
    if j <= 0 {
        edges
    } else {
        let prev = dedup_upto(edges, j - 1);
        if two_hop_dominated(prev, j - 1) {
            prev.update(j - 1, None)
        } else {
            prev
        }
    }
}

proof fn lemma_dedup_upto_frame(edges: Seq<Option<crate::dep_info::DepInfo>>, j: int)
    requires
        0 <= j <= edges.len(),
    ensures
        dedup_upto(edges, j).len() == edges.len(),
        forall|k: int|
            0 <= k < edges.len() ==> #[trigger] dedup_upto(edges, j)[k] == edges[k] || dedup_upto(
                edges,
                j,
            )[k] is None,
        forall|k: int| j <= k < edges.len() ==> #[trigger] dedup_upto(edges, j)[k] == edges[k],
    decreases j,
{
    if j > 0 {
        lemma_dedup_upto_frame(edges, j - 1);
    }
}

/// A walk of a graph is a walk of any graph with the same nodes and at
/// least its edges.
proof fn lemma_reaches_mono(gs: DepGraph, gl: DepGraph, a: int, b: int)
    requires
        gs.nodes@ == gl.nodes@,
        forall|j: int|
            #[trigger] gs.edge_present(j) ==> gl.edge_present(j) && gl.edge_at(j) == gs.edge_at(j),
        reaches(gs, a, b),
    ensures
        reaches(gl, a, b),
{
    let p = choose|p: Seq<int>| #[trigger] is_path(gs, p) && p[0] == a && p[p.len() - 1] == b;
    assert forall|k: int| 0 <= k < p.len() - 1 implies step(gl, #[trigger] p[k], p[k + 1]) by {
        assert(step(gs, p[k], p[k + 1]));
        let j = choose|j: int|
            #[trigger] gs.edge_present(j) && gs.edge_at(j).source == p[k] && gs.edge_at(j).target
                == p[k + 1];
        assert(gl.edge_present(j) && gl.edge_at(j).source == p[k] && gl.edge_at(j).target == p[k
            + 1]);
    }
    assert(is_path(gl, p));
}

/// Removing one edge that has a live two-hop detour does not disconnect
/// anything: every walk that used the removed edge reroutes through the
/// detour's midpoint.
proof fn lemma_path_reroute(g1: DepGraph, g2: DepGraph, jr: int, c: int, p: Seq<int>)
    requires
        g1.wf(),
        g2.nodes@ == g1.nodes@,
        0 <= jr < g1.edges@.len(),
        g1.edges@[jr] is Some,
        g2.edges@ == g1.edges@.update(jr, None),
        step(g2, g1.edge_at(jr).source as int, c),
        step(g2, c, g1.edge_at(jr).target as int),
        is_path(g1, p),
    ensures
        reaches(g2, p[0], p[p.len() - 1]),
    decreases p.len(),
{
    let src = g1.edge_at(jr).source as int;
    let tgt = g1.edge_at(jr).target as int;
    if p.len() == 1 {
        lemma_reaches_self(g2, p[0]);
    } else {
        let q = p.subrange(1, p.len() as int);
        assert forall|k: int| 0 <= k < q.len() - 1 implies step(g1, #[trigger] q[k], q[k + 1]) by {
            assert(q[k] == p[k + 1] && q[k + 1] == p[k + 2]);
            assert(step(g1, p[k + 1], p[k + 2]));
        }
        assert(is_path(g1, q));
        lemma_path_reroute(g1, g2, jr, c, q);
        assert(reaches(g2, p[1], p[p.len() - 1]));
        assert(step(g1, p[0], p[1]));
        let j = choose|j: int|
            #[trigger] g1.edge_present(j) && g1.edge_at(j).source == p[0] && g1.edge_at(j).target
                == p[1];
        if j != jr {
            assert(g2.edge_present(j) && g2.edge_at(j).source == p[0] && g2.edge_at(j).target
                == p[1]);
            assert(step(g2, p[0], p[1]));
            lemma_reaches_prepend(g2, p[0], p[1], p[p.len() - 1]);
        } else {
            assert(p[0] == src && p[1] == tgt);
            // The midpoint is present: it is the source of a surviving edge.
            let jc = choose|jc: int|
                #[trigger] g2.edge_present(jc) && g2.edge_at(jc).source == c && g2.edge_at(
                    jc,
                ).target == tgt;
            assert(g1.edge_present(jc));
            assert(g1.node_present(c));
            lemma_reaches_prepend(g2, c, tgt, p[p.len() - 1]);
            lemma_reaches_prepend(g2, src, c, p[p.len() - 1]);
        }
    }
}

/// Transitive-edge deduplication: consider every edge slot in order and
/// clear it when the edges still alive hold a two-hop detour through a
/// third node whose combined kind subsumes the direct edge's kind — the
/// local one-hop shortcut check; longer detours are left alone. Each
/// decision sees the removals already made, so a detour that has lost a
/// hop no longer justifies anything. Nodes are untouched, and
/// reachability between every pair of nodes is preserved.
#[verifier::rlimit(100)]
pub fn dedup_transitive_deps(graph: &mut DepGraph)
    requires
        old(graph).wf(),
    ensures
        final(graph).wf(),
        final(graph).nodes@ == old(graph).nodes@,
        final(graph).edges@ == dedup_upto(old(graph).edges@, old(graph).edges@.len() as int),
        forall|j: int|
            final(graph).edge_present(j) ==> final(graph).edge_at(j) == old(graph).edge_at(j),
        forall|a: int, b: int|
            #![trigger reaches(*final(graph), a, b)]
            #![trigger reaches(*old(graph), a, b)]
            reaches(*final(graph), a, b) <==> reaches(*old(graph), a, b),
{
    let ghost g0 = *graph;
    let m = graph.edges.len();
    let mut j: usize = 0;
    while j < m
        invariant
            m == graph.edges@.len(),
            g0.edges@.len() == m,
            j <= m,
            g0.wf(),
            graph.wf(),
            graph.nodes@ == g0.nodes@,
            graph.edges@ == dedup_upto(g0.edges@, j as int),
            forall|j2: int|
                0 <= j2 < m && (#[trigger] graph.edges@[j2]) is Some ==> graph.edges@[j2]
                    == g0.edges@[j2],
            forall|a: int, b: int|
                #![trigger reaches(*graph, a, b)]
                #![trigger reaches(g0, a, b)]
                reaches(*graph, a, b) <==> reaches(g0, a, b),
        decreases m - j,
    {
        let ghost gcur = *graph;
        let mut found = false;
        if graph.edges[j].is_some() {
            let mut j1: usize = 0;
            while j1 < m
                invariant
                    m == graph.edges@.len(),
                    *graph == gcur,
                    j < m,
                    j1 <= m,
                    found ==> two_hop_dominated(gcur.edges@, j as int),
                    !found ==> forall|a: int, b: int|
                        0 <= a < j1 && 0 <= b < m ==> !two_hop_witness(gcur.edges@, j as int, a, b),
                decreases m - j1,
            {
                let mut j2: usize = 0;
                while j2 < m
                    invariant
                        m == graph.edges@.len(),
                        *graph == gcur,
                        j < m,
                        j1 < m,
                        j2 <= m,
                        found ==> two_hop_dominated(gcur.edges@, j as int),
                        !found ==> forall|a: int, b: int|
                            0 <= a < j1 && 0 <= b < m ==> !two_hop_witness(
                                gcur.edges@,
                                j as int,
                                a,
                                b,
                            ),
                        !found ==> forall|b: int|
                            0 <= b < j2 ==> !two_hop_witness(gcur.edges@, j as int, j1 as int, b),
                    decreases m - j2,
                {
                    if j1 != j && j2 != j {
                        let hit = match (&graph.edges[j], &graph.edges[j1], &graph.edges[j2]) {
                            (Some(e), Some(e1), Some(e2)) => {
                                if e1.source == e.source && e1.target == e2.source && e2.target
                                    == e.target && e1.target != e.source && e1.target != e.target
                                    && !(e.inner.kind == DepKind::unknown()) {
                                    let pk = DepKind {
                                        host: e1.inner.kind.host.bitand(e2.inner.kind.host),
                                        target: e1.inner.kind.target.bitand(e2.inner.kind.target),
                                    };
                                    e.inner.kind.host.bitor(pk.host) == pk.host
                                        && e.inner.kind.target.bitor(pk.target) == pk.target
                                } else {
                                    false
                                }
                            },
                            _ => false,
                        };
                        if hit {
                            proof {
                                assert(two_hop_witness(gcur.edges@, j as int, j1 as int, j2 as int));
                            }
                            found = true;
                        } else {
                            proof {
                                assert(!two_hop_witness(gcur.edges@, j as int, j1 as int, j2 as int));
                            }
                        }
                    } else {
                        proof {
                            assert(!two_hop_witness(gcur.edges@, j as int, j1 as int, j2 as int));
                        }
                    }
                    j2 = j2 + 1;
                }
                j1 = j1 + 1;
            }
        }
        if found {
            let ghost pre = *graph;
            graph.edges.set(j, None);
            proof {
                let (a1, a2) = choose|a1: int, a2: int|
                    two_hop_witness(pre.edges@, j as int, a1, a2);
                let e = pre.edge_at(j as int);
                let c = pre.edges@[a1]->0.target as int;
                assert(graph.edge_present(a1) && graph.edge_at(a1) == pre.edge_at(a1));
                assert(graph.edge_present(a2) && graph.edge_at(a2) == pre.edge_at(a2));
                assert(step(*graph, e.source as int, c));
                assert(step(*graph, c, e.target as int));
                assert(graph.edges@ =~= dedup_upto(g0.edges@, j + 1));
                assert forall|j2: int|
                    0 <= j2 < m && (#[trigger] graph.edges@[j2]) is Some implies graph.edges@[j2]
                    == g0.edges@[j2] by {
                    assert(pre.edges@[j2] is Some);
                }
                assert forall|j2: int| #[trigger] graph.edge_present(j2) implies {
                    let e2 = graph.edge_at(j2);
                    e2.id == j2 && graph.node_present(e2.source as int) && graph.node_present(
                        e2.target as int,
                    )
                } by {
                    assert(pre.edge_present(j2));
                    assert(graph.edge_at(j2) == pre.edge_at(j2));
                }
                assert forall|j2: int, k2: int|
                    graph.edge_present(j2) && graph.edge_present(k2) && j2 != k2 && (
                #[trigger] graph.edge_at(j2)).source == (#[trigger] graph.edge_at(k2)).source
                    && graph.edge_at(j2).target == graph.edge_at(k2).target implies graph.edge_at(
                    j2,
                ).edge_no != graph.edge_at(k2).edge_no by {
                    assert(pre.edge_present(j2) && pre.edge_present(k2));
                    assert(graph.edge_at(j2) == pre.edge_at(j2));
                    assert(graph.edge_at(k2) == pre.edge_at(k2));
                }
                assert forall|a: int, b: int|
                    #![trigger reaches(*graph, a, b)]
                    #![trigger reaches(g0, a, b)]
                    reaches(*graph, a, b) <==> reaches(g0, a, b) by {
                    if reaches(*graph, a, b) {
                        lemma_reaches_mono(*graph, pre, a, b);
                        assert(reaches(g0, a, b));
                    }
                    if reaches(g0, a, b) {
                        assert(reaches(pre, a, b));
                        let p = choose|p: Seq<int>|
                            #[trigger] is_path(pre, p) && p[0] == a && p[p.len() - 1] == b;
                        lemma_path_reroute(pre, *graph, j as int, c, p);
                    }
                }
            }
        } else {
            proof {
                assert forall|a1: int, a2: int| true implies !two_hop_witness(
                    gcur.edges@,
                    j as int,
                    a1,
                    a2,
                ) by {
                    if 0 <= a1 < m && 0 <= a2 < m {
                        assert(!two_hop_witness(gcur.edges@, j as int, a1, a2));
                    }
                }
                assert(!two_hop_dominated(gcur.edges@, j as int));
                assert(graph.edges@ =~= dedup_upto(g0.edges@, j + 1));
            }
        }
        j = j + 1;
    }
    proof {
        lemma_dedup_upto_frame(g0.edges@, m as int);
        assert forall|j2: int| #[trigger] graph.edge_present(j2) implies graph.edge_at(j2)
            == g0.edge_at(j2) by {
            assert(graph.edges@[j2] == g0.edges@[j2]);
        }
    }
}

} // verus!
