use depgraph::cli::Config;
use depgraph::dep_info::{DepInfo, DepKind, RawDepKind};
use depgraph::graph::builder::get_dep_graph;
use depgraph::graph::reduce::{dedup_transitive_deps, remove_deps, remove_irrelevant_deps};
use depgraph::graph::DepGraph;
use depgraph::resolve::{DeclaredDep, DepKindInfo, ResolvedDep, ResolvedGraph, ResolvedPackage};

fn pkg(name: &str, ws: bool) -> ResolvedPackage {
    ResolvedPackage {
        name: name.to_string(),
        version: "1.0.0".to_string(),
        is_ws_member: ws,
        has_proc_macro_target: false,
        has_lib_target: true,
        declared: Vec::new(),
        deps: Vec::new(),
    }
}

fn dep_kind(to: usize, kind: RawDepKind) -> ResolvedDep {
    ResolvedDep { pkg: to, dep_kinds: vec![DepKindInfo { kind, target: None }] }
}

fn declared(name: &str, kind: RawDepKind) -> DeclaredDep {
    DeclaredDep { name: name.to_string(), kind, target: None, optional: false }
}

fn node_names(g: &DepGraph) -> Vec<String> {
    let mut v: Vec<String> =
        g.nodes.iter().filter_map(|n| n.as_ref().map(|p| p.name.clone())).collect();
    v.sort();
    v
}

fn present_edges(g: &DepGraph) -> Vec<DepInfo> {
    g.edges.iter().filter_map(|e| *e).collect()
}

/// A -> B -> C plus a side root D -> E, disjoint from the A chain.
fn two_chains() -> DepGraph {
    let mut a = pkg("A", true);
    a.deps = vec![dep_kind(1, RawDepKind::Normal)];
    a.declared = vec![declared("B", RawDepKind::Normal)];
    let mut b = pkg("B", false);
    b.deps = vec![dep_kind(2, RawDepKind::Normal)];
    b.declared = vec![declared("C", RawDepKind::Normal)];
    let c = pkg("C", false);
    let mut d = pkg("D", true);
    d.deps = vec![dep_kind(4, RawDepKind::Normal)];
    d.declared = vec![declared("E", RawDepKind::Normal)];
    let e = pkg("E", false);
    let resolved = ResolvedGraph { packages: vec![a, b, c, d, e] };
    let (graph, _map) = get_dep_graph(&resolved, &Config::default());
    graph
}

#[test]
fn focus_keeps_ancestors_descendants_and_focus() {
    let mut graph = two_chains();
    remove_irrelevant_deps(&mut graph, &vec!["B".to_string()]);
    // Ancestors of B: A. Descendants of B: C. D and E are gone.
    assert_eq!(node_names(&graph), vec!["A".to_string(), "B".to_string(), "C".to_string()]);
    // Every surviving edge joins surviving nodes.
    for e in present_edges(&graph) {
        assert!(graph.nodes[e.source].is_some());
        assert!(graph.nodes[e.target].is_some());
    }
    assert_eq!(graph.edge_count(), 2);
}

#[test]
fn focus_empty_is_a_no_op() {
    let mut graph = two_chains();
    let nodes_before = graph.node_count();
    let edges_before = graph.edge_count();
    remove_irrelevant_deps(&mut graph, &Vec::new());
    assert_eq!(graph.node_count(), nodes_before);
    assert_eq!(graph.edge_count(), edges_before);
}

#[test]
fn focus_on_leaf_keeps_whole_chain() {
    let mut graph = two_chains();
    remove_irrelevant_deps(&mut graph, &vec!["C".to_string()]);
    assert_eq!(node_names(&graph), vec!["A".to_string(), "B".to_string(), "C".to_string()]);
}

#[test]
fn hide_removes_node_and_incident_edges_only() {
    let mut graph = two_chains();
    remove_deps(&mut graph, &vec!["B".to_string()]);
    // B is gone with both its edges; C stays although it is now
    // unreachable: hide-pruning does not prune further on its own.
    assert_eq!(
        node_names(&graph),
        vec!["A".to_string(), "C".to_string(), "D".to_string(), "E".to_string()]
    );
    let edges = present_edges(&graph);
    assert_eq!(edges.len(), 1);
    let d_id = graph
        .nodes
        .iter()
        .position(|n| n.as_ref().map(|p| p.name == "D").unwrap_or(false))
        .unwrap();
    assert_eq!(edges[0].source, d_id);
}

#[test]
fn hide_keeps_ids_stable() {
    let mut graph = two_chains();
    let c_id_before = graph
        .nodes
        .iter()
        .position(|n| n.as_ref().map(|p| p.name == "C").unwrap_or(false))
        .unwrap();
    remove_deps(&mut graph, &vec!["B".to_string()]);
    assert_eq!(graph.nodes[c_id_before].as_ref().unwrap().name, "C");
}

/// A with a direct edge to B and a two-hop detour A -> C -> B.
fn diamond(direct: RawDepKind, hop1: RawDepKind, hop2: RawDepKind) -> DepGraph {
    let mut a = pkg("A", true);
    a.deps = vec![dep_kind(1, direct), dep_kind(2, hop1)];
    a.declared = vec![declared("B", direct), declared("C", hop1)];
    let mut c = pkg("C", false);
    c.deps = vec![dep_kind(1, hop2)];
    c.declared = vec![declared("B", hop2)];
    let b = pkg("B", false);
    let resolved = ResolvedGraph { packages: vec![a, b, c] };
    let (graph, _map) = get_dep_graph(&resolved, &Config::default());
    graph
}

#[test]
fn dedup_removes_dominated_direct_edge() {
    let mut graph = diamond(RawDepKind::Normal, RawDepKind::Normal, RawDepKind::Normal);
    assert_eq!(graph.edge_count(), 3);
    dedup_transitive_deps(&mut graph);
    // The direct normal edge is implied by the normal two-hop path.
    assert_eq!(graph.edge_count(), 2);
    let a_id = 0;
    let edges = present_edges(&graph);
    assert!(edges.iter().all(|e| !(e.source == a_id && graph.nodes[e.target].as_ref().unwrap().name == "B")));
    assert_eq!(graph.node_count(), 3);
}

#[test]
fn dedup_removes_weaker_direct_edge() {
    // A dev-only direct edge is subsumed by an always-active detour.
    let mut graph = diamond(RawDepKind::Development, RawDepKind::Normal, RawDepKind::Normal);
    dedup_transitive_deps(&mut graph);
    assert_eq!(graph.edge_count(), 2);
}

#[test]
fn dedup_keeps_stronger_direct_edge() {
    // A normal direct edge is not subsumed by a dev-only detour.
    let mut graph = diamond(RawDepKind::Normal, RawDepKind::Development, RawDepKind::Development);
    dedup_transitive_deps(&mut graph);
    assert_eq!(graph.edge_count(), 3);
}

#[test]
fn dedup_keeps_unknown_direct_edge() {
    // The poisoning kind is never subsumed by an ordinary detour.
    let mut graph = diamond(RawDepKind::Unknown, RawDepKind::Normal, RawDepKind::Normal);
    dedup_transitive_deps(&mut graph);
    assert_eq!(graph.edge_count(), 3);
}

#[test]
fn dedup_keeps_edge_when_detour_never_active() {
    // A dev hop followed by a build hop is active in no configuration at
    // all; such a detour subsumes nothing.
    let mut graph = diamond(RawDepKind::Normal, RawDepKind::Development, RawDepKind::Build);
    dedup_transitive_deps(&mut graph);
    assert_eq!(graph.edge_count(), 3);
}

#[test]
fn dedup_preserves_reachability_on_cycles() {
    // A -> B, A -> X, X -> B and B -> X: the direct A -> B edge is removed
    // for its detour through X, but the detour itself then stays, because
    // every decision sees the removals already made.
    let mut a = pkg("A", true);
    a.deps = vec![dep_kind(1, RawDepKind::Normal), dep_kind(2, RawDepKind::Normal)];
    a.declared = vec![declared("B", RawDepKind::Normal), declared("X", RawDepKind::Normal)];
    let mut b = pkg("B", false);
    b.deps = vec![dep_kind(2, RawDepKind::Normal)];
    b.declared = vec![declared("X", RawDepKind::Normal)];
    let mut x = pkg("X", false);
    x.deps = vec![dep_kind(1, RawDepKind::Normal)];
    x.declared = vec![declared("B", RawDepKind::Normal)];
    let resolved = ResolvedGraph { packages: vec![a, b, x] };
    let (mut graph, _map) = get_dep_graph(&resolved, &Config::default());
    assert_eq!(graph.edge_count(), 4);
    dedup_transitive_deps(&mut graph);
    assert_eq!(graph.edge_count(), 3);
    let edges = present_edges(&graph);
    let name_of = |id: usize| graph.nodes[id].as_ref().unwrap().name.clone();
    // The direct A -> B edge is gone...
    assert!(edges.iter().all(|e| !(name_of(e.source) == "A" && name_of(e.target) == "B")));
    // ...but B is still reachable from A through X.
    assert!(edges.iter().any(|e| name_of(e.source) == "A" && name_of(e.target) == "X"));
    assert!(edges.iter().any(|e| name_of(e.source) == "X" && name_of(e.target) == "B"));
}

#[test]
fn passes_compose_in_pipeline_order() {
    let mut graph = two_chains();
    depgraph::graph::update::update_dep_info(&mut graph);
    remove_irrelevant_deps(&mut graph, &vec!["B".to_string()]);
    remove_deps(&mut graph, &vec!["C".to_string()]);
    dedup_transitive_deps(&mut graph);
    depgraph::util::set_name_stats(&mut graph);
    assert_eq!(node_names(&graph), vec!["A".to_string(), "B".to_string()]);
    assert_eq!(graph.edge_count(), 1);
    for node in graph.nodes.iter().flatten() {
        assert_eq!(node.name_uses, Some(1));
    }
    // The direct A -> B dependency kind survived the pipeline.
    let edges = present_edges(&graph);
    assert_eq!(edges[0].inner.kind, DepKind::normal());
}
