use depgraph::cli::Config;
use depgraph::dep_info::{BuildFlag, DepInfo, DepKind, RawDepKind};
use depgraph::graph::builder::get_dep_graph;
use depgraph::graph::update::update_dep_info;
use depgraph::graph::DepGraph;
use depgraph::resolve::{DeclaredDep, DepKindInfo, ResolvedDep, ResolvedGraph, ResolvedPackage};

fn pkg(name: &str, ws: bool) -> ResolvedPackage {
    ResolvedPackage {
        name: name.to_string(),
        version: "1.0.0".to_string(),
        is_ws_member: ws,
        has_proc_macro_target: false,
        has_lib_target: true,
        declared: Vec::new(),
        deps: Vec::new(),
    }
}

fn dep(to: usize, kinds: Vec<RawDepKind>) -> ResolvedDep {
    ResolvedDep {
        pkg: to,
        dep_kinds: kinds.into_iter().map(|kind| DepKindInfo { kind, target: None }).collect(),
    }
}

fn declared(name: &str, kind: RawDepKind, optional: bool) -> DeclaredDep {
    DeclaredDep { name: name.to_string(), kind, target: None, optional }
}

fn present_edges(g: &DepGraph) -> Vec<DepInfo> {
    g.edges.iter().filter_map(|e| *e).collect()
}

fn node_names(g: &DepGraph) -> Vec<String> {
    g.nodes.iter().filter_map(|n| n.as_ref().map(|p| p.name.clone())).collect()
}

/// Root `A` depends normally on `B`; `B` has a dev-only dependency on `C`.
fn abc_graph() -> ResolvedGraph {
    let mut a = pkg("A", true);
    a.deps = vec![dep(1, vec![RawDepKind::Normal])];
    a.declared = vec![declared("B", RawDepKind::Normal, false)];
    let mut b = pkg("B", false);
    b.deps = vec![dep(2, vec![RawDepKind::Development])];
    b.declared = vec![declared("C", RawDepKind::Development, false)];
    let c = pkg("C", false);
    ResolvedGraph { packages: vec![a, b, c] }
}

#[test]
fn dev_gate_closed_prunes_dev_only_subtree() {
    let resolved = abc_graph();
    let mut config = Config::default();
    config.dev_deps = false;
    let (graph, _map) = get_dep_graph(&resolved, &config);
    let mut names = node_names(&graph);
    names.sort();
    assert_eq!(names, vec!["A".to_string(), "B".to_string()]);
    let edges = present_edges(&graph);
    assert_eq!(edges.len(), 1);
    assert_eq!(edges[0].inner.kind, DepKind::normal());
}

#[test]
fn dev_gate_open_keeps_dev_edge_and_aggregate() {
    let resolved = abc_graph();
    let config = Config::default();
    let (mut graph, _map) = get_dep_graph(&resolved, &config);
    let mut names = node_names(&graph);
    names.sort();
    assert_eq!(names, vec!["A".to_string(), "B".to_string(), "C".to_string()]);
    update_dep_info(&mut graph);
    let edges = present_edges(&graph);
    assert_eq!(edges.len(), 2);
    let b_id = graph
        .nodes
        .iter()
        .position(|n| n.as_ref().map(|p| p.name == "B").unwrap_or(false))
        .unwrap();
    let c_id = graph
        .nodes
        .iter()
        .position(|n| n.as_ref().map(|p| p.name == "C").unwrap_or(false))
        .unwrap();
    let bc = edges.iter().find(|e| e.source == b_id && e.target == c_id).unwrap();
    assert_eq!(
        bc.inner.kind,
        DepKind { host: BuildFlag::Never, target: BuildFlag::Test }
    );
    let c = graph.nodes[c_id].as_ref().unwrap();
    assert_eq!(c.dep_info.kind, DepKind::dev());
    assert!(c.dep_info.is_dev);
    assert!(!c.dep_info.is_normal);
}

#[test]
fn parallel_edges_get_distinct_ordinals() {
    // `A` depends on `B` twice: once normally, once as a dev-dependency.
    let mut a = pkg("A", true);
    a.deps = vec![dep(1, vec![RawDepKind::Normal, RawDepKind::Development])];
    a.declared = vec![
        declared("B", RawDepKind::Normal, false),
        declared("B", RawDepKind::Development, false),
    ];
    let b = pkg("B", false);
    let resolved = ResolvedGraph { packages: vec![a, b] };
    let (graph, _map) = get_dep_graph(&resolved, &Config::default());
    let mut edges = present_edges(&graph);
    assert_eq!(edges.len(), 2);
    edges.sort_by_key(|e| e.edge_no);
    assert_eq!(edges[0].edge_no, 0);
    assert_eq!(edges[1].edge_no, 1);
    assert_eq!(edges[0].source, edges[1].source);
    assert_eq!(edges[0].target, edges[1].target);
    assert_eq!(edges[0].inner.kind, DepKind::normal());
    assert_eq!(edges[1].inner.kind, DepKind::dev());
}

#[test]
fn depth_limit_is_monotonic_on_a_chain() {
    let mut a = pkg("A", true);
    a.deps = vec![dep(1, vec![RawDepKind::Normal])];
    a.declared = vec![declared("B", RawDepKind::Normal, false)];
    let mut b = pkg("B", false);
    b.deps = vec![dep(2, vec![RawDepKind::Normal])];
    b.declared = vec![declared("C", RawDepKind::Normal, false)];
    let c = pkg("C", false);
    let resolved = ResolvedGraph { packages: vec![a, b, c] };

    let mut sizes = Vec::new();
    for depth in 0..4u32 {
        let mut config = Config::default();
        config.depth = Some(depth);
        let (graph, _map) = get_dep_graph(&resolved, &config);
        sizes.push((graph.node_count(), graph.edge_count()));
    }
    assert_eq!(sizes[0], (1, 0));
    assert_eq!(sizes[1], (2, 1));
    assert_eq!(sizes[2], (3, 2));
    assert_eq!(sizes[3], (3, 2));
    for w in sizes.windows(2) {
        assert!(w[0].0 <= w[1].0);
        assert!(w[0].1 <= w[1].1);
    }
}

#[test]
fn proc_macro_edge_target_forced_never() {
    let mut a = pkg("A", true);
    a.deps = vec![dep(1, vec![RawDepKind::Normal])];
    a.declared = vec![declared("M", RawDepKind::Normal, false)];
    let mut m = pkg("M", false);
    m.has_proc_macro_target = true;
    m.has_lib_target = false;
    let resolved = ResolvedGraph { packages: vec![a, m] };
    let (graph, _map) = get_dep_graph(&resolved, &Config::default());
    let edges = present_edges(&graph);
    assert_eq!(edges.len(), 1);
    // The normal edge to a proc-macro becomes a host-side requirement.
    assert_eq!(edges[0].inner.kind.target, BuildFlag::Never);
    assert_eq!(edges[0].inner.kind.host, BuildFlag::Always);
    // The proc-macro node's own aggregate defaults to the build kind.
    let m_node = graph.nodes.iter().flatten().find(|p| p.name == "M").unwrap();
    assert!(m_node.is_proc_macro);
    assert_eq!(m_node.dep_info.kind, DepKind::build());
}

#[test]
fn build_deps_disabled_drops_proc_macro_roots_and_nodes() {
    let mut a = pkg("A", true);
    a.deps = vec![dep(1, vec![RawDepKind::Normal])];
    a.declared = vec![declared("M", RawDepKind::Normal, false)];
    let mut m = pkg("M", false);
    m.has_proc_macro_target = true;
    let mut root_macro = pkg("R", true);
    root_macro.has_proc_macro_target = true;
    let resolved = ResolvedGraph { packages: vec![a, m, root_macro] };
    let mut config = Config::default();
    config.build_deps = false;
    let (graph, _map) = get_dep_graph(&resolved, &config);
    assert_eq!(node_names(&graph), vec!["A".to_string()]);
}

#[test]
fn workspace_only_skips_external_packages() {
    let resolved = abc_graph();
    let mut config = Config::default();
    config.workspace_only = true;
    let (graph, _map) = get_dep_graph(&resolved, &config);
    assert_eq!(node_names(&graph), vec!["A".to_string()]);
    assert_eq!(graph.edge_count(), 0);
}

#[test]
fn exclude_and_only_filters() {
    let resolved = abc_graph();
    let mut config = Config::default();
    config.exclude = vec!["C".to_string()];
    let (graph, _map) = get_dep_graph(&resolved, &config);
    let mut names = node_names(&graph);
    names.sort();
    assert_eq!(names, vec!["A".to_string(), "B".to_string()]);

    let mut config = Config::default();
    config.only = vec!["A".to_string(), "B".to_string()];
    let (graph, _map) = get_dep_graph(&resolved, &config);
    let mut names = node_names(&graph);
    names.sort();
    assert_eq!(names, vec!["A".to_string(), "B".to_string()]);
}

#[test]
fn explicit_roots_restrict_seeding() {
    let mut a = pkg("A", true);
    a.deps = vec![dep(2, vec![RawDepKind::Normal])];
    a.declared = vec![declared("C", RawDepKind::Normal, false)];
    let b = pkg("B", true);
    let c = pkg("C", false);
    let resolved = ResolvedGraph { packages: vec![a, b, c] };
    let mut config = Config::default();
    config.root = vec!["A".to_string()];
    let (graph, _map) = get_dep_graph(&resolved, &config);
    let mut names = node_names(&graph);
    names.sort();
    assert_eq!(names, vec!["A".to_string(), "C".to_string()]);
}

#[test]
fn optional_flag_looked_up_in_declared_deps() {
    let mut a = pkg("A", true);
    a.deps = vec![dep(1, vec![RawDepKind::Normal])];
    a.declared = vec![declared("B", RawDepKind::Normal, true)];
    let b = pkg("B", false);
    let resolved = ResolvedGraph { packages: vec![a, b] };
    let (graph, _map) = get_dep_graph(&resolved, &Config::default());
    let edges = present_edges(&graph);
    assert!(edges[0].inner.is_optional);
    assert!(edges[0].inner.is_optional_direct);
}

#[test]
fn missing_declared_entry_fails_open_to_non_optional() {
    let mut a = pkg("A", true);
    a.deps = vec![dep(1, vec![RawDepKind::Normal])];
    // No declared entry matches the resolver edge.
    let b = pkg("B", false);
    let resolved = ResolvedGraph { packages: vec![a, b] };
    let (graph, _map) = get_dep_graph(&resolved, &Config::default());
    let edges = present_edges(&graph);
    assert_eq!(edges.len(), 1);
    assert!(!edges[0].inner.is_optional);
}

#[test]
fn target_gate_skips_target_annotations() {
    let mut a = pkg("A", true);
    a.deps = vec![ResolvedDep {
        pkg: 1,
        dep_kinds: vec![DepKindInfo {
            kind: RawDepKind::Normal,
            target: Some("cfg(unix)".to_string()),
        }],
    }];
    let b = pkg("B", false);
    let resolved = ResolvedGraph { packages: vec![a, b] };
    let mut config = Config::default();
    config.target_deps = false;
    let (graph, _map) = get_dep_graph(&resolved, &config);
    assert_eq!(node_names(&graph), vec!["A".to_string()]);
    assert_eq!(graph.edge_count(), 0);

    let (graph, _map) = get_dep_graph(&resolved, &Config::default());
    let edges = present_edges(&graph);
    assert_eq!(edges.len(), 1);
    assert!(edges[0].inner.is_target_dep);
}

#[test]
fn aggregate_joins_all_paths_not_first() {
    // D is reachable both through a dev edge and a build edge; its
    // aggregate is the join of both, not whichever was found first.
    let mut a = pkg("A", true);
    a.deps = vec![dep(1, vec![RawDepKind::Development]), dep(2, vec![RawDepKind::Build])];
    a.declared = vec![
        declared("B", RawDepKind::Development, false),
        declared("C", RawDepKind::Build, false),
    ];
    let mut b = pkg("B", false);
    b.deps = vec![dep(3, vec![RawDepKind::Normal])];
    b.declared = vec![declared("D", RawDepKind::Normal, false)];
    let mut c = pkg("C", false);
    c.deps = vec![dep(3, vec![RawDepKind::Development])];
    c.declared = vec![declared("D", RawDepKind::Development, false)];
    let d = pkg("D", false);
    let resolved = ResolvedGraph { packages: vec![a, b, c, d] };
    let (mut graph, _map) = get_dep_graph(&resolved, &Config::default());
    update_dep_info(&mut graph);
    let d_node = graph.nodes.iter().flatten().find(|p| p.name == "D").unwrap();
    // Incoming kinds NORMAL and DEV join to (Never, Always) = NORMAL.
    assert_eq!(d_node.dep_info.kind, DepKind::normal());
    assert!(d_node.dep_info.is_dev);
    assert!(d_node.dep_info.is_normal);
    assert!(!d_node.dep_info.is_build);
    // Every edge is marked visited by the pass.
    assert!(graph.edges.iter().flatten().all(|e| e.inner.visited));
}

#[test]
fn aggregation_handles_cycles() {
    let mut a = pkg("A", true);
    a.deps = vec![dep(1, vec![RawDepKind::Normal])];
    a.declared = vec![declared("B", RawDepKind::Normal, false)];
    let mut b = pkg("B", false);
    b.deps = vec![dep(2, vec![RawDepKind::Normal])];
    b.declared = vec![declared("C", RawDepKind::Normal, false)];
    let mut c = pkg("C", false);
    // A dev-dependency cycle back to B.
    c.deps = vec![dep(1, vec![RawDepKind::Development])];
    c.declared = vec![declared("B", RawDepKind::Development, false)];
    let resolved = ResolvedGraph { packages: vec![a, b, c] };
    let (mut graph, _map) = get_dep_graph(&resolved, &Config::default());
    update_dep_info(&mut graph);
    let b_node = graph.nodes.iter().flatten().find(|p| p.name == "B").unwrap();
    // B's incoming edges carry NORMAL (from A) and DEV (from C).
    assert_eq!(b_node.dep_info.kind, DepKind::normal());
    assert!(b_node.dep_info.is_dev && b_node.dep_info.is_normal);
}

#[test]
fn depmap_links_nodes_to_source_packages() {
    let resolved = abc_graph();
    let (graph, map) = get_dep_graph(&resolved, &Config::default());
    for (id, slot) in graph.nodes.iter().enumerate() {
        if let Some(node) = slot {
            let p = map.get(id).unwrap();
            assert_eq!(resolved.packages[p].name, node.name);
            assert_eq!(resolved.packages[p].version, node.version);
        }
    }
    assert_eq!(map.get(usize::MAX), None);
}
