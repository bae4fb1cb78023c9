use depgraph::cli::{cli_args, Config};
use depgraph::dep_info::{DepInfoInner, DepKind, RawDepKind};
use depgraph::dto::{edges_dto, graph_dto, nodes_dto, DepGraphEdge};
use depgraph::graph::builder::get_dep_graph;
use depgraph::output::{attr_for_dep_kind, edge_attrs, node_attrs};
use depgraph::package::Package;
use depgraph::resolve::{
    contains_name, lookup_optional, DeclaredDep, DepKindInfo, ResolvedDep, ResolvedGraph,
    ResolvedPackage,
};
use depgraph::util::{is_proc_macro, set_name_stats};

fn pkg(name: &str, ws: bool) -> ResolvedPackage {
    ResolvedPackage {
        name: name.to_string(),
        version: "1.0.0".to_string(),
        is_ws_member: ws,
        has_proc_macro_target: false,
        has_lib_target: true,
        declared: Vec::new(),
        deps: Vec::new(),
    }
}

#[test]
fn cli_args_expands_to_two_tokens() {
    let args = cli_args("--features", "serde");
    assert_eq!(args, vec!["--features".to_string(), "serde".to_string()]);
}

#[test]
fn attr_for_dep_kind_colors() {
    assert_eq!(attr_for_dep_kind(DepKind::normal()), None);
    assert_eq!(attr_for_dep_kind(DepKind::dev()), Some("color = blue"));
    assert_eq!(attr_for_dep_kind(DepKind::build()), Some("color = green3"));
    assert_eq!(attr_for_dep_kind(DepKind::unknown()), Some("color = red"));
    assert_eq!(attr_for_dep_kind(DepKind::dev_and_build()), Some("color = turquoise3"));
    assert_eq!(attr_for_dep_kind(DepKind::normal_and_build()), Some("color = turquoise3"));
}

#[test]
fn edge_attrs_add_target_styling() {
    let mut info = DepInfoInner::default();
    info.kind = DepKind::dev();
    assert_eq!(edge_attrs(&info), vec!["color = blue"]);
    info.is_target_dep = true;
    assert_eq!(edge_attrs(&info), vec!["color = blue", "arrowType = empty", "fillcolor = lightgrey"]);
    info.kind = DepKind::normal();
    assert_eq!(edge_attrs(&info), vec!["arrowType = empty", "fillcolor = lightgrey"]);
}

#[test]
fn node_attrs_distinguish_workspace_members() {
    let ws = Package::new(&pkg("A", true), true);
    assert_eq!(node_attrs(&ws), vec!["shape = box"]);
    let mut ext = Package::new(&pkg("B", false), false);
    ext.dep_info.kind = DepKind::build();
    ext.dep_info.is_target_dep = true;
    assert_eq!(
        node_attrs(&ext),
        vec!["color = green3", "style = filled", "fillcolor = lightgrey"]
    );
}

#[test]
fn package_new_copies_fields() {
    let mut p = pkg("serde", false);
    p.version = "1.0.200".to_string();
    let node = Package::new(&p, false);
    assert_eq!(node.name, "serde");
    assert_eq!(node.version, "1.0.200");
    assert!(!node.is_ws_member);
    assert!(!node.is_proc_macro);
    assert_eq!(node.name_uses, None);
    assert_eq!(node.dep_info.kind, DepKind::normal());
}

#[test]
fn package_new_defaults_proc_macro_kind_to_build() {
    let mut p = pkg("macros", false);
    p.has_proc_macro_target = true;
    assert!(is_proc_macro(&p));
    let node = Package::new(&p, false);
    assert!(node.is_proc_macro);
    assert_eq!(node.dep_info.kind, DepKind::build());
}

#[test]
fn contains_name_and_lookup_optional() {
    let names = vec!["a".to_string(), "b".to_string()];
    assert!(contains_name(&names, &"b".to_string()));
    assert!(!contains_name(&names, &"c".to_string()));

    let declared = vec![
        DeclaredDep {
            name: "x".to_string(),
            kind: RawDepKind::Normal,
            target: None,
            optional: true,
        },
        DeclaredDep {
            name: "x".to_string(),
            kind: RawDepKind::Development,
            target: None,
            optional: false,
        },
    ];
    let normal = DepKindInfo { kind: RawDepKind::Normal, target: None };
    let dev = DepKindInfo { kind: RawDepKind::Development, target: None };
    let targeted = DepKindInfo {
        kind: RawDepKind::Normal,
        target: Some("cfg(windows)".to_string()),
    };
    assert!(lookup_optional(&declared, &"x".to_string(), &normal));
    assert!(!lookup_optional(&declared, &"x".to_string(), &dev));
    // A differing target expression does not match; the lookup fails open.
    assert!(!lookup_optional(&declared, &"x".to_string(), &targeted));
    assert!(!lookup_optional(&declared, &"y".to_string(), &normal));
}

fn shared_name_graph() -> depgraph::graph::DepGraph {
    let mut a = pkg("app", true);
    a.deps = vec![
        ResolvedDep {
            pkg: 1,
            dep_kinds: vec![DepKindInfo { kind: RawDepKind::Normal, target: None }],
        },
        ResolvedDep {
            pkg: 2,
            dep_kinds: vec![DepKindInfo { kind: RawDepKind::Normal, target: None }],
        },
    ];
    let mut lib1 = pkg("lib", false);
    lib1.version = "1.0.0".to_string();
    let mut lib2 = pkg("lib", false);
    lib2.version = "2.0.0".to_string();
    let resolved = ResolvedGraph { packages: vec![a, lib1, lib2] };
    let (graph, _map) = get_dep_graph(&resolved, &Config::default());
    graph
}

#[test]
fn set_name_stats_counts_shared_names() {
    let mut graph = shared_name_graph();
    for node in graph.nodes.iter().flatten() {
        // Before the pass every label carries the version.
        assert!(node.show_version());
    }
    set_name_stats(&mut graph);
    for node in graph.nodes.iter().flatten() {
        if node.name == "lib" {
            assert_eq!(node.name_uses, Some(2));
            assert!(node.show_version());
        } else {
            assert_eq!(node.name_uses, Some(1));
            assert!(!node.show_version());
        }
    }
}

#[test]
fn dto_projections_cover_the_graph() {
    let graph = shared_name_graph();
    let nodes = nodes_dto(&graph);
    assert_eq!(nodes.values.len(), graph.node_count());
    for n in &nodes.values {
        let in_graph = graph.nodes[n.id].as_ref().unwrap();
        assert_eq!(in_graph.name, n.data.name);
        assert_eq!(in_graph.version, n.data.version);
    }
    let edges = edges_dto(&graph);
    assert_eq!(edges.values.len(), graph.edge_count());
    for e in &edges.values {
        let in_graph = graph.edges[e.id].unwrap();
        assert_eq!(in_graph.source, e.source);
        assert_eq!(in_graph.target, e.target);
        assert_eq!(in_graph.edge_no, e.data.edge_no);
    }
    let whole = graph_dto(&graph);
    assert_eq!(whole.nodes.len(), nodes.values.len());
    assert_eq!(whole.edges.len(), edges.values.len());
}

#[test]
fn dep_graph_edge_from_carries_ids() {
    let graph = shared_name_graph();
    let e = graph.edges.iter().flatten().next().unwrap();
    let dto = DepGraphEdge::from(*e);
    assert_eq!(dto.id, e.id);
    assert_eq!(dto.source, e.source);
    assert_eq!(dto.target, e.target);
    assert_eq!(dto.data.edge_no, e.edge_no);
}

#[test]
fn config_default_opens_all_gates() {
    let config = Config::default();
    assert!(config.build_deps && config.dev_deps && config.target_deps);
    assert!(!config.workspace_only && !config.dedup_transitive_deps);
    assert!(config.root.is_empty() && config.only.is_empty() && config.exclude.is_empty());
    assert!(config.focus.is_empty() && config.hide.is_empty());
    assert_eq!(config.depth, None);
}
