//! Multi-root breadth-first construction of the dependency graph from the
//! resolved graph, applying the configuration's inclusion, exclusion and
//! depth filters.

use vstd::prelude::*;
use std::collections::VecDeque;
use vstd::set_lib::{lemma_len_subset, lemma_int_range, set_int_range};
use crate::cli::Config;
use crate::dep_info::{DepInfo, DepInfoInner, DepKind, RawDepKind};
use crate::graph::{DepGraph, DepMap};
use crate::package::Package;
use crate::resolve::{
    name_in, contains_name, lookup_optional, optional_of, DepKindInfo, ResolvedGraph,
    ResolvedPackage,
};

verus! {

/// Whether a package of this name passes the exclusion and restriction
/// lists.
pub open spec fn name_filter_ok(cfg: Config, name: Seq<char>) -> bool {
    &&& !name_in(cfg.exclude@, name)
    &&& (cfg.only@.len() == 0 || name_in(cfg.only@, name))
}

/// Whether a workspace member is seeded as a root of the breadth-first
/// search.
pub open spec fn root_ok(cfg: Config, pkg: ResolvedPackage) -> bool {
    &&& pkg.is_ws_member
    &&& (cfg.root@.len() == 0 || name_in(cfg.root@, pkg.name@))
    &&& name_filter_ok(cfg, pkg.name@)
    &&& (cfg.build_deps || !pkg.has_proc_macro_target)
}

/// What every node of a built graph satisfies, root or not: it passes the
/// name filters, workspace-only mode admits it, and a proc-macro is only
/// present when build dependencies are enabled.
pub open spec fn admissible(cfg: Config, pkg: ResolvedPackage) -> bool {
    &&& name_filter_ok(cfg, pkg.name@)
    &&& (cfg.workspace_only ==> pkg.is_ws_member)
    &&& (cfg.build_deps || !pkg.has_proc_macro_target)
}

/// Whether one (kind, target) annotation of a resolver edge is gated off by
/// the configuration.
pub open spec fn skip_dep_spec(cfg: Config, info: DepKindInfo) -> bool {
    ||| !cfg.build_deps && info.kind == RawDepKind::Build
    ||| !cfg.dev_deps && info.kind == RawDepKind::Development
    ||| !cfg.target_deps && info.target is Some
}

/// Whether a resolver edge annotation is gated off by the configuration's
/// edge-category gates.
pub fn skip_dep(config: &Config, info: &DepKindInfo) -> (r: bool)
    ensures
        r == skip_dep_spec(*config, *info),
{
    (!config.build_deps && matches!(info.kind, RawDepKind::Build)) || (!config.dev_deps
        && matches!(info.kind, RawDepKind::Development)) || (!config.target_deps
        && info.target.is_some())
}

/// The graph and the lookup map agree slot by slot.
pub open spec fn nodes_aligned(g: DepGraph, dm: DepMap) -> bool {
    &&& dm.entries@.len() == g.nodes@.len()
    &&& forall|i: int|
        0 <= i < g.nodes@.len() ==> ((#[trigger] dm.entries@[i]) is Some <==> g.nodes@[i] is Some)
}

/// Node `i` was created from the resolved package its map entry names,
/// with its fields copied from it, and that package is admissible.
pub open spec fn node_sound(
    resolved: ResolvedGraph,
    cfg: Config,
    g: DepGraph,
    dm: DepMap,
    i: int,
) -> bool {
    let p = dm.entries@[i]->0 as int;
    &&& 0 <= p < resolved.packages@.len()
    &&& g.node_at(i) == Package::new_spec(
        resolved.packages@[p],
        resolved.packages@[p].is_ws_member,
    )
    &&& admissible(cfg, resolved.packages@[p])
}

/// The per-annotation information an edge carries, as derived from one
/// (kind, target) annotation of a resolver edge.
pub open spec fn pair_edge_fields(
    e: DepInfo,
    parent_declared: Seq<crate::resolve::DeclaredDep>,
    dep_name: Seq<char>,
    child_proc_macro: bool,
    kinfo: DepKindInfo,
) -> bool {
    &&& e.inner.kind == DepKind::new_spec(kinfo.kind, child_proc_macro)
    &&& e.inner.is_target_dep == (kinfo.target is Some)
    &&& e.inner.is_optional == optional_of(parent_declared, dep_name, kinfo)
    &&& e.inner.is_optional_direct == e.inner.is_optional
    &&& !e.inner.visited
    &&& e.inner.is_dev == (kinfo.kind == RawDepKind::Development)
    &&& e.inner.is_build == (kinfo.kind == RawDepKind::Build)
    &&& e.inner.is_normal == (kinfo.kind == RawDepKind::Normal)
}

/// Edge `j` realizes annotation `k` of resolver edge `d` of package `p`.
pub open spec fn edge_witness(
    resolved: ResolvedGraph,
    cfg: Config,
    g: DepGraph,
    dm: DepMap,
    j: int,
    p: int,
    d: int,
    k: int,
) -> bool {
    let e = g.edge_at(j);
    let pkgs = resolved.packages@;
    &&& (e.source as int) < dm.entries@.len()
    &&& (e.target as int) < dm.entries@.len()
    &&& 0 <= p < pkgs.len()
    &&& dm.entries@[e.source as int] == Some(p as usize)
    &&& 0 <= d < pkgs[p].deps@.len()
    &&& 0 <= k < pkgs[p].deps@[d].dep_kinds@.len()
    &&& {
        let dep = pkgs[p].deps@[d];
        let child = pkgs[dep.pkg as int];
        let kinfo = dep.dep_kinds@[k];
        &&& dep.pkg < pkgs.len()
        &&& dm.entries@[e.target as int] == Some(dep.pkg)
        &&& name_filter_ok(cfg, child.name@)
        &&& !skip_dep_spec(cfg, kinfo)
        &&& pair_edge_fields(e, pkgs[p].declared@, child.name@, child.has_proc_macro_target, kinfo)
    }
}

/// Every edge of a built graph realizes some annotation of some resolver
/// edge between the packages its endpoints were created from.
#[verifier::opaque]
pub open spec fn edge_sound(
    resolved: ResolvedGraph,
    cfg: Config,
    g: DepGraph,
    dm: DepMap,
    j: int,
) -> bool {
    exists|p: int, d: int, k: int| edge_witness(resolved, cfg, g, dm, j, p, d, k)
}

/// Node `i` was discovered: it is a seeded root, or some edge points at it.
#[verifier::opaque]
pub open spec fn node_discovered(
    resolved: ResolvedGraph,
    cfg: Config,
    g: DepGraph,
    dm: DepMap,
    i: int,
) -> bool {
    ||| root_ok(cfg, resolved.packages@[dm.entries@[i]->0 as int])
    ||| exists|j: int| #[trigger] g.edge_present(j) && g.edge_at(j).target == i
}

/// A configuration that never blocks node creation: no depth limit, no
/// workspace restriction, and build dependencies (hence proc-macros)
/// enabled.
pub open spec fn full_cfg(cfg: Config) -> bool {
    &&& cfg.depth is None
    &&& !cfg.workspace_only
    &&& cfg.build_deps
}

/// Resolver edge `d` of package `p` survives the name filter and has at
/// least one annotation the gates admit.
pub open spec fn eligible_dep(resolved: ResolvedGraph, cfg: Config, p: int, d: int) -> bool {
    let dep = resolved.packages@[p].deps@[d];
    let child = resolved.packages@[dep.pkg as int];
    &&& name_filter_ok(cfg, child.name@)
    &&& exists|k: int|
        0 <= k < dep.dep_kinds@.len() && !skip_dep_spec(cfg, #[trigger] dep.dep_kinds@[k])
}

/// Annotation `k` of resolver edge `d` of the package node `i` stands for
/// has an edge realizing it from `i` to the child package's node — or, in
/// the one corner the arena admits, a parallel edge at the ordinal bound
/// shows the pair's ordinals ran out.
pub open spec fn annotation_realized(
    resolved: ResolvedGraph,
    cfg: Config,
    g: DepGraph,
    dm: DepMap,
    i: int,
    d: int,
    k: int,
) -> bool {
    let p = dm.entries@[i]->0 as int;
    let dep = resolved.packages@[p].deps@[d];
    let child = resolved.packages@[dep.pkg as int];
    let kinfo = dep.dep_kinds@[k];
    exists|j: int|
        #[trigger] g.edge_present(j) && g.edge_at(j).source == i && dm.entries@[g.edge_at(
            j,
        ).target as int] == Some(dep.pkg) && (pair_edge_fields(
            g.edge_at(j),
            resolved.packages@[p].declared@,
            child.name@,
            child.has_proc_macro_target,
            kinfo,
        ) || g.edge_at(j).edge_no == u32::MAX)
}

/// Under a configuration that never blocks creation, every admitted
/// resolver dependency of every node has a node for its child package and
/// at least one edge from the parent to it, and every admitted (kind,
/// target) annotation has an edge realizing it.
pub open spec fn deps_complete(
    resolved: ResolvedGraph,
    cfg: Config,
    g: DepGraph,
    dm: DepMap,
) -> bool {
    &&& forall|i: int, d: int|
        g.node_present(i) && 0 <= d
            < resolved.packages@[dm.entries@[i]->0 as int].deps@.len() && #[trigger] eligible_dep(
            resolved,
            cfg,
            dm.entries@[i]->0 as int,
            d,
        ) ==> exists|i2: int, j: int|
            #[trigger] g.node_present(i2) && dm.entries@[i2] == Some(
                resolved.packages@[dm.entries@[i]->0 as int].deps@[d].pkg,
            ) && #[trigger] g.edge_present(j) && g.edge_at(j).source == i && g.edge_at(j).target
                == i2
    &&& forall|i: int, d: int, k: int|
        {
            let p = dm.entries@[i]->0 as int;
            g.node_present(i) && 0 <= d < resolved.packages@[p].deps@.len() && 0 <= k
                < resolved.packages@[p].deps@[d].dep_kinds@.len() && name_filter_ok(
                cfg,
                resolved.packages@[resolved.packages@[p].deps@[d].pkg as int].name@,
            ) && !skip_dep_spec(cfg, resolved.packages@[p].deps@[d].dep_kinds@[k])
                ==> #[trigger] annotation_realized(resolved, cfg, g, dm, i, d, k)
        }
}

/// The contract of the graph builder: the graph is well formed and aligned
/// with its lookup map; every node stands for a distinct admissible
/// resolved package with its fields copied faithfully; every workspace
/// member passing the seed filter has a node; every edge realizes a
/// resolver edge annotation that the gates admit; and every node is either
/// a seeded root or the target of some edge.
pub open spec fn built_ok(resolved: ResolvedGraph, cfg: Config, g: DepGraph, dm: DepMap) -> bool {
    &&& g.wf()
    &&& nodes_aligned(g, dm)
    &&& forall|i: int| #[trigger] g.node_present(i) ==> node_sound(resolved, cfg, g, dm, i)
    &&& forall|i: int, i2: int|
        g.node_present(i) && g.node_present(i2) && i != i2 ==> (#[trigger] dm.entries@[i]) != (
        #[trigger] dm.entries@[i2])
    &&& forall|p: int|
        0 <= p < resolved.packages@.len() && root_ok(cfg, #[trigger] resolved.packages@[p])
            ==> exists|i: int| #[trigger] g.node_present(i) && dm.entries@[i] == Some(p as usize)
    &&& forall|j: int| #[trigger] g.edge_present(j) ==> edge_sound(resolved, cfg, g, dm, j)
    &&& forall|i: int| #[trigger] g.node_present(i) ==> node_discovered(resolved, cfg, g, dm, i)
    &&& (full_cfg(cfg) ==> deps_complete(resolved, cfg, g, dm))
}

/// An edge whose source, target and fields are unchanged, under a lookup
/// map extended at the end, stays sound.
proof fn lemma_edge_sound_frame(
    resolved: ResolvedGraph,
    cfg: Config,
    g1: DepGraph,
    dm1: DepMap,
    g2: DepGraph,
    dm2: DepMap,
    j: int,
)
    requires
        edge_sound(resolved, cfg, g1, dm1, j),
        g2.edge_at(j) == g1.edge_at(j),
        dm2.entries@.len() >= dm1.entries@.len(),
        forall|i: int| 0 <= i < dm1.entries@.len() ==> dm2.entries@[i] == dm1.entries@[i],
    ensures
        edge_sound(resolved, cfg, g2, dm2, j),
{
    reveal(edge_sound);
    let (p, d, k) = choose|p: int, d: int, k: int| edge_witness(resolved, cfg, g1, dm1, j, p, d, k);
    assert(edge_witness(resolved, cfg, g2, dm2, j, p, d, k));
}

/// Annotation `k` of resolver edge `d` of package `p` has an edge
/// realizing it between the two packages' nodes, or a parallel edge at the
/// ordinal bound.
spec fn ann_done(
    resolved: ResolvedGraph,
    cfg: Config,
    g: DepGraph,
    ni: Seq<Option<usize>>,
    p: int,
    d: int,
    k: int,
) -> bool {
    let dep = resolved.packages@[p].deps@[d];
    let child = resolved.packages@[dep.pkg as int];
    let kinfo = dep.dep_kinds@[k];
    exists|j: int|
        #[trigger] g.edge_present(j) && g.edge_at(j).source == ni[p]->0 && g.edge_at(j).target
            == ni[dep.pkg as int]->0 && (pair_edge_fields(
            g.edge_at(j),
            resolved.packages@[p].declared@,
            child.name@,
            child.has_proc_macro_target,
            kinfo,
        ) || g.edge_at(j).edge_no == u32::MAX)
}

/// The child of eligible resolver edge `d` of package `p` has a node, an
/// edge runs from `p`'s node to it, and every admitted annotation of the
/// edge is realized.
#[verifier::opaque]
spec fn dep_edge_done(
    resolved: ResolvedGraph,
    cfg: Config,
    g: DepGraph,
    ni: Seq<Option<usize>>,
    p: int,
    d: int,
) -> bool {
    let dep = resolved.packages@[p].deps@[d];
    eligible_dep(resolved, cfg, p, d) ==> {
        &&& ni[dep.pkg as int] is Some
        &&& exists|j: int|
            #[trigger] g.edge_present(j) && g.edge_at(j).source == ni[p]->0 && g.edge_at(j).target
                == ni[dep.pkg as int]->0
        &&& forall|k: int|
            0 <= k < dep.dep_kinds@.len() && !skip_dep_spec(cfg, dep.dep_kinds@[k])
                ==> #[trigger] ann_done(resolved, cfg, g, ni, p, d, k)
    }
}

/// Every resolver edge of package `p` has been handled.
#[verifier::opaque]
spec fn node_deps_done(
    resolved: ResolvedGraph,
    cfg: Config,
    g: DepGraph,
    ni: Seq<Option<usize>>,
    p: int,
) -> bool {
    forall|d: int|
        0 <= d < resolved.packages@[p].deps@.len() ==> #[trigger] dep_edge_done(
            resolved,
            cfg,
            g,
            ni,
            p,
            d,
        )
}

/// A handled resolver edge stays handled when edges are appended and the
/// node index only gains entries.
proof fn lemma_dep_edge_done_frame(
    resolved: ResolvedGraph,
    cfg: Config,
    g1: DepGraph,
    g2: DepGraph,
    ni1: Seq<Option<usize>>,
    ni2: Seq<Option<usize>>,
    p: int,
    d: int,
)
    requires
        resolved.wf(),
        dep_edge_done(resolved, cfg, g1, ni1, p, d),
        g2.edges@.len() >= g1.edges@.len(),
        forall|j: int| 0 <= j < g1.edges@.len() ==> g2.edges@[j] == g1.edges@[j],
        ni1.len() == resolved.packages@.len(),
        ni2.len() == ni1.len(),
        forall|q: int| 0 <= q < ni1.len() && (#[trigger] ni1[q]) is Some ==> ni2[q] == ni1[q],
        0 <= p < ni1.len(),
        ni1[p] is Some,
        0 <= d < resolved.packages@[p].deps@.len(),
    ensures
        dep_edge_done(resolved, cfg, g2, ni2, p, d),
{
    reveal(dep_edge_done);
    if eligible_dep(resolved, cfg, p, d) {
        let dep = resolved.packages@[p].deps@[d];
        assert(ni1[dep.pkg as int] is Some);
        let j = choose|j: int|
            #[trigger] g1.edge_present(j) && g1.edge_at(j).source == ni1[p]->0 && g1.edge_at(
                j,
            ).target == ni1[dep.pkg as int]->0;
        assert(g2.edge_present(j) && g2.edge_at(j).source == ni2[p]->0 && g2.edge_at(j).target
            == ni2[dep.pkg as int]->0);
        let child = resolved.packages@[dep.pkg as int];
        assert forall|k: int|
            0 <= k < dep.dep_kinds@.len() && !skip_dep_spec(cfg, dep.dep_kinds@[k]) implies
            #[trigger] ann_done(resolved, cfg, g2, ni2, p, d, k) by {
            assert(ann_done(resolved, cfg, g1, ni1, p, d, k));
            let ja = choose|ja: int|
                #[trigger] g1.edge_present(ja) && g1.edge_at(ja).source == ni1[p]->0
                    && g1.edge_at(ja).target == ni1[dep.pkg as int]->0 && (pair_edge_fields(
                    g1.edge_at(ja),
                    resolved.packages@[p].declared@,
                    child.name@,
                    child.has_proc_macro_target,
                    dep.dep_kinds@[k],
                ) || g1.edge_at(ja).edge_no == u32::MAX);
            assert(g2.edge_present(ja) && g2.edge_at(ja) == g1.edge_at(ja));
        }
    }
}

/// Handled resolver edges stay handled when edges are appended and the
/// node index only gains entries.
proof fn lemma_deps_done_frame(
    resolved: ResolvedGraph,
    cfg: Config,
    g1: DepGraph,
    g2: DepGraph,
    ni1: Seq<Option<usize>>,
    ni2: Seq<Option<usize>>,
    p: int,
)
    requires
        resolved.wf(),
        node_deps_done(resolved, cfg, g1, ni1, p),
        g2.edges@.len() >= g1.edges@.len(),
        forall|j: int| 0 <= j < g1.edges@.len() ==> g2.edges@[j] == g1.edges@[j],
        ni1.len() == resolved.packages@.len(),
        ni2.len() == ni1.len(),
        forall|q: int| 0 <= q < ni1.len() && (#[trigger] ni1[q]) is Some ==> ni2[q] == ni1[q],
        0 <= p < ni1.len(),
        ni1[p] is Some,
    ensures
        node_deps_done(resolved, cfg, g2, ni2, p),
{
    reveal(node_deps_done);
    assert forall|d: int|
        0 <= d < resolved.packages@[p].deps@.len() implies #[trigger] dep_edge_done(
        resolved,
        cfg,
        g2,
        ni2,
        p,
        d,
    ) by {
        assert(dep_edge_done(resolved, cfg, g1, ni1, p, d));
        lemma_dep_edge_done_frame(resolved, cfg, g1, g2, ni1, ni2, p, d);
    }
}

/// The invariant the construction loops maintain, relating the graph under
/// construction, the lookup map, and the package-to-node index.
spec fn build_inv(
    resolved: ResolvedGraph,
    cfg: Config,
    g: DepGraph,
    dm: DepMap,
    ni: Seq<Option<usize>>,
) -> bool {
    &&& g.wf()
    &&& nodes_aligned(g, dm)
    &&& ni.len() == resolved.packages@.len()
    &&& forall|p: int|
        0 <= p < ni.len() && (#[trigger] ni[p]) is Some ==> {
            let i = ni[p]->0 as int;
            &&& g.node_present(i)
            &&& dm.entries@[i] == Some(p as usize)
        }
    &&& forall|i: int|
        #[trigger] g.node_present(i) ==> {
            let p = dm.entries@[i]->0 as int;
            &&& 0 <= p < ni.len()
            &&& ni[p] == Some(i as usize)
            &&& node_sound(resolved, cfg, g, dm, i)
        }
    &&& forall|j: int| #[trigger] g.edge_present(j) ==> edge_sound(resolved, cfg, g, dm, j)
}

/// Every present node was discovered.
spec fn discovered_all(resolved: ResolvedGraph, cfg: Config, g: DepGraph, dm: DepMap) -> bool {
    forall|i: int| #[trigger] g.node_present(i) ==> node_discovered(resolved, cfg, g, dm, i)
}

/// Every present node but possibly `skip` was discovered.
spec fn discovered_except(
    resolved: ResolvedGraph,
    cfg: Config,
    g: DepGraph,
    dm: DepMap,
    skip: int,
) -> bool {
    forall|i: int|
        #[trigger] g.node_present(i) && i != skip ==> node_discovered(resolved, cfg, g, dm, i)
}

/// The ghost set of package indices that already have a node.
spec fn indexed_set(ni: Seq<Option<usize>>) -> Set<int> {
    Set::new(|p: int| 0 <= p < ni.len() && ni[p] is Some)
}

proof fn lemma_indexed_bound(ni: Seq<Option<usize>>)
    ensures
        indexed_set(ni).finite(),
        indexed_set(ni).len() <= ni.len(),
{
    lemma_int_range(0, ni.len() as int);
    assert(indexed_set(ni).subset_of(set_int_range(0, ni.len() as int)));
    lemma_len_subset(indexed_set(ni), set_int_range(0, ni.len() as int));
}

/// Build the dependency graph: seed a node for every workspace member the
/// configuration admits as a root, then walk the resolver edges breadth
/// first, creating nodes for admissible dependencies within the depth
/// limit and an edge for every annotation the gates admit. Returns the
/// graph together with the node-to-source-package lookup.
#[verifier::rlimit(100)]
pub fn get_dep_graph(resolved: &ResolvedGraph, config: &Config) -> (r: (DepGraph, DepMap))
    requires
        resolved.wf(),
    ensures
        built_ok(*resolved, *config, r.0, r.1),
{
    let n = resolved.packages.len();
    let mut graph = DepGraph::new();
    let mut depmap = DepMap { entries: Vec::new() };
    // Map from package index to graph node id.
    let mut node_indices: Vec<Option<usize>> = Vec::new();
    let mut i: usize = 0;
    while i < n
        invariant
            i <= n,
            node_indices@.len() == i,
            forall|p: int| 0 <= p < i ==> (#[trigger] node_indices@[p]) is None,
        decreases n - i,
    {
        node_indices.push(None);
        i = i + 1;
    }

    // Queue of packages whose dependencies still need to be added.
    let mut queue: VecDeque<(usize, u32)> = VecDeque::new();

    // Seed the roots.
    let mut p: usize = 0;
    while p < n
        invariant
            p <= n,
            n == resolved.packages@.len(),
            resolved.wf(),
            build_inv(*resolved, *config, graph, depmap, node_indices@),
            discovered_all(*resolved, *config, graph, depmap),
            forall|q: int|
                0 <= q < queue@.len() ==> ((#[trigger] queue@[q]).0 as int) < n
                    && node_indices@[queue@[q].0 as int] is Some,
            forall|p2: int|
                0 <= p2 < p && root_ok(*config, #[trigger] resolved.packages@[p2])
                    ==> node_indices@[p2] is Some,
            forall|p2: int| p <= p2 < n ==> (#[trigger] node_indices@[p2]) is None,
            forall|p2: int|
                0 <= p2 < n && (#[trigger] node_indices@[p2]) is Some ==> exists|q: int|
                    0 <= q < queue@.len() && (#[trigger] queue@[q]).0 == p2,
            graph.edges@.len() == 0,
        decreases n - p,
    {
        let pkg = &resolved.packages[p];
        let seeded = pkg.is_ws_member && (config.root.is_empty() || contains_name(
            &config.root,
            &pkg.name,
        )) && !contains_name(&config.exclude, &pkg.name) && (config.only.is_empty()
            || contains_name(&config.only, &pkg.name)) && (config.build_deps
            || !crate::util::is_proc_macro(pkg));
        if seeded {
            let node_weight = Package::new(pkg, true);
            let ghost old_graph = graph;
            let ghost old_dm = depmap;
            let ghost old_ni = node_indices@;
            let idx = graph.add_node(node_weight);
            depmap.entries.push(Some(p));
            node_indices.set(p, Some(idx));
            let ghost old_q = queue@;
            queue.push_back((p, 0));
            proof {
                reveal(node_discovered);
                assert(root_ok(*config, resolved.packages@[p as int]));
                assert(old_ni[p as int] is None);
                assert forall|p2: int|
                    0 <= p2 < n && (#[trigger] node_indices@[p2]) is Some implies exists|q: int|
                        0 <= q < queue@.len() && (#[trigger] queue@[q]).0 == p2 by {
                    if p2 == p as int {
                        assert((queue@[queue@.len() - 1]).0 == p2);
                    } else {
                        assert(old_ni[p2] is Some);
                        let q = choose|q: int| 0 <= q < old_q.len() && (#[trigger] old_q[q]).0 == p2;
                        assert((queue@[q]).0 == p2);
                    }
                }
                assert forall|i2: int| #[trigger] graph.node_present(i2) implies {
                    let p2 = depmap.entries@[i2]->0 as int;
                    &&& 0 <= p2 < node_indices@.len()
                    &&& node_indices@[p2] == Some(i2 as usize)
                    &&& node_sound(*resolved, *config, graph, depmap, i2)
                    &&& node_discovered(*resolved, *config, graph, depmap, i2)
                } by {
                    if i2 < old_graph.nodes@.len() {
                        assert(old_graph.node_present(i2));
                        assert(node_sound(*resolved, *config, old_graph, old_dm, i2));
                        assert(node_discovered(*resolved, *config, old_graph, old_dm, i2));
                        assert(root_ok(
                            *config,
                            resolved.packages@[old_dm.entries@[i2]->0 as int],
                        ));
                    } else {
                        assert(i2 == idx);
                    }
                }
            }
        }
        p = p + 1;
    }

    // Add the dependencies of everything queued, breadth first.
    let ghost mut indexed: Set<int> = indexed_set(node_indices@);
    let ghost mut popped: Set<int> = Set::empty();
    loop
        invariant
            n == resolved.packages@.len(),
            resolved.wf(),
            build_inv(*resolved, *config, graph, depmap, node_indices@),
            discovered_all(*resolved, *config, graph, depmap),
            forall|q: int|
                0 <= q < queue@.len() ==> ((#[trigger] queue@[q]).0 as int) < n
                    && node_indices@[queue@[q].0 as int] is Some,
            forall|p2: int|
                0 <= p2 < n && root_ok(*config, #[trigger] resolved.packages@[p2])
                    ==> node_indices@[p2] is Some,
            full_cfg(*config) ==> forall|p2: int|
                0 <= p2 < n && (#[trigger] node_indices@[p2]) is Some ==> popped.contains(p2)
                    || exists|q: int| 0 <= q < queue@.len() && (#[trigger] queue@[q]).0 == p2,
            full_cfg(*config) ==> forall|p2: int|
                #[trigger] popped.contains(p2) ==> 0 <= p2 < n && node_indices@[p2] is Some
                    && node_deps_done(*resolved, *config, graph, node_indices@, p2),
            indexed == indexed_set(node_indices@),
        ensures
            queue@.len() == 0,
        decreases n - indexed.len(), queue@.len(),
    {
        proof {
            lemma_indexed_bound(node_indices@);
        }
        let ghost qpre = queue@;
        let front = queue.pop_front();
        let (pkg_id, depth) = match front {
            Some(x) => x,
            None => { break ; },
        };
        proof {
            assert(qpre[0] == (pkg_id, depth));
            assert(((qpre[0]).0 as int) < n && node_indices@[(qpre[0]).0 as int] is Some);
            if full_cfg(*config) {
                assert forall|p2: int|
                    0 <= p2 < n && (#[trigger] node_indices@[p2]) is Some implies popped.contains(
                    p2,
                ) || (exists|q: int| 0 <= q < queue@.len() && (#[trigger] queue@[q]).0 == p2) || p2
                    == pkg_id as int by {
                    if !popped.contains(p2) {
                        let q = choose|q: int| 0 <= q < qpre.len() && (#[trigger] qpre[q]).0 == p2;
                        if q == 0 {
                            assert(p2 == pkg_id as int);
                        } else {
                            assert((queue@[q - 1]).0 == p2);
                        }
                    }
                }
            }
        }
        let parent_idx = node_indices[pkg_id].unwrap();
        let pkg = &resolved.packages[pkg_id];
        let ghost q0 = queue@.len();
        let ghost indexed0 = indexed;
        proof {
            lemma_indexed_bound(node_indices@);
        }
        let mut di: usize = 0;
        while di < pkg.deps.len()
            invariant
                n == resolved.packages@.len(),
                resolved.wf(),
                pkg == &resolved.packages@[pkg_id as int],
                pkg_id < n,
                build_inv(*resolved, *config, graph, depmap, node_indices@),
                discovered_all(*resolved, *config, graph, depmap),
                forall|q: int|
                    0 <= q < queue@.len() ==> ((#[trigger] queue@[q]).0 as int) < n
                    && node_indices@[queue@[q].0 as int] is Some,
                forall|p2: int|
                    0 <= p2 < n && root_ok(*config, #[trigger] resolved.packages@[p2])
                        ==> node_indices@[p2] is Some,
                full_cfg(*config) ==> forall|p2: int|
                    0 <= p2 < n && (#[trigger] node_indices@[p2]) is Some ==> popped.contains(p2)
                        || (exists|q: int| 0 <= q < queue@.len() && (#[trigger] queue@[q]).0 == p2)
                        || p2 == pkg_id as int,
                full_cfg(*config) ==> forall|p2: int|
                    #[trigger] popped.contains(p2) ==> 0 <= p2 < n && node_indices@[p2] is Some
                        && node_deps_done(*resolved, *config, graph, node_indices@, p2),
                full_cfg(*config) ==> forall|d2: int|
                    0 <= d2 < di ==> #[trigger] dep_edge_done(
                        *resolved,
                        *config,
                        graph,
                        node_indices@,
                        pkg_id as int,
                        d2,
                    ),
                indexed == indexed_set(node_indices@),
                indexed0.subset_of(indexed),
                indexed0.finite(),
                indexed.finite(),
                indexed.len() <= n,
                indexed0.len() <= indexed.len(),
                indexed == indexed0 || indexed0.len() < indexed.len(),
                queue@.len() + indexed0.len() <= q0 + indexed.len(),
                graph.node_present(parent_idx as int),
                depmap.entries@[parent_idx as int] == Some(pkg_id),
                node_indices@[pkg_id as int] == Some(parent_idx),
            decreases pkg.deps@.len() - di,
        {
            let dep = &pkg.deps[di];
            let dep_pkg_idx = dep.pkg;
            let dep_pkg = &resolved.packages[dep_pkg_idx];

            // Skip when the name filters refuse the dependency or every
            // annotation of the edge is gated off.
            let name_ok = !contains_name(&config.exclude, &dep_pkg.name) && (config.only.is_empty()
                || contains_name(&config.only, &dep_pkg.name));
            let mut all_skipped = true;
            let mut ki: usize = 0;
            while ki < dep.dep_kinds.len()
                invariant
                    ki <= dep.dep_kinds@.len(),
                    dep == &resolved.packages@[pkg_id as int].deps@[di as int],
                    all_skipped == forall|k2: int|
                        0 <= k2 < ki ==> skip_dep_spec(*config, #[trigger] dep.dep_kinds@[k2]),
                decreases dep.dep_kinds@.len() - ki,
            {
                if !skip_dep(config, &dep.dep_kinds[ki]) {
                    all_skipped = false;
                }
                ki = ki + 1;
            }
            if !name_ok || all_skipped {
                proof {
                    if full_cfg(*config) {
                        reveal(dep_edge_done);
                        assert(!eligible_dep(*resolved, *config, pkg_id as int, di as int));
                        assert(dep_edge_done(
                            *resolved,
                            *config,
                            graph,
                            node_indices@,
                            pkg_id as int,
                            di as int,
                        ));
                    }
                }
                di = di + 1;
                continue ;
            }

            // Locate or create the dependency's node.
            let existing = node_indices[dep_pkg_idx];
            let ghost created = false;
            let child_idx: usize;
            match existing {
                Some(idx) => {
                    child_idx = idx;
                },
                None => {
                    let is_workspace_member = dep_pkg.is_ws_member;
                    // In workspace-only mode, non-members get no node.
                    if config.workspace_only && !is_workspace_member {
                        di = di + 1;
                        continue ;
                    }
                    // No new nodes past the depth limit.
                    let at_limit = match config.depth {
                        Some(max_depth) => depth >= max_depth,
                        None => false,
                    };
                    if at_limit {
                        di = di + 1;
                        continue ;
                    }
                    let dep_pkg_weight = Package::new(dep_pkg, is_workspace_member);
                    // Proc-macros are host-side build machinery even when the
                    // resolver does not classify their edges as build edges.
                    if !config.build_deps && dep_pkg_weight.is_proc_macro {
                        di = di + 1;
                        continue ;
                    }
                    let ghost old_graph = graph;
                    let ghost old_dm = depmap;
                    let ghost old_ni = node_indices@;
                    let ghost old_indexed = indexed;
                    let idx = graph.add_node(dep_pkg_weight);
                    depmap.entries.push(Some(dep_pkg_idx));
                    node_indices.set(dep_pkg_idx, Some(idx));
                    let child_depth = if depth == u32::MAX {
                        depth
                    } else {
                        depth + 1
                    };
                    let ghost old_queue = queue@;
                    queue.push_back((dep_pkg_idx, child_depth));
                    proof {
                        reveal(node_discovered);
                        assert(old_ni[dep_pkg_idx as int] is None);
                        assert(!old_indexed.contains(dep_pkg_idx as int));
                        vstd::set::axiom_set_insert_len(old_indexed, dep_pkg_idx as int);
                        indexed = indexed.insert(dep_pkg_idx as int);
                        assert(indexed =~= indexed_set(node_indices@));
                        lemma_indexed_bound(node_indices@);
                        assert(indexed.len() == old_indexed.len() + 1);
                        assert(admissible(*config, resolved.packages@[dep_pkg_idx as int]));
                        assert forall|i2: int| #[trigger] graph.node_present(i2) implies {
                            let p2 = depmap.entries@[i2]->0 as int;
                            &&& 0 <= p2 < node_indices@.len()
                            &&& node_indices@[p2] == Some(i2 as usize)
                            &&& node_sound(*resolved, *config, graph, depmap, i2)
                        } by {
                            if i2 < old_graph.nodes@.len() {
                                assert(old_graph.node_present(i2));
                                assert(node_sound(*resolved, *config, old_graph, old_dm, i2));
                            } else {
                                assert(i2 == idx);
                            }
                        }
                        assert forall|j: int| #[trigger] graph.edge_present(j) implies edge_sound(
                            *resolved,
                            *config,
                            graph,
                            depmap,
                            j,
                        ) by {
                            assert(old_graph.edge_present(j));
                            lemma_edge_sound_frame(
                                *resolved,
                                *config,
                                old_graph,
                                old_dm,
                                graph,
                                depmap,
                                j,
                            );
                        }
                        assert forall|i2: int|
                            #[trigger] graph.node_present(i2) && i2 != idx implies node_discovered(
                            *resolved,
                            *config,
                            graph,
                            depmap,
                            i2,
                        ) by {
                            assert(old_graph.node_present(i2));
                            if !root_ok(
                                *config,
                                resolved.packages@[old_dm.entries@[i2]->0 as int],
                            ) {
                                let j = choose|j: int|
                                    #[trigger] old_graph.edge_present(j) && old_graph.edge_at(
                                        j,
                                    ).target == i2;
                                assert(graph.edge_present(j) && graph.edge_at(j).target == i2);
                            }
                        }
                        // A fresh node is the target of no edge yet.
                        assert forall|j: int| #[trigger] graph.edge_present(j) implies graph.edge_at(
                            j,
                        ).target != idx by {
                            assert(old_graph.edge_present(j));
                            assert(old_graph.node_present(old_graph.edge_at(j).target as int));
                        }
                        if full_cfg(*config) {
                            assert forall|p2: int| #[trigger] popped.contains(p2) implies 0 <= p2
                                < n && node_indices@[p2] is Some && node_deps_done(
                                *resolved,
                                *config,
                                graph,
                                node_indices@,
                                p2,
                            ) by {
                                assert(node_deps_done(*resolved, *config, old_graph, old_ni, p2));
                                reveal(node_deps_done);
                                reveal(dep_edge_done);
                                lemma_deps_done_frame(
                                    *resolved,
                                    *config,
                                    old_graph,
                                    graph,
                                    old_ni,
                                    node_indices@,
                                    p2,
                                );
                            }
                            assert forall|d2: int| 0 <= d2 < di implies #[trigger] dep_edge_done(
                                *resolved,
                                *config,
                                graph,
                                node_indices@,
                                pkg_id as int,
                                d2,
                            ) by {
                                assert(dep_edge_done(
                                    *resolved,
                                    *config,
                                    old_graph,
                                    old_ni,
                                    pkg_id as int,
                                    d2,
                                ));
                                lemma_dep_edge_done_frame(
                                    *resolved,
                                    *config,
                                    old_graph,
                                    graph,
                                    old_ni,
                                    node_indices@,
                                    pkg_id as int,
                                    d2,
                                );
                            }
                            assert forall|p2: int|
                                0 <= p2 < n && (#[trigger] node_indices@[p2]) is Some implies
                                popped.contains(p2) || (exists|q: int|
                                0 <= q < queue@.len() && (#[trigger] queue@[q]).0 == p2) || p2
                                == pkg_id as int by {
                                if p2 == dep_pkg_idx as int {
                                    assert((queue@[queue@.len() - 1]).0 == p2);
                                } else if !popped.contains(p2) && p2 != pkg_id as int {
                                    assert(old_ni[p2] is Some);
                                    let q = choose|q: int|
                                        0 <= q < old_queue.len() && (#[trigger] old_queue[q]).0
                                            == p2;
                                    assert((queue@[q]).0 == p2);
                                }
                            }
                        }
                    }
                    child_idx = idx;
                    proof {
                        created = true;
                    }
                },
            };

            let child_is_proc_macro = dep_pkg.has_proc_macro_target;

            // One edge per annotation the gates admit.
            let mut ki2: usize = 0;
            while ki2 < dep.dep_kinds.len()
                invariant
                    n == resolved.packages@.len(),
                    resolved.wf(),
                    ki2 <= dep.dep_kinds@.len(),
                    pkg == &resolved.packages@[pkg_id as int],
                    dep == &resolved.packages@[pkg_id as int].deps@[di as int],
                    dep_pkg == &resolved.packages@[dep_pkg_idx as int],
                    dep_pkg_idx == dep.pkg,
                    pkg_id < n,
                    di < pkg.deps@.len(),
                    build_inv(*resolved, *config, graph, depmap, node_indices@),
                    discovered_except(*resolved, *config, graph, depmap, child_idx as int),
                    node_discovered(*resolved, *config, graph, depmap, child_idx as int) || ((
                    forall|k2: int|
                        0 <= k2 < ki2 ==> skip_dep_spec(*config, #[trigger] dep.dep_kinds@[k2]))
                        && (forall|j: int|
                        #[trigger] graph.edge_present(j) ==> graph.edge_at(j).target != child_idx)),
                    exists|k2: int|
                        0 <= k2 < dep.dep_kinds@.len() && !skip_dep_spec(
                            *config,
                            #[trigger] dep.dep_kinds@[k2],
                        ),
                    forall|q: int|
                        0 <= q < queue@.len() ==> ((#[trigger] queue@[q]).0 as int) < n
                            && node_indices@[queue@[q].0 as int] is Some,
                    forall|p2: int|
                        0 <= p2 < n && root_ok(*config, #[trigger] resolved.packages@[p2])
                            ==> node_indices@[p2] is Some,
                    full_cfg(*config) ==> forall|p2: int|
                        0 <= p2 < n && (#[trigger] node_indices@[p2]) is Some ==> popped.contains(
                            p2,
                        ) || (exists|q: int|
                            0 <= q < queue@.len() && (#[trigger] queue@[q]).0 == p2) || p2
                            == pkg_id as int,
                    full_cfg(*config) ==> forall|p2: int|
                        #[trigger] popped.contains(p2) ==> 0 <= p2 < n && node_indices@[p2] is Some
                            && node_deps_done(*resolved, *config, graph, node_indices@, p2),
                    full_cfg(*config) ==> forall|d2: int|
                        0 <= d2 < di ==> #[trigger] dep_edge_done(
                            *resolved,
                            *config,
                            graph,
                            node_indices@,
                            pkg_id as int,
                            d2,
                        ),
                    full_cfg(*config) ==> forall|k2: int|
                        0 <= k2 < ki2 && !skip_dep_spec(*config, dep.dep_kinds@[k2])
                            ==> #[trigger] ann_done(
                            *resolved,
                            *config,
                            graph,
                            node_indices@,
                            pkg_id as int,
                            di as int,
                            k2,
                        ),
                    node_indices@[pkg_id as int] == Some(parent_idx),
                    node_indices@[dep_pkg_idx as int] == Some(child_idx),
                    (exists|j: int|
                        #[trigger] graph.edge_present(j) && graph.edge_at(j).source == parent_idx
                            && graph.edge_at(j).target == child_idx) || (forall|k2: int|
                        0 <= k2 < ki2 ==> skip_dep_spec(*config, #[trigger] dep.dep_kinds@[k2])),
                    indexed == indexed_set(node_indices@),
                    indexed0.subset_of(indexed),
                    indexed0.finite(),
                    indexed.finite(),
                    indexed.len() <= n,
                    indexed0.len() <= indexed.len(),
                    indexed == indexed0 || indexed0.len() < indexed.len(),
                    queue@.len() + indexed0.len() <= q0 + indexed.len(),
                    graph.node_present(parent_idx as int),
                    depmap.entries@[parent_idx as int] == Some(pkg_id),
                    graph.node_present(child_idx as int),
                    depmap.entries@[child_idx as int] == Some(dep_pkg_idx),
                    name_filter_ok(*config, resolved.packages@[dep_pkg_idx as int].name@),
                    child_is_proc_macro == resolved.packages@[dep_pkg_idx as int].has_proc_macro_target,
                decreases dep.dep_kinds@.len() - ki2,
            {
                let info = &dep.dep_kinds[ki2];
                let is_optional = lookup_optional(&pkg.declared, &dep_pkg.name, info);

                // The edge as a whole is admitted, but single annotations
                // may still be gated off.
                if skip_dep(config, info) {
                    ki2 = ki2 + 1;
                    continue ;
                }

                let inner = DepInfoInner {
                    kind: DepKind::new(info.kind, child_is_proc_macro),
                    is_target_dep: info.target.is_some(),
                    is_optional,
                    is_optional_direct: is_optional,
                    visited: false,
                    is_dev: matches!(info.kind, RawDepKind::Development),
                    is_build: matches!(info.kind, RawDepKind::Build),
                    is_normal: matches!(info.kind, RawDepKind::Normal),
                };
                let ghost old_graph = graph;
                let ghost old_dm = depmap;
                let added = graph.add_edge(parent_idx, child_idx, inner);
                proof {
                    reveal(node_discovered);
                    if added is Some {
                        let j_new = added->0 as int;
                        assert(graph.edge_at(j_new).inner == inner);
                        assert(edge_witness(
                            *resolved,
                            *config,
                            graph,
                            depmap,
                            j_new,
                            pkg_id as int,
                            di as int,
                            ki2 as int,
                        ));
                        assert(edge_sound(*resolved, *config, graph, depmap, j_new)) by {
                            reveal(edge_sound);
                        }
                        assert forall|j: int| #[trigger] graph.edge_present(j) implies edge_sound(
                            *resolved,
                            *config,
                            graph,
                            depmap,
                            j,
                        ) by {
                            if j < old_graph.edges@.len() {
                                assert(old_graph.edge_present(j));
                                lemma_edge_sound_frame(
                                    *resolved,
                                    *config,
                                    old_graph,
                                    old_dm,
                                    graph,
                                    depmap,
                                    j,
                                );
                            } else {
                                assert(j == j_new);
                            }
                        }
                        assert forall|i2: int| #[trigger] graph.node_present(i2) implies {
                            let p2 = depmap.entries@[i2]->0 as int;
                            &&& 0 <= p2 < node_indices@.len()
                            &&& node_indices@[p2] == Some(i2 as usize)
                            &&& node_sound(*resolved, *config, graph, depmap, i2)
                        } by {
                            assert(old_graph.node_present(i2));
                            assert(node_sound(*resolved, *config, old_graph, old_dm, i2));
                            assert(graph.node_at(i2) == old_graph.node_at(i2));
                        }
                        assert(graph.edge_present(j_new) && graph.edge_at(j_new).target
                            == child_idx);
                        assert(node_discovered(*resolved, *config, graph, depmap, child_idx as int));
                        assert forall|i2: int|
                            #[trigger] graph.node_present(i2) && i2 != child_idx implies
                            node_discovered(*resolved, *config, graph, depmap, i2) by {
                            assert(old_graph.node_present(i2));
                            if !root_ok(
                                *config,
                                resolved.packages@[old_dm.entries@[i2]->0 as int],
                            ) {
                                let j = choose|j: int|
                                    #[trigger] old_graph.edge_present(j) && old_graph.edge_at(
                                        j,
                                    ).target == i2;
                                assert(graph.edge_present(j) && graph.edge_at(j).target == i2);
                            }
                        }
                        assert(graph.edge_present(j_new) && graph.edge_at(j_new).source
                            == parent_idx && graph.edge_at(j_new).target == child_idx);
                        if full_cfg(*config) {
                            assert(ann_done(
                                *resolved,
                                *config,
                                graph,
                                node_indices@,
                                pkg_id as int,
                                di as int,
                                ki2 as int,
                            ));
                            assert forall|k2: int|
                                0 <= k2 < ki2 && !skip_dep_spec(*config, dep.dep_kinds@[k2])
                                    implies #[trigger] ann_done(
                                *resolved,
                                *config,
                                graph,
                                node_indices@,
                                pkg_id as int,
                                di as int,
                                k2,
                            ) by {
                                assert(ann_done(
                                    *resolved,
                                    *config,
                                    old_graph,
                                    node_indices@,
                                    pkg_id as int,
                                    di as int,
                                    k2,
                                ));
                                let ja = choose|ja: int|
                                    #[trigger] old_graph.edge_present(ja) && old_graph.edge_at(
                                        ja,
                                    ).source == node_indices@[pkg_id as int]->0
                                        && old_graph.edge_at(ja).target
                                        == node_indices@[dep_pkg_idx as int]->0 && (
                                    pair_edge_fields(
                                        old_graph.edge_at(ja),
                                        resolved.packages@[pkg_id as int].declared@,
                                        resolved.packages@[dep_pkg_idx as int].name@,
                                        resolved.packages@[dep_pkg_idx as int].has_proc_macro_target,
                                        dep.dep_kinds@[k2],
                                    ) || old_graph.edge_at(ja).edge_no == u32::MAX);
                                assert(graph.edge_present(ja) && graph.edge_at(ja)
                                    == old_graph.edge_at(ja));
                            }
                            assert forall|p2: int| #[trigger] popped.contains(p2) implies 0 <= p2
                                < n && node_indices@[p2] is Some && node_deps_done(
                                *resolved,
                                *config,
                                graph,
                                node_indices@,
                                p2,
                            ) by {
                                assert(node_deps_done(
                                    *resolved,
                                    *config,
                                    old_graph,
                                    node_indices@,
                                    p2,
                                ));
                                reveal(node_deps_done);
                                reveal(dep_edge_done);
                                lemma_deps_done_frame(
                                    *resolved,
                                    *config,
                                    old_graph,
                                    graph,
                                    node_indices@,
                                    node_indices@,
                                    p2,
                                );
                            }
                            assert forall|d2: int| 0 <= d2 < di implies #[trigger] dep_edge_done(
                                *resolved,
                                *config,
                                graph,
                                node_indices@,
                                pkg_id as int,
                                d2,
                            ) by {
                                assert(dep_edge_done(
                                    *resolved,
                                    *config,
                                    old_graph,
                                    node_indices@,
                                    pkg_id as int,
                                    d2,
                                ));
                                lemma_dep_edge_done_frame(
                                    *resolved,
                                    *config,
                                    old_graph,
                                    graph,
                                    node_indices@,
                                    node_indices@,
                                    pkg_id as int,
                                    d2,
                                );
                            }
                        }
                    } else {
                        // Failure would name a parallel edge at the ordinal
                        // bound; with no edge at the child yet there is none,
                        // so the discovery disjunct already held and persists.
                        let j = choose|j: int|
                            #[trigger] old_graph.edge_present(j) && old_graph.edge_at(j).source
                                == parent_idx && old_graph.edge_at(j).target == child_idx
                                && old_graph.edge_at(j).edge_no == u32::MAX;
                        assert(graph.edge_present(j) && graph.edge_at(j).source == parent_idx
                            && graph.edge_at(j).target == child_idx);
                        assert(node_discovered(*resolved, *config, graph, depmap, child_idx as int));
                        if full_cfg(*config) {
                            assert(graph.edge_at(j).edge_no == u32::MAX);
                            assert(ann_done(
                                *resolved,
                                *config,
                                graph,
                                node_indices@,
                                pkg_id as int,
                                di as int,
                                ki2 as int,
                            ));
                        }
                    }
                }
                ki2 = ki2 + 1;
            }
            proof {
                reveal(node_discovered);
                let k2 = choose|k2: int|
                    0 <= k2 < dep.dep_kinds@.len() && !skip_dep_spec(
                        *config,
                        #[trigger] dep.dep_kinds@[k2],
                    );
                assert(node_discovered(*resolved, *config, graph, depmap, child_idx as int));
                if full_cfg(*config) {
                    reveal(dep_edge_done);
                    assert(exists|j: int|
                        #[trigger] graph.edge_present(j) && graph.edge_at(j).source == parent_idx
                            && graph.edge_at(j).target == child_idx);
                    assert(dep_edge_done(
                        *resolved,
                        *config,
                        graph,
                        node_indices@,
                        pkg_id as int,
                        di as int,
                    ));
                }
                assert forall|i2: int| #[trigger] graph.node_present(i2) implies node_discovered(
                    *resolved,
                    *config,
                    graph,
                    depmap,
                    i2,
                ) by {
                    if i2 != child_idx {
                        assert(discovered_except(
                            *resolved,
                            *config,
                            graph,
                            depmap,
                            child_idx as int,
                        ));
                    }
                }
            }
            di = di + 1;
        }
        proof {
            if full_cfg(*config) {
                reveal(node_deps_done);
                assert(node_deps_done(*resolved, *config, graph, node_indices@, pkg_id as int));
            }
            popped = popped.insert(pkg_id as int);
        }
    }
    proof {
        assert forall|i2: int, i3: int|
            graph.node_present(i2) && graph.node_present(i3) && i2 != i3 implies (
        #[trigger] depmap.entries@[i2]) != (#[trigger] depmap.entries@[i3]) by {
            if depmap.entries@[i2] == depmap.entries@[i3] {
                vstd::std_specs::vec::axiom_spec_len(&graph.nodes);
                assert(i2 as usize as int == i2);
                assert(i3 as usize as int == i3);
                let p2 = depmap.entries@[i2]->0 as int;
                assert(node_indices@[p2] == Some(i2 as usize));
                assert(node_indices@[p2] == Some(i3 as usize));
            }
        }
        assert forall|p2: int|
            0 <= p2 < resolved.packages@.len() && root_ok(
                *config,
                #[trigger] resolved.packages@[p2],
            ) implies exists|i2: int|
            #[trigger] graph.node_present(i2) && depmap.entries@[i2] == Some(p2 as usize) by {
            let i2 = node_indices@[p2]->0 as int;
            assert(graph.node_present(i2) && depmap.entries@[i2] == Some(p2 as usize));
        }
        if full_cfg(*config) {
            assert forall|i2: int, d: int|
                graph.node_present(i2) && 0 <= d
                    < resolved.packages@[depmap.entries@[i2]->0 as int].deps@.len()
                    && #[trigger] eligible_dep(
                    *resolved,
                    *config,
                    depmap.entries@[i2]->0 as int,
                    d,
                ) implies exists|i3: int, j: int|
                #[trigger] graph.node_present(i3) && depmap.entries@[i3] == Some(
                    resolved.packages@[depmap.entries@[i2]->0 as int].deps@[d].pkg,
                ) && #[trigger] graph.edge_present(j) && graph.edge_at(j).source == i2
                    && graph.edge_at(j).target == i3 by {
                vstd::std_specs::vec::axiom_spec_len(&graph.nodes);
                reveal(node_deps_done);
                reveal(dep_edge_done);
                let p2 = depmap.entries@[i2]->0 as int;
                assert(node_indices@[p2] == Some(i2 as usize));
                assert(popped.contains(p2));
                assert(node_deps_done(*resolved, *config, graph, node_indices@, p2));
                assert(dep_edge_done(*resolved, *config, graph, node_indices@, p2, d));
                let dp = resolved.packages@[p2].deps@[d];
                let i3 = node_indices@[dp.pkg as int]->0 as int;
                assert(graph.node_present(i3) && depmap.entries@[i3] == Some(dp.pkg));
                let j = choose|j: int|
                    #[trigger] graph.edge_present(j) && graph.edge_at(j).source
                        == node_indices@[p2]->0 && graph.edge_at(j).target
                        == node_indices@[dp.pkg as int]->0;
                assert(graph.edge_present(j) && graph.edge_at(j).source == i2 && graph.edge_at(
                    j,
                ).target == i3);
            }
            assert forall|i2: int, d: int, k: int|
                {
                    let p2 = depmap.entries@[i2]->0 as int;
                    graph.node_present(i2) && 0 <= d < resolved.packages@[p2].deps@.len() && 0 <= k
                        < resolved.packages@[p2].deps@[d].dep_kinds@.len() && name_filter_ok(
                        *config,
                        resolved.packages@[resolved.packages@[p2].deps@[d].pkg as int].name@,
                    ) && !skip_dep_spec(*config, resolved.packages@[p2].deps@[d].dep_kinds@[k])
                } implies #[trigger] annotation_realized(
                *resolved,
                *config,
                graph,
                depmap,
                i2,
                d,
                k,
            ) by {
                reveal(node_deps_done);
                reveal(dep_edge_done);
                vstd::std_specs::vec::axiom_spec_len(&graph.nodes);
                let p2 = depmap.entries@[i2]->0 as int;
                assert(node_indices@[p2] == Some(i2 as usize));
                assert(popped.contains(p2));
                assert(node_deps_done(*resolved, *config, graph, node_indices@, p2));
                assert(dep_edge_done(*resolved, *config, graph, node_indices@, p2, d));
                let dep = resolved.packages@[p2].deps@[d];
                assert(eligible_dep(*resolved, *config, p2, d));
                assert(ann_done(*resolved, *config, graph, node_indices@, p2, d, k));
                let child = resolved.packages@[dep.pkg as int];
                let ja = choose|ja: int|
                    #[trigger] graph.edge_present(ja) && graph.edge_at(ja).source
                        == node_indices@[p2]->0 && graph.edge_at(ja).target
                        == node_indices@[dep.pkg as int]->0 && (pair_edge_fields(
                        graph.edge_at(ja),
                        resolved.packages@[p2].declared@,
                        child.name@,
                        child.has_proc_macro_target,
                        dep.dep_kinds@[k],
                    ) || graph.edge_at(ja).edge_no == u32::MAX);
                assert(node_indices@[dep.pkg as int] is Some);
                let ct = node_indices@[dep.pkg as int]->0 as int;
                assert(graph.node_present(ct) && depmap.entries@[ct] == Some(dep.pkg));
                assert(graph.edge_present(ja) && graph.edge_at(ja).source == i2
                    && depmap.entries@[graph.edge_at(ja).target as int] == Some(dep.pkg));
            }
            assert(deps_complete(*resolved, *config, graph, depmap));
        }
    }
    (graph, depmap)
}

/// Any edge whose target node is a proc-macro has its kind's target
/// component forced to `Never`, regardless of the annotation the resolver
/// reported for the edge.
pub proof fn lemma_proc_macro_edge_target_never(
    resolved: ResolvedGraph,
    cfg: Config,
    g: DepGraph,
    dm: DepMap,
    j: int,
)
    requires
        built_ok(resolved, cfg, g, dm),
        g.edge_present(j),
        g.node_at(g.edge_at(j).target as int).is_proc_macro,
    ensures
        g.edge_at(j).inner.kind.target == crate::dep_info::BuildFlag::Never,
{
    reveal(edge_sound);
    let e = g.edge_at(j);
    let (p, d, k) = choose|p: int, d: int, k: int| edge_witness(resolved, cfg, g, dm, j, p, d, k);
    let dep = resolved.packages@[p].deps@[d];
    let child = resolved.packages@[dep.pkg as int];
    assert(g.node_present(e.target as int));
    assert(node_sound(resolved, cfg, g, dm, e.target as int));
    assert(dm.entries@[e.target as int] == Some(dep.pkg));
    assert(g.node_at(e.target as int).is_proc_macro == child.has_proc_macro_target);
    assert(e.inner.kind == DepKind::new_spec(dep.dep_kinds@[k].kind, true));
}

} // verus!
