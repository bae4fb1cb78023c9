//! Read-only projections of the finished graph, in the shape the serving
//! layer hands out: flat node and edge records keyed by their stable ids.

use vstd::prelude::*;
use crate::dep_info::DepInfo;
use crate::graph::DepGraph;
use crate::package::Package;

verus! {

/// One node of the graph, keyed by its stable id.
#[derive(Debug)]
pub struct DepGraphNode {
    pub id: usize,
    pub data: Package,
}

#[derive(Debug)]
pub struct DepGraphNodes {
    pub values: Vec<DepGraphNode>,
}

/// One edge of the graph, keyed by its stable id.
#[derive(Debug)]
pub struct DepGraphEdge {
    pub id: usize,
    pub source: usize,
    pub target: usize,
    pub data: DepInfo,
}

#[derive(Debug)]
pub struct DepGraphEdges {
    pub values: Vec<DepGraphEdge>,
}

/// The whole graph in one payload.
#[derive(Debug)]
pub struct DepGraphInfo {
    pub nodes: Vec<DepGraphNode>,
    pub edges: Vec<DepGraphEdge>,
}

impl From<DepInfo> for DepGraphEdge {
    /// An edge record carries the edge's own id and endpoints beside the
    /// full per-edge data.
    fn from(value: DepInfo) -> (r: Self) {
        DepGraphEdge { id: value.id, source: value.source, target: value.target, data: value }
    }
}

impl vstd::std_specs::convert::FromSpecImpl<DepInfo> for DepGraphEdge {
    open spec fn obeys_from_spec() -> bool {
        true
    }

    open spec fn from_spec(value: DepInfo) -> Self {
        DepGraphEdge { id: value.id, source: value.source, target: value.target, data: value }
    }
}

/// The node records of the first `j` slots, in slot order.
pub open spec fn nodes_list(nodes: Seq<Option<Package>>, j: int) -> Seq<DepGraphNode>
    decreases j,
{
    if j <= 0 {
        Seq::empty()
    } else if nodes[j - 1] is Some {
        nodes_list(nodes, j - 1).push(DepGraphNode { id: (j - 1) as usize, data: nodes[j - 1]->0 })
    } else {
        nodes_list(nodes, j - 1)
    }
}

/// The edge records of the first `j` slots, in slot order.
pub open spec fn edges_list(edges: Seq<Option<DepInfo>>, j: int) -> Seq<DepGraphEdge>
    decreases j,
{
    if j <= 0 {
        Seq::empty()
    } else if edges[j - 1] is Some {
        edges_list(edges, j - 1).push(
            DepGraphEdge {
                id: edges[j - 1]->0.id,
                source: edges[j - 1]->0.source,
                target: edges[j - 1]->0.target,
                data: edges[j - 1]->0,
            },
        )
    } else {
        edges_list(edges, j - 1)
    }
}

/// Collect every present node, in slot order.
pub fn nodes_dto(graph: &DepGraph) -> (r: DepGraphNodes)
    ensures
        r.values@ == nodes_list(graph.nodes@, graph.nodes@.len() as int),
{
    let mut values: Vec<DepGraphNode> = Vec::new();
    let n = graph.nodes.len();
    let mut i: usize = 0;
    while i < n
        invariant
            n == graph.nodes@.len(),
            i <= n,
            values@ == nodes_list(graph.nodes@, i as int),
        decreases n - i,
    {
        if let Some(pkg) = &graph.nodes[i] {
            values.push(DepGraphNode { id: i, data: pkg.duplicate() });
        }
        i = i + 1;
    }
    DepGraphNodes { values }
}

/// Collect every present edge, in slot order.
pub fn edges_dto(graph: &DepGraph) -> (r: DepGraphEdges)
    ensures
        r.values@ == edges_list(graph.edges@, graph.edges@.len() as int),
{
    let mut values: Vec<DepGraphEdge> = Vec::new();
    let m = graph.edges.len();
    let mut j: usize = 0;
    while j < m
        invariant
            m == graph.edges@.len(),
            j <= m,
            values@ == edges_list(graph.edges@, j as int),
        decreases m - j,
    {
        if let Some(e) = &graph.edges[j] {
            values.push(DepGraphEdge::from(*e));
        }
        j = j + 1;
    }
    DepGraphEdges { values }
}

/// The whole-graph payload: all nodes and all edges, in slot order.
pub fn graph_dto(graph: &DepGraph) -> (r: DepGraphInfo)
    ensures
        r.nodes@ == nodes_list(graph.nodes@, graph.nodes@.len() as int),
        r.edges@ == edges_list(graph.edges@, graph.edges@.len() as int),
{
    let nodes = nodes_dto(graph);
    let edges = edges_dto(graph);
    DepGraphInfo { nodes: nodes.values, edges: edges.values }
}

} // verus!
