//! The graph-object interface: the kinds of node, what is recorded of a node,
//! and the graph itself, which is kept in a graph of the `petgraph` crate.

use crate::text::{lower, lowercase, spells, to_chars};
use petgraph::graph::{DiGraph, Graph, NodeIndex};
use vstd::hash_map::StringHashMap;
use vstd::prelude::*;

verus! {

/// The place of a node in an organisation.
#[derive(Debug, Clone, Copy, PartialEq, Eq, Structural)]
pub enum NodeType {
    Organization,
    LineOfBusiness,
    Site,
    Team,
    User,
    Default,
}

/// The node kind that a lower-case name stands for.
pub open spec fn kind_of(name: Seq<char>) -> NodeType {
    if name == "organization"@ || name == "org"@ {
        NodeType::Organization
    } else if name == "lob"@ || name == "lineofbusiness"@ || name == "line_of_business"@ {
        NodeType::LineOfBusiness
    } else if name == "site"@ {
        NodeType::Site
    } else if name == "team"@ {
        NodeType::Team
    } else if name == "user"@ {
        NodeType::User
    } else {
        NodeType::Default
    }
}

impl NodeType {
    /// The node kind that `s` names, whatever the case of its letters.
    pub fn parse(s: &str) -> (kind: Self)
        ensures
            kind == kind_of(lowercase(s@)),
    {
        let letters = to_chars(s);
        let lowered = lower(letters.as_slice());
        Self::from_lowercase(lowered.as_slice())
    }

    /// The node kind that the lower-case name `name` stands for.
    pub fn from_lowercase(name: &[char]) -> (kind: Self)
        ensures
            kind == kind_of(name@),
    {
        if spells(name, "organization") || spells(name, "org") {
            NodeType::Organization
        } else if spells(name, "lob") || spells(name, "lineofbusiness") || spells(
            name,
            "line_of_business",
        ) {
            NodeType::LineOfBusiness
        } else if spells(name, "site") {
            NodeType::Site
        } else if spells(name, "team") {
            NodeType::Team
        } else if spells(name, "user") {
            NodeType::User
        } else {
            NodeType::Default
        }
    }
}

/// What the graph-object interface records of a node.
#[derive(Debug, Clone)]
pub struct NodeInfo {
    pub name: String,
    pub node_type: NodeType,
    pub level: u32,
}

/// The view of a [`NodeInfo`].
pub struct NodeInfoView {
    pub name: Seq<char>,
    pub node_type: NodeType,
    pub level: u32,
}

impl DeepView for NodeInfo {
    type V = NodeInfoView;

    open spec fn deep_view(&self) -> NodeInfoView {
        NodeInfoView { name: self.name@, node_type: self.node_type, level: self.level }
    }
}

/// The graph type of the `petgraph` crate.
#[verifier::external_type_specification]
#[verifier::external_body]
#[verifier::reject_recursive_types(N)]
#[verifier::reject_recursive_types(E)]
#[verifier::reject_recursive_types(Ty)]
#[verifier::reject_recursive_types(Ix)]
pub struct ExGraph<N, E, Ty, Ix>(Graph<N, E, Ty, Ix>);

/// The marker of the `petgraph` crate for graphs with directed edges.
#[verifier::external_type_specification]
#[verifier::external_body]
pub struct ExDirected(petgraph::Directed);

/// The nodes that a graph holds, in the order in which they were added; the
/// index of a node is its place in this sequence.
pub uninterp spec fn graph_nodes(graph: DiGraph<NodeInfo, ()>) -> Seq<NodeInfoView>;

/// The edges that a graph holds, in the order in which they were added, each
/// as the indices of its source and its target.
pub uninterp spec fn graph_edges(graph: DiGraph<NodeInfo, ()>) -> Seq<(int, int)>;

/// `Graph::new` of `petgraph`: a directed graph without nodes and edges.
#[verifier::external_body]
pub(crate) fn new_graph() -> (graph: DiGraph<NodeInfo, ()>)
    ensures
        graph_nodes(graph) == Seq::<NodeInfoView>::empty(),
        graph_edges(graph) == Seq::<(int, int)>::empty(),
{
    Graph::new()
}

/// `Graph::add_node` of `petgraph`: the node is appended, its index is the
/// number of nodes before, and the edges stay. The call needs room for the
/// index among the 32-bit numbers below `u32::MAX`.
#[verifier::external_body]
pub(crate) fn add_node(graph: &mut DiGraph<NodeInfo, ()>, info: NodeInfo) -> (index: usize)
    requires
        graph_nodes(*old(graph)).len() < u32::MAX,
    ensures
        graph_nodes(*final(graph)) == graph_nodes(*old(graph)).push(info.deep_view()),
        graph_edges(*final(graph)) == graph_edges(*old(graph)),
        index == graph_nodes(*old(graph)).len(),
{
    graph.add_node(info).index()
}

/// `Graph::add_edge` of `petgraph`, between two nodes of the graph given by
/// their indices: the edge is appended and the nodes stay. The call needs
/// room for the edge's index among the 32-bit numbers below `u32::MAX`.
#[verifier::external_body]
pub(crate) fn add_edge(graph: &mut DiGraph<NodeInfo, ()>, from: usize, to: usize)
    requires
        from < graph_nodes(*old(graph)).len(),
        to < graph_nodes(*old(graph)).len(),
        graph_edges(*old(graph)).len() < u32::MAX,
    ensures
        graph_edges(*final(graph)) == graph_edges(*old(graph)).push((from as int, to as int)),
        graph_nodes(*final(graph)) == graph_nodes(*old(graph)),
{
    graph.add_edge(NodeIndex::new(from), NodeIndex::new(to), ());
}

/// `Graph::node_count` of `petgraph`: the number of nodes.
#[verifier::external_body]
pub(crate) fn node_count(graph: &DiGraph<NodeInfo, ()>) -> (count: usize)
    ensures
        count == graph_nodes(*graph).len(),
{
    graph.node_count()
}

/// `Graph::edge_count` of `petgraph`: the number of edges.
#[verifier::external_body]
pub(crate) fn edge_count(graph: &DiGraph<NodeInfo, ()>) -> (count: usize)
    ensures
        count == graph_edges(*graph).len(),
{
    graph.edge_count()
}

/// `Graph::node_weight` of `petgraph`, for an index that fits in 32 bits: the
/// node at the index, if there is one.
#[verifier::external_body]
pub(crate) fn node_weight(graph: &DiGraph<NodeInfo, ()>, index: usize) -> (info: Option<&NodeInfo>)
    requires
        index <= u32::MAX,
    ensures
        match info {
            Some(node) => index < graph_nodes(*graph).len() && node.deep_view() == graph_nodes(
                *graph,
            )[index as int],
            None => index >= graph_nodes(*graph).len(),
        },
{
    graph.node_weight(NodeIndex::new(index))
}

/// A graph of named nodes, with the index of each name.
pub struct GraphData {
    /// The graph.
    pub graph: DiGraph<NodeInfo, ()>,
    /// The index in the graph of the node with each name.
    pub node_map: StringHashMap<usize>,
}

/// What a graph of named nodes holds.
pub struct GraphModel {
    /// The nodes, in the order in which they were added.
    pub nodes: Seq<NodeInfoView>,
    /// The edges, in the order in which they were added, as pairs of node indices.
    pub edges: Seq<(int, int)>,
    /// The index of the node with each name.
    pub index: Map<Seq<char>, usize>,
}

impl GraphModel {
    /// The graph without nodes.
    pub open spec fn empty() -> GraphModel {
        GraphModel { nodes: Seq::empty(), edges: Seq::empty(), index: Map::empty() }
    }

    /// Whether every index that the graph mentions is the index of a node.
    pub open spec fn wf(self) -> bool {
        &&& forall|name: Seq<char>| #[trigger]
            self.index.dom().contains(name) ==> self.index[name] < self.nodes.len()
        &&& forall|i: int|
            0 <= i < self.edges.len() ==> 0 <= (#[trigger] self.edges[i]).0 < self.nodes.len() && 0
                <= self.edges[i].1 < self.nodes.len()
    }
}

impl GraphData {
    /// What the graph holds.
    pub open spec fn model(&self) -> GraphModel {
        GraphModel {
            nodes: graph_nodes(self.graph),
            edges: graph_edges(self.graph),
            index: self.node_map@,
        }
    }

    /// A graph without nodes.
    pub fn new() -> (data: Self)
        ensures
            data.model() == GraphModel::empty(),
    {
        GraphData { graph: new_graph(), node_map: StringHashMap::new() }
    }

    /// The number of nodes.
    pub fn node_count(&self) -> (count: usize)
        ensures
            count == self.model().nodes.len(),
    {
        node_count(&self.graph)
    }

    /// The number of edges.
    pub fn edge_count(&self) -> (count: usize)
        ensures
            count == self.model().edges.len(),
    {
        edge_count(&self.graph)
    }

    /// The index of the node named `name`.
    pub fn node_index(&self, name: &str) -> (index: Option<usize>)
        ensures
            match index {
                Some(i) => self.model().index.dom().contains(name@) && self.model().index[name@]
                    == i,
                None => !self.model().index.dom().contains(name@),
            },
    {
        match self.node_map.get(name) {
            Some(i) => Some(*i),
            None => None,
        }
    }

    /// The node at `index`.
    pub fn node(&self, index: usize) -> (info: Option<&NodeInfo>)
        ensures
            match info {
                Some(node) => index < self.model().nodes.len() && node.deep_view()
                    == self.model().nodes[index as int],
                None => index >= self.model().nodes.len() || index > u32::MAX,
            },
    {
        if index > u32::MAX as usize {
            None
        } else {
            node_weight(&self.graph, index)
        }
    }

    /// The node named `name`: the node at the index that the name has, where
    /// the graph has a node there.
    pub fn node_named(&self, name: &str) -> (info: Option<&NodeInfo>)
        ensures
            match info {
                Some(node) => self.model().index.dom().contains(name@) && self.model().index[name@]
                    < self.model().nodes.len() && node.deep_view()
                    == self.model().nodes[self.model().index[name@] as int],
                None => !self.model().index.dom().contains(name@) || self.model().index[name@]
                    >= self.model().nodes.len() || self.model().index[name@] > u32::MAX,
            },
    {
        match self.node_index(name) {
            Some(index) => self.node(index),
            None => None,
        }
    }
}

} // verus!
