//! The diagram of which node of a cluster sends data to which.

use petgraph::graph::NodeIndex;
use vstd::prelude::*;

use crate::error::ErrorCode;
use crate::text::same_text;
use crate::text::texts;

verus! {

#[verifier::external_type_specification]
#[verifier::external_body]
#[verifier::reject_recursive_types(N)]
#[verifier::reject_recursive_types(E)]
#[verifier::reject_recursive_types(Ty)]
#[verifier::reject_recursive_types(Ix)]
pub struct ExGraph<N, E, Ty, Ix>(petgraph::Graph<N, E, Ty, Ix>);

#[verifier::external_type_specification]
#[verifier::external_body]
pub struct ExDirected(petgraph::Directed);

/// What is sent along an edge: statistics, or the data of a fragment.
#[derive(Clone, Copy, Debug, PartialEq, Eq, Structural)]
pub enum Edge {
    Statistics,
    Fragment(usize),
}

/// A node of the cluster.
#[derive(Debug)]
pub struct NodeInfo {
    pub id: String,
    pub flight_address: String,
}

pub type NodeGraph = petgraph::Graph<NodeInfo, Edge, petgraph::Directed, u32>;

/// The nodes of a graph in the order of their indices.
pub uninterp spec fn graph_nodes(g: NodeGraph) -> Seq<NodeInfo>;

/// The edges of a graph in the order in which they were added: from which node to which, and
/// what is sent.
pub uninterp spec fn graph_edges(g: NodeGraph) -> Seq<(int, int, Edge)>;

/// `petgraph::Graph::new`: a graph without nodes and edges.
#[verifier::external_body]
fn new_graph() -> (g: NodeGraph)
    ensures
        graph_nodes(g) == Seq::<NodeInfo>::empty(),
        graph_edges(g) == Seq::<(int, int, Edge)>::empty(),
{
    petgraph::Graph::new()
}

/// `petgraph::Graph::add_node`: the node comes last, and its index is the number of nodes
/// there were. The call fails where the nodes can no longer be counted in a `u32`.
#[verifier::external_body]
fn graph_add_node(g: &mut NodeGraph, node: NodeInfo) -> (index: usize)
    requires
        graph_nodes(*old(g)).len() < u32::MAX,
    ensures
        index == graph_nodes(*old(g)).len(),
        graph_nodes(*final(g)) == graph_nodes(*old(g)).push(node),
        graph_edges(*final(g)) == graph_edges(*old(g)),
{
    g.add_node(node).index()
}

/// `petgraph::Graph::add_edge`: the edge comes last, beside any that is already there between
/// the two nodes. The call fails where a node is not there, or where the edges can no longer be
/// counted in a `u32`.
#[verifier::external_body]
fn graph_add_edge(g: &mut NodeGraph, source: usize, destination: usize, edge: Edge)
    requires
        source < graph_nodes(*old(g)).len(),
        destination < graph_nodes(*old(g)).len(),
        graph_nodes(*old(g)).len() <= u32::MAX,
        graph_edges(*old(g)).len() < u32::MAX,
    ensures
        graph_nodes(*final(g)) == graph_nodes(*old(g)),
        graph_edges(*final(g)) == graph_edges(*old(g)).push((source as int, destination as int, edge)),
{
    g.add_edge(NodeIndex::new(source), NodeIndex::new(destination), edge);
}

/// `petgraph::Graph::node_weights`, of each node its id: all nodes in the order of their
/// indices.
#[verifier::external_body]
fn graph_node_ids(g: &NodeGraph) -> (r: Vec<String>)
    ensures
        texts(r@) == node_ids(graph_nodes(*g)),
{
    g.node_weights().map(|node| node.id.clone()).collect()
}

pub open spec fn node_ids(nodes: Seq<NodeInfo>) -> Seq<Seq<char>> {
    nodes.map_values(|n: NodeInfo| n.id@)
}

/// The last node of the given id.
pub open spec fn node_of(ids: Seq<Seq<char>>, id: Seq<char>) -> Option<int>
    decreases ids.len(),
{
    if ids.len() == 0 {
        None
    } else if ids.last() == id {
        Some(ids.len() - 1)
    } else {
        node_of(ids.drop_last(), id)
    }
}

proof fn lemma_node_of(ids: Seq<Seq<char>>, id: Seq<char>)
    ensures
        node_of(ids, id) matches Some(i) ==> 0 <= i < ids.len() && ids[i] == id,
    decreases ids.len(),
{
    if ids.len() > 0 && ids.last() != id {
        lemma_node_of(ids.drop_last(), id);
    }
}

/// No edge leads from a node to itself.
pub open spec fn edges_ok(ids: Seq<Seq<char>>, edges: Seq<(int, int, Edge)>) -> bool {
    forall|i: int|
        #![trigger edges[i]]
        0 <= i < edges.len() ==> 0 <= edges[i].0 < ids.len() && 0 <= edges[i].1 < ids.len() && ids[edges[i].0]
            != ids[edges[i].1]
}

pub struct DataflowDiagram {
    graph: NodeGraph,
}

impl DataflowDiagram {
    pub closed spec fn nodes(&self) -> Seq<NodeInfo> {
        graph_nodes(self.graph)
    }

    pub closed spec fn edges(&self) -> Seq<(int, int, Edge)> {
        graph_edges(self.graph)
    }

    /// The ids of the nodes that take part in a query: all of them are told of it.
    pub fn node_ids(&self) -> (r: Vec<String>)
        ensures
            texts(r@) == node_ids(self.nodes()),
    {
        graph_node_ids(&self.graph)
    }
}

pub struct DataflowDiagramBuilder {
    ids: Vec<String>,
    graph: NodeGraph,
}

impl DataflowDiagramBuilder {
    pub closed spec fn nodes(&self) -> Seq<NodeInfo> {
        graph_nodes(self.graph)
    }

    pub closed spec fn edges(&self) -> Seq<(int, int, Edge)> {
        graph_edges(self.graph)
    }

    pub closed spec fn wf(&self) -> bool {
        &&& texts(self.ids@) == node_ids(graph_nodes(self.graph))
        &&& self.ids@.len() <= u32::MAX
        &&& edges_ok(texts(self.ids@), graph_edges(self.graph))
    }

    /// A diagram of the nodes, without edges.
    pub fn create(nodes: Vec<NodeInfo>) -> (r: DataflowDiagramBuilder)
        requires
            nodes@.len() <= u32::MAX,
        ensures
            r.wf(),
            node_ids(r.nodes()) == node_ids(nodes@),
            r.nodes() == nodes@,
            r.edges() == Seq::<(int, int, Edge)>::empty(),
    {
        let mut ids: Vec<String> = Vec::new();
        let mut graph = new_graph();
        let mut rest = nodes;
        let ghost all = nodes@;
        let total: usize = rest.len();
        let mut i: usize = 0;
        while i < total
            invariant
                i <= total,
                total == all.len(),
                total <= u32::MAX,
                rest@ == all.skip(i as int),
                graph_nodes(graph) == all.take(i as int),
                graph_edges(graph) == Seq::<(int, int, Edge)>::empty(),
                texts(ids@) == node_ids(all.take(i as int)),
            decreases total - i,
        {
            let ghost before = ids@;
            let node = rest.remove(0);
            let id = node.id.clone();
            let _ = graph_add_node(&mut graph, node);
            ids.push(id);
            proof {
                assert(all.skip(i as int)[0] == all[i as int]);
                assert(all.take(i + 1) =~= all.take(i as int).push(all[i as int]));
                assert(rest@ =~= all.skip(i + 1));
                assert(texts(ids@) =~= texts(before).push(all[i as int].id@));
                assert(node_ids(all.take(i + 1)) =~= node_ids(all.take(i as int)).push(all[i as int].id@));
            }
            i += 1;
        }
        assert(all.take(i as int) =~= all);
        assert(texts(ids@).len() == ids@.len());
        DataflowDiagramBuilder { ids, graph }
    }

    fn find(&self, id: &str) -> (r: Option<usize>)
        requires
            self.wf(),
        ensures
            r matches Some(i) ==> node_of(node_ids(self.nodes()), id@) == Some(i as int) && i < self.nodes().len(),
            r is None ==> node_of(node_ids(self.nodes()), id@) is None,
    {
        let ghost ids = texts(self.ids@);
        let mut i: usize = self.ids.len();
        assert(ids.take(i as int) =~= ids);
        while i > 0
            invariant
                i <= self.ids@.len(),
                ids == texts(self.ids@),
                ids.len() == self.ids@.len(),
                ids == node_ids(self.nodes()),
                self.nodes().len() == ids.len(),
                node_of(ids, id@) == node_of(ids.take(i as int), id@),
            decreases i,
        {
            assert(ids.take(i as int).last() == self.ids@[i - 1]@);
            assert(ids.take(i as int).drop_last() =~= ids.take(i - 1));
            if same_text(self.ids[i - 1].as_str(), id) {
                return Some(i - 1);
            }
            i -= 1;
        }
        None
    }

    fn add(&mut self, source: &str, destination: &str, edge: Edge) -> (r: Result<(), ErrorCode>)
        requires
            old(self).wf(),
            old(self).edges().len() < u32::MAX,
        ensures
            final(self).wf(),
            edge_added(
                old(self).nodes(),
                old(self).edges(),
                source@,
                destination@,
                edge,
                final(self).nodes(),
                final(self).edges(),
                r,
            ),
    {
        if !same_text(source, destination) {
            // avoid local to local
            let from = match self.find(source) {
                Some(i) => i,
                None => {
                    return Err(ErrorCode::NotFoundClusterNode("".to_owned()));
                },
            };
            let to = match self.find(destination) {
                Some(i) => i,
                None => {
                    return Err(ErrorCode::NotFoundClusterNode("".to_owned()));
                },
            };
            proof {
                lemma_node_of(node_ids(self.nodes()), source@);
                lemma_node_of(node_ids(self.nodes()), destination@);
            }
            graph_add_edge(&mut self.graph, from, to, edge);
            proof {
                let ids = texts(self.ids@);
                let edges = graph_edges(self.graph);
                assert forall|i: int| #![trigger edges[i]] 0 <= i < edges.len() implies 0 <= edges[i].0 < ids.len() && 0
                    <= edges[i].1 < ids.len() && ids[edges[i].0] != ids[edges[i].1] by {
                    if i < edges.len() - 1 {
                        assert(edges[i] == graph_edges(old(self).graph)[i]);
                    }
                }
            }
        }
        Ok(())
    }

    /// Adds an edge along which the data of fragment `v` is sent; none from a node to itself.
    pub fn add_data_edge(&mut self, source: &str, destination: &str, v: usize) -> (r: Result<(), ErrorCode>)
        requires
            old(self).wf(),
            old(self).edges().len() < u32::MAX,
        ensures
            final(self).wf(),
            edge_added(
                old(self).nodes(),
                old(self).edges(),
                source@,
                destination@,
                Edge::Fragment(v),
                final(self).nodes(),
                final(self).edges(),
                r,
            ),
    {
        self.add(source, destination, Edge::Fragment(v))
    }

    /// Adds an edge along which statistics are sent; none from a node to itself.
    pub fn add_statistics_edge(&mut self, source: &str, destination: &str) -> (r: Result<(), ErrorCode>)
        requires
            old(self).wf(),
            old(self).edges().len() < u32::MAX,
        ensures
            final(self).wf(),
            edge_added(
                old(self).nodes(),
                old(self).edges(),
                source@,
                destination@,
                Edge::Statistics,
                final(self).nodes(),
                final(self).edges(),
                r,
            ),
    {
        self.add(source, destination, Edge::Statistics)
    }

    pub fn build(self) -> (r: DataflowDiagram)
        requires
            self.wf(),
        ensures
            r.nodes() == self.nodes(),
            r.edges() == self.edges(),
            edges_ok(node_ids(r.nodes()), r.edges()),
    {
        DataflowDiagram { graph: self.graph }
    }
}

/// What comes of adding an edge: nothing where both ends are one node, an error where an end is
/// not a node of the cluster, otherwise the edge.
pub open spec fn edge_added(
    nodes: Seq<NodeInfo>,
    edges: Seq<(int, int, Edge)>,
    source: Seq<char>,
    destination: Seq<char>,
    edge: Edge,
    new_nodes: Seq<NodeInfo>,
    new_edges: Seq<(int, int, Edge)>,
    r: Result<(), ErrorCode>,
) -> bool {
    let ids = node_ids(nodes);
    &&& new_nodes == nodes
    &&& if source == destination {
        r is Ok && new_edges == edges
    } else {
        match (node_of(ids, source), node_of(ids, destination)) {
            (Some(a), Some(b)) => r is Ok && new_edges == edges.push((a, b, edge)),
            _ => (r matches Err(ErrorCode::NotFoundClusterNode(m)) && m@ == ""@) && new_edges == edges,
        }
    }
}

/// A node is found by its id where one has it: the last one that does.
pub proof fn nodes_are_found_by_id(ids: Seq<Seq<char>>, id: Seq<char>)
    ensures
        match node_of(ids, id) {
            Some(i) => 0 <= i < ids.len() && ids[i] == id && forall|j: int| i < j < ids.len() ==> #[trigger] ids[j] != id,
            None => forall|j: int| 0 <= j < ids.len() ==> #[trigger] ids[j] != id,
        },
    decreases ids.len(),
{
    if ids.len() > 0 && ids.last() != id {
        let before = ids.drop_last();
        nodes_are_found_by_id(before, id);
        let from = match node_of(before, id) {
            Some(i) => i + 1,
            None => 0,
        };
        assert forall|j: int| from <= j < ids.len() implies #[trigger] ids[j] != id by {
            if j < before.len() {
                assert(before[j] == ids[j]);
            }
        }
    }
}

/// An edge goes from the node that is named as its source to the one that is named as its
/// destination, and the edges that were there stay. None goes from a node to itself, and one from
/// or to an unknown node is refused.
pub proof fn edges_connect_the_named_nodes(
    nodes: Seq<NodeInfo>,
    edges: Seq<(int, int, Edge)>,
    source: Seq<char>,
    destination: Seq<char>,
    edge: Edge,
    new_nodes: Seq<NodeInfo>,
    new_edges: Seq<(int, int, Edge)>,
    r: Result<(), ErrorCode>,
)
    requires
        edge_added(nodes, edges, source, destination, edge, new_nodes, new_edges, r),
    ensures
        ({
            let known = |id: Seq<char>| exists|i: int| 0 <= i < nodes.len() && (#[trigger] nodes[i]).id@ == id;
            &&& new_nodes == nodes
            &&& source == destination ==> r is Ok && new_edges == edges
            &&& source != destination ==> (r is Ok <==> known(source) && known(destination))
            &&& r is Err ==> new_edges == edges && r->Err_0 is NotFoundClusterNode
            &&& r is Ok && source != destination ==> new_edges.len() == edges.len() + 1 && new_edges.drop_last() == edges && ({
                let added = new_edges.last();
                &&& 0 <= added.0 < nodes.len() && nodes[added.0].id@ == source
                &&& 0 <= added.1 < nodes.len() && nodes[added.1].id@ == destination
                &&& added.2 == edge
            })
        }),
{
    let ids = node_ids(nodes);
    nodes_are_found_by_id(ids, source);
    nodes_are_found_by_id(ids, destination);
    assert forall|i: int| 0 <= i < nodes.len() implies (#[trigger] nodes[i]).id@ == ids[i] by {}
    if let Some(a) = node_of(ids, source) {
        assert(nodes[a].id@ == source);
    }
    if let Some(b) = node_of(ids, destination) {
        assert(nodes[b].id@ == destination);
    }
    if r is Ok && source != destination {
        assert(new_edges.drop_last() =~= edges);
    }
}

}
