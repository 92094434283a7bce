//! The finished, read-only SPQR decomposition of a graph.
//!
//! The decomposition is hierarchical: the graph splits into connected components, each component
//! into blocks (biconnected components, joined at cut nodes in a block-cut tree), and each block
//! into the skeletons of its SPQR tree (triconnected components, joined by SPQR edges). All
//! cross-references are indices into flat arenas.
use crate::binary::{decode_decomposition, decomposition_bytes, decomposition_writable, read_arena, write_arena};
use crate::graph::{GraphView, StaticGraph};
use crate::indices::{
    ArenaIndex, BlockIndex, ComponentIndex, CutNodeIndex, OptionalCutNodeIndex, SPQREdgeIndex, SPQRNodeIndex,
};
use vstd::prelude::*;

verus! {

/// Whether every index of `list` is below `bound`.
fn all_below<T: ArenaIndex>(list: &Vec<T>, bound: usize) -> (r: bool)
    ensures
        r == forall|i: int| 0 <= i < list@.len() ==> (#[trigger] list@[i]).index_value() < bound,
{
    let mut i: usize = 0;
    while i < list.len()
        invariant
            0 <= i <= list@.len(),
            forall|j: int| 0 <= j < i ==> (#[trigger] list@[j]).index_value() < bound,
        decreases list@.len() - i,
    {
        if list[i].index() >= bound {
            return false;
        }
        i = i + 1;
    }
    true
}

/// A connected component.
#[derive(Clone, Debug, PartialEq, Eq)]
pub struct Component {
    pub nodes: Vec<usize>,
    pub blocks: Vec<BlockIndex>,
    pub cut_nodes: Vec<CutNodeIndex>,
}

pub struct ComponentView {
    pub nodes: Seq<usize>,
    pub blocks: Seq<BlockIndex>,
    pub cut_nodes: Seq<CutNodeIndex>,
}

impl View for Component {
    type V = ComponentView;

    open spec fn view(&self) -> ComponentView {
        ComponentView { nodes: self.nodes@, blocks: self.blocks@, cut_nodes: self.cut_nodes@ }
    }
}

/// A block: a biconnected component inside a connected component.
#[derive(Clone, Debug, PartialEq, Eq)]
pub struct Block {
    pub component: ComponentIndex,
    pub nodes: Vec<usize>,
    pub cut_nodes: Vec<CutNodeIndex>,
    pub spqr_nodes: Vec<SPQRNodeIndex>,
    pub spqr_edges: Vec<SPQREdgeIndex>,
}

pub struct BlockView {
    pub component: ComponentIndex,
    pub nodes: Seq<usize>,
    pub cut_nodes: Seq<CutNodeIndex>,
    pub spqr_nodes: Seq<SPQRNodeIndex>,
    pub spqr_edges: Seq<SPQREdgeIndex>,
}

impl View for Block {
    type V = BlockView;

    open spec fn view(&self) -> BlockView {
        BlockView {
            component: self.component,
            nodes: self.nodes@,
            cut_nodes: self.cut_nodes@,
            spqr_nodes: self.spqr_nodes@,
            spqr_edges: self.spqr_edges@,
        }
    }
}

/// A cut node: a graph node that belongs to two or more blocks.
#[derive(Clone, Debug, PartialEq, Eq)]
pub struct CutNode {
    pub component: ComponentIndex,
    pub node: usize,
    pub adjacent_blocks: Vec<BlockIndex>,
}

pub struct CutNodeView {
    pub component: ComponentIndex,
    pub node: usize,
    pub adjacent_blocks: Seq<BlockIndex>,
}

impl View for CutNode {
    type V = CutNodeView;

    open spec fn view(&self) -> CutNodeView {
        CutNodeView {
            component: self.component,
            node: self.node,
            adjacent_blocks: self.adjacent_blocks@,
        }
    }
}

/// The kind of a skeleton in an SPQR tree: series, parallel or rigid.
#[derive(Clone, Copy, PartialEq, Eq, Structural, Hash, Debug)]
pub enum SPQRNodeType {
    SNode,
    PNode,
    RNode,
}

impl View for SPQRNodeType {
    type V = SPQRNodeType;

    open spec fn view(&self) -> SPQRNodeType {
        *self
    }
}

/// A node of an SPQR tree: the skeleton of one triconnected component of a block.
#[derive(Clone, Debug, PartialEq, Eq)]
pub struct SPQRNode {
    pub block: BlockIndex,
    pub nodes: Vec<usize>,
    pub edges: Vec<usize>,
    pub spqr_node_type: SPQRNodeType,
    pub spqr_edges: Vec<SPQREdgeIndex>,
}

pub struct SPQRNodeView {
    pub block: BlockIndex,
    pub nodes: Seq<usize>,
    pub edges: Seq<usize>,
    pub spqr_node_type: SPQRNodeType,
    pub spqr_edges: Seq<SPQREdgeIndex>,
}

impl View for SPQRNode {
    type V = SPQRNodeView;

    open spec fn view(&self) -> SPQRNodeView {
        SPQRNodeView {
            block: self.block,
            nodes: self.nodes@,
            edges: self.edges@,
            spqr_node_type: self.spqr_node_type,
            spqr_edges: self.spqr_edges@,
        }
    }
}

/// An edge of an SPQR tree, joining two skeletons that share the virtual edge between its two
/// poles.
#[derive(Clone, Copy, PartialEq, Eq, Debug)]
pub struct SPQREdge {
    pub endpoints: (SPQRNodeIndex, SPQRNodeIndex),
    pub virtual_edge: (usize, usize),
}

impl View for SPQREdge {
    type V = SPQREdge;

    open spec fn view(&self) -> SPQREdge {
        *self
    }
}

/// What the decomposition records of one graph node.
#[derive(Clone, Debug, PartialEq, Eq)]
pub struct SPQRDecompositionNodeData {
    pub component_index: ComponentIndex,
    pub block_indices: Vec<BlockIndex>,
    pub cut_node_index: OptionalCutNodeIndex,
    pub spqr_node_indices: Vec<SPQRNodeIndex>,
    pub extra_data: String,
}

pub struct NodeDataView {
    pub component_index: ComponentIndex,
    pub block_indices: Seq<BlockIndex>,
    pub cut_node_index: OptionalCutNodeIndex,
    pub spqr_node_indices: Seq<SPQRNodeIndex>,
    pub extra_data: Seq<char>,
}

impl View for SPQRDecompositionNodeData {
    type V = NodeDataView;

    open spec fn view(&self) -> NodeDataView {
        NodeDataView {
            component_index: self.component_index,
            block_indices: self.block_indices@,
            cut_node_index: self.cut_node_index,
            spqr_node_indices: self.spqr_node_indices@,
            extra_data: self.extra_data@,
        }
    }
}

/// What the decomposition records of one graph edge.
#[derive(Clone, Debug, PartialEq, Eq)]
pub struct SPQRDecompositionEdgeData {
    pub component_index: ComponentIndex,
    pub block_index: BlockIndex,
    pub spqr_node_index: SPQRNodeIndex,
    pub extra_data: String,
}

pub struct EdgeDataView {
    pub component_index: ComponentIndex,
    pub block_index: BlockIndex,
    pub spqr_node_index: SPQRNodeIndex,
    pub extra_data: Seq<char>,
}

impl View for SPQRDecompositionEdgeData {
    type V = EdgeDataView;

    open spec fn view(&self) -> EdgeDataView {
        EdgeDataView {
            component_index: self.component_index,
            block_index: self.block_index,
            spqr_node_index: self.spqr_node_index,
            extra_data: self.extra_data@,
        }
    }
}

/// The arenas and the per-node and per-edge records of a decomposition, as plain values.
pub struct DecompositionView {
    pub components: Seq<ComponentView>,
    pub blocks: Seq<BlockView>,
    pub cut_nodes: Seq<CutNodeView>,
    pub spqr_nodes: Seq<SPQRNodeView>,
    pub spqr_edges: Seq<SPQREdge>,
    pub node_data: Seq<NodeDataView>,
    pub edge_data: Seq<EdgeDataView>,
}

impl DecompositionView {
    /// There is one record per graph node and one per graph edge.
    pub open spec fn sized_for(self, g: GraphView) -> bool {
        &&& self.node_data.len() == g.node_count()
        &&& self.edge_data.len() == g.edge_count()
    }

    /// Every graph node belongs to exactly one component: the one its record names, whose node
    /// list holds it; no other component's node list does.
    pub open spec fn node_partition(self) -> bool {
        forall|n: int|
            0 <= n < self.node_data.len() ==> {
                &&& (#[trigger] self.node_data[n]).component_index.0 < self.components.len()
                &&& forall|c: int|
                    0 <= c < self.components.len() ==> (#[trigger] self.components[c].nodes.contains(
                        n as usize) <==> self.node_data[n].component_index.0 == c)
            }
    }

    /// Every graph edge belongs to one existing component, block and skeleton, and its
    /// component is the component of both of its endpoints.
    pub open spec fn edge_assignment(self, g: GraphView) -> bool {
        forall|e: int|
            0 <= e < self.edge_data.len() ==> {
                &&& (#[trigger] self.edge_data[e]).component_index.0 < self.components.len()
                &&& self.edge_data[e].block_index.0 < self.blocks.len()
                &&& self.edge_data[e].spqr_node_index.0 < self.spqr_nodes.len()
                &&& self.edge_data[e].component_index == self.node_data[g.endpoints[e].0 as int].component_index
                &&& self.edge_data[e].component_index == self.node_data[g.endpoints[e].1 as int].component_index
            }
    }

    /// An edge belongs to a block exactly when both of its endpoints are members of that block.
    pub open spec fn block_edge_coverage(self, g: GraphView) -> bool {
        forall|e: int, b: BlockIndex|
            #![trigger self.edge_data[e], self.node_data[g.endpoints[e].0 as int].block_indices.contains(b)]
            0 <= e < self.edge_data.len() ==> (self.edge_data[e].block_index == b <==> {
                &&& self.node_data[g.endpoints[e].0 as int].block_indices.contains(b)
                &&& self.node_data[g.endpoints[e].1 as int].block_indices.contains(b)
            })
    }

    /// Every node belongs to at least one existing block, and has a cut node record exactly when
    /// it belongs to two or more blocks.
    pub open spec fn cut_node_rule(self) -> bool {
        forall|n: int|
            0 <= n < self.node_data.len() ==> {
                &&& (#[trigger] self.node_data[n]).block_indices.len() >= 1
                &&& (self.node_data[n].cut_node_index.spec_to_option() is Some
                    <==> self.node_data[n].block_indices.len() >= 2)
            }
    }

    /// Both poles of every SPQR edge are vertices of both skeletons that it joins.
    pub open spec fn poles_shared(self) -> bool {
        forall|x: int|
            0 <= x < self.spqr_edges.len() ==> {
                let t = #[trigger] self.spqr_edges[x];
                &&& t.endpoints.0.0 < self.spqr_nodes.len()
                &&& t.endpoints.1.0 < self.spqr_nodes.len()
                &&& self.spqr_nodes[t.endpoints.0.0 as int].nodes.contains(t.virtual_edge.0)
                &&& self.spqr_nodes[t.endpoints.0.0 as int].nodes.contains(t.virtual_edge.1)
                &&& self.spqr_nodes[t.endpoints.1.0 as int].nodes.contains(t.virtual_edge.0)
                &&& self.spqr_nodes[t.endpoints.1.0 as int].nodes.contains(t.virtual_edge.1)
            }
    }

    /// Every skeleton has at least two vertices.
    pub open spec fn skeletons_sized(self) -> bool {
        forall|s: int| 0 <= s < self.spqr_nodes.len() ==> (#[trigger] self.spqr_nodes[s]).nodes.len() >= 2
    }

    /// Each cut node record and its node's record name each other.
    pub open spec fn cut_nodes_linked(self) -> bool {
        &&& forall|k: int|
            0 <= k < self.cut_nodes.len() ==> {
                &&& (#[trigger] self.cut_nodes[k]).node < self.node_data.len()
                &&& self.node_data[self.cut_nodes[k].node as int].cut_node_index.spec_to_option() == Some(
                    CutNodeIndex(k as usize),
                )
            }
        &&& forall|n: int|
            0 <= n < self.node_data.len() ==> ((#[trigger] self.node_data[n]).cut_node_index.spec_to_option() matches Some(
                k,
            ) ==> k.0 < self.cut_nodes.len() && self.cut_nodes[k.0 as int].node == n)
    }

    /// The cross-references agree: each block is listed by its component and each SPQR node by
    /// its block; the members of a block and the vertices of an SPQR node list it in their
    /// records; an edge is in an SPQR node's edge list exactly when its record names that SPQR
    /// node, whose block is the edge's block; and the SPQR edges of a block join SPQR nodes of
    /// that block.
    pub open spec fn links_ok(self) -> bool {
        &&& forall|b: int|
            0 <= b < self.blocks.len() ==> self.components[(#[trigger] self.blocks[b]).component.0 as int].blocks.contains(
                BlockIndex(b as usize),
            )
        &&& forall|s: int|
            0 <= s < self.spqr_nodes.len() ==> self.blocks[(#[trigger] self.spqr_nodes[s]).block.0 as int].spqr_nodes.contains(
                SPQRNodeIndex(s as usize),
            )
        &&& forall|b: int, i: int|
            0 <= b < self.blocks.len() && 0 <= i < self.blocks[b].nodes.len()
                ==> self.node_data[(#[trigger] self.blocks[b].nodes[i]) as int].block_indices.contains(
                BlockIndex(b as usize),
            )
        &&& forall|s: int, i: int|
            0 <= s < self.spqr_nodes.len() && 0 <= i < self.spqr_nodes[s].nodes.len()
                ==> self.node_data[(#[trigger] self.spqr_nodes[s].nodes[i]) as int].spqr_node_indices.contains(
                SPQRNodeIndex(s as usize),
            )
        &&& forall|s: int, e: int|
            0 <= s < self.spqr_nodes.len() && 0 <= e < self.edge_data.len() ==> (
            #[trigger] self.spqr_nodes[s].edges.contains(e as usize) <==> self.edge_data[e].spqr_node_index
                == SPQRNodeIndex(s as usize))
        &&& forall|e: int|
            0 <= e < self.edge_data.len() ==> (#[trigger] self.edge_data[e]).block_index
                == self.spqr_nodes[self.edge_data[e].spqr_node_index.0 as int].block
        &&& forall|b: int, i: int|
            0 <= b < self.blocks.len() && 0 <= i < self.blocks[b].spqr_edges.len() ==> {
                let x = (#[trigger] self.blocks[b].spqr_edges[i]).0 as int;
                &&& self.spqr_nodes[self.spqr_edges[x].endpoints.0.0 as int].block == BlockIndex(b as usize)
                &&& self.spqr_nodes[self.spqr_edges[x].endpoints.1.0 as int].block == BlockIndex(b as usize)
            }
    }

    /// The lists of components and blocks are exact and without repeats: a component lists a
    /// block, and a block lists an SPQR node, exactly when that block or SPQR node names it; a
    /// block lists an SPQR edge exactly when the edge joins SPQR nodes of that block; a
    /// component lists a cut node exactly when the cut node names it, and a block exactly when
    /// the cut node is adjacent to it. An SPQR node lists each edge once, and every vertex of an
    /// SPQR node is a member of its block.
    pub open spec fn partitions_ok(self) -> bool {
        &&& forall|c: int, b: int|
            0 <= c < self.components.len() && 0 <= b < self.blocks.len() ==> (
            #[trigger] self.components[c].blocks.contains(BlockIndex(b as usize))
                <==> (#[trigger] self.blocks[b]).component.0 == c)
        &&& forall|c: int|
            0 <= c < self.components.len() ==> (#[trigger] self.components[c]).blocks.no_duplicates()
                && self.components[c].cut_nodes.no_duplicates()
        &&& forall|b: int, x: int|
            0 <= b < self.blocks.len() && 0 <= x < self.spqr_nodes.len() ==> (
            #[trigger] self.blocks[b].spqr_nodes.contains(SPQRNodeIndex(x as usize))
                <==> (#[trigger] self.spqr_nodes[x]).block.0 == b)
        &&& forall|b: int, x: int|
            0 <= b < self.blocks.len() && 0 <= x < self.spqr_edges.len() ==> (
            #[trigger] self.blocks[b].spqr_edges.contains(SPQREdgeIndex(x as usize))
                <==> self.spqr_nodes[(#[trigger] self.spqr_edges[x]).endpoints.0.0 as int].block.0 == b)
        &&& forall|b: int|
            0 <= b < self.blocks.len() ==> (#[trigger] self.blocks[b]).spqr_nodes.no_duplicates()
                && self.blocks[b].spqr_edges.no_duplicates() && self.blocks[b].cut_nodes.no_duplicates()
        &&& forall|x: int| 0 <= x < self.spqr_nodes.len() ==> (#[trigger] self.spqr_nodes[x]).edges.no_duplicates()
        &&& forall|c: int, k: int|
            0 <= c < self.components.len() && 0 <= k < self.cut_nodes.len() ==> (
            #[trigger] self.components[c].cut_nodes.contains(CutNodeIndex(k as usize))
                <==> (#[trigger] self.cut_nodes[k]).component.0 == c)
        &&& forall|b: int, k: int|
            0 <= b < self.blocks.len() && 0 <= k < self.cut_nodes.len() ==> (
            #[trigger] self.blocks[b].cut_nodes.contains(CutNodeIndex(k as usize))
                <==> (#[trigger] self.cut_nodes[k]).adjacent_blocks.contains(BlockIndex(b as usize)))
        &&& forall|x: int, i: int|
            0 <= x < self.spqr_nodes.len() && 0 <= i < self.spqr_nodes[x].nodes.len()
                ==> self.node_data[(#[trigger] self.spqr_nodes[x].nodes[i]) as int].block_indices.contains(
                self.spqr_nodes[x].block,
            )
    }

    /// Whether node `n` is a pole of some SPQR edge.
    pub open spec fn is_pole(self, n: int) -> bool {
        exists|x: int|
            0 <= x < self.spqr_edges.len() && ((#[trigger] self.spqr_edges[x]).virtual_edge.0 == n
                || self.spqr_edges[x].virtual_edge.1 == n)
    }

    /// A node that belongs to a single block lies in two or more SPQR nodes exactly when it is a
    /// pole of an SPQR edge. (A cut node can lie in SPQR nodes of several blocks without being a
    /// pole.)
    pub open spec fn pole_rule(self) -> bool {
        forall|n: int|
            0 <= n < self.node_data.len() && (#[trigger] self.node_data[n]).block_indices.len() == 1 ==> (
            self.node_data[n].spqr_node_indices.len() >= 2 <==> self.is_pole(n))
    }

    /// A node's blocks belong to its component, and the blocks of a cut node belong to the cut
    /// node's component and contain its node.
    pub open spec fn memberships_ok(self) -> bool {
        &&& forall|n: int, i: int|
            0 <= n < self.node_data.len() && 0 <= i < self.node_data[n].block_indices.len() ==> {
                &&& (#[trigger] self.node_data[n].block_indices[i]).0 < self.blocks.len()
                &&& self.blocks[self.node_data[n].block_indices[i].0 as int].component
                    == self.node_data[n].component_index
            }
        &&& forall|k: int, i: int|
            0 <= k < self.cut_nodes.len() && 0 <= i < self.cut_nodes[k].adjacent_blocks.len() ==> {
                &&& (#[trigger] self.cut_nodes[k].adjacent_blocks[i]).0 < self.blocks.len()
                &&& self.blocks[self.cut_nodes[k].adjacent_blocks[i].0 as int].component == self.cut_nodes[k].component
                &&& self.node_data[self.cut_nodes[k].node as int].block_indices.contains(
                    self.cut_nodes[k].adjacent_blocks[i],
                )
            }
    }

    /// Every index that a record holds points into its arena, or at a node or edge of `g`.
    pub open spec fn well_indexed(self, g: GraphView) -> bool {
        &&& g.valid()
        &&& self.sized_for(g)
        &&& forall|c: int|
            #![trigger self.components[c]]
            0 <= c < self.components.len() ==> {
                &&& forall|i: int|
                    0 <= i < self.components[c].nodes.len() ==> (#[trigger] self.components[c].nodes[i])
                        < g.node_count()
                &&& forall|i: int|
                    0 <= i < self.components[c].blocks.len() ==> (
                    #[trigger] self.components[c].blocks[i]).0 < self.blocks.len()
                &&& forall|i: int|
                    0 <= i < self.components[c].cut_nodes.len() ==> (
                    #[trigger] self.components[c].cut_nodes[i]).0 < self.cut_nodes.len()
            }
        &&& forall|b: int|
            #![trigger self.blocks[b]]
            0 <= b < self.blocks.len() ==> {
                &&& forall|i: int|
                    0 <= i < self.blocks[b].nodes.len() ==> (#[trigger] self.blocks[b].nodes[i])
                        < g.node_count()
                &&& forall|i: int|
                    0 <= i < self.blocks[b].spqr_nodes.len() ==> (
                    #[trigger] self.blocks[b].spqr_nodes[i]).0 < self.spqr_nodes.len()
                &&& forall|i: int|
                    0 <= i < self.blocks[b].spqr_edges.len() ==> (
                    #[trigger] self.blocks[b].spqr_edges[i]).0 < self.spqr_edges.len()
            }
        &&& forall|k: int|
            0 <= k < self.cut_nodes.len() ==> (#[trigger] self.cut_nodes[k]).node < g.node_count()
        &&& forall|s: int|
            #![trigger self.spqr_nodes[s]]
            0 <= s < self.spqr_nodes.len() ==> {
                &&& forall|i: int|
                    0 <= i < self.spqr_nodes[s].nodes.len() ==> (#[trigger] self.spqr_nodes[s].nodes[i])
                        < g.node_count()
                &&& forall|i: int|
                    0 <= i < self.spqr_nodes[s].edges.len() ==> (#[trigger] self.spqr_nodes[s].edges[i])
                        < g.edge_count()
            }
        &&& forall|x: int|
            0 <= x < self.spqr_edges.len() ==> {
                let t = #[trigger] self.spqr_edges[x];
                &&& t.endpoints.0.0 < self.spqr_nodes.len()
                &&& t.endpoints.1.0 < self.spqr_nodes.len()
                &&& t.virtual_edge.0 < g.node_count()
                &&& t.virtual_edge.1 < g.node_count()
            }
    }

    /// All the structural rules of a decomposition of graph `g`.
    pub open spec fn valid_for(self, g: GraphView) -> bool {
        &&& self.sized_for(g)
        &&& self.node_partition()
        &&& self.edge_assignment(g)
        &&& self.block_edge_coverage(g)
        &&& self.cut_node_rule()
        &&& self.poles_shared()
        &&& self.skeletons_sized()
        &&& self.cut_nodes_linked()
        &&& self.links_ok()
        &&& self.memberships_ok()
        &&& self.partitions_ok()
        &&& self.pole_rule()
    }
}

/// The SPQR decomposition of a graph, which it borrows for its whole lifetime.
pub struct SPQRDecomposition<'graph> {
    graph: &'graph StaticGraph,
    components: Vec<Component>,
    blocks: Vec<Block>,
    cut_nodes: Vec<CutNode>,
    spqr_nodes: Vec<SPQRNode>,
    spqr_edges: Vec<SPQREdge>,
    node_data: Vec<SPQRDecompositionNodeData>,
    edge_data: Vec<SPQRDecompositionEdgeData>,
}

impl<'graph> View for SPQRDecomposition<'graph> {
    type V = DecompositionView;

    closed spec fn view(&self) -> DecompositionView {
        DecompositionView {
            components: self.components@.map_values(|c: Component| c@),
            blocks: self.blocks@.map_values(|b: Block| b@),
            cut_nodes: self.cut_nodes@.map_values(|c: CutNode| c@),
            spqr_nodes: self.spqr_nodes@.map_values(|s: SPQRNode| s@),
            spqr_edges: self.spqr_edges@,
            node_data: self.node_data@.map_values(|d: SPQRDecompositionNodeData| d@),
            edge_data: self.edge_data@.map_values(|d: SPQRDecompositionEdgeData| d@),
        }
    }
}

impl<'graph> SPQRDecomposition<'graph> {
    /// The graph that this decomposition describes.
    pub closed spec fn spec_graph(&self) -> StaticGraph {
        *self.graph
    }

    /// Assembles a decomposition from its parts.
    pub(crate) fn from_parts(
        graph: &'graph StaticGraph,
        components: Vec<Component>,
        blocks: Vec<Block>,
        cut_nodes: Vec<CutNode>,
        spqr_nodes: Vec<SPQRNode>,
        spqr_edges: Vec<SPQREdge>,
        node_data: Vec<SPQRDecompositionNodeData>,
        edge_data: Vec<SPQRDecompositionEdgeData>,
    ) -> (r: Self)
        ensures
            r.spec_graph() == *graph,
            r@.components == components@.map_values(|c: Component| c@),
            r@.blocks == blocks@.map_values(|b: Block| b@),
            r@.cut_nodes == cut_nodes@.map_values(|c: CutNode| c@),
            r@.spqr_nodes == spqr_nodes@.map_values(|s: SPQRNode| s@),
            r@.spqr_edges == spqr_edges@,
            r@.node_data == node_data@.map_values(|d: SPQRDecompositionNodeData| d@),
            r@.edge_data == edge_data@.map_values(|d: SPQRDecompositionEdgeData| d@),
    {
        SPQRDecomposition {
            graph,
            components,
            blocks,
            cut_nodes,
            spqr_nodes,
            spqr_edges,
            node_data,
            edge_data,
        }
    }

    /// The bytes of the whole decomposition: its seven arenas in order.
    pub fn write_binary(&self) -> (r: Vec<u8>)
        ensures
            r@ == decomposition_bytes(self@),
            decomposition_writable(self@),
    {
        let mut out: Vec<u8> = Vec::new();
        write_arena(&self.components, &mut out);
        write_arena(&self.blocks, &mut out);
        write_arena(&self.cut_nodes, &mut out);
        write_arena(&self.spqr_nodes, &mut out);
        write_arena(&self.spqr_edges, &mut out);
        write_arena(&self.node_data, &mut out);
        write_arena(&self.edge_data, &mut out);
        proof {
            assert(self.spqr_edges@.map_values(|x: SPQREdge| x@) =~= self.spqr_edges@);
            assert(out@ =~= decomposition_bytes(self@));
        }
        out
    }

    /// Reads a decomposition of `graph` from bytes that [`write_binary`](Self::write_binary)
    /// wrote; `None` when they end early or hold a record that cannot be decoded. The result is
    /// not checked against the rules of a decomposition.
    pub fn read_binary(graph: &'graph StaticGraph, bytes: &Vec<u8>) -> (r: Option<Self>)
        ensures
            match r {
                Some(d) => decode_decomposition(bytes@) == Some(d@) && d.spec_graph() == *graph,
                None => decode_decomposition(bytes@) is None,
            },
    {
        let (components, p0) = read_arena::<Component>(bytes, 0)?;
        let (blocks, p1) = read_arena::<Block>(bytes, p0)?;
        let (cut_nodes, p2) = read_arena::<CutNode>(bytes, p1)?;
        let (spqr_nodes, p3) = read_arena::<SPQRNode>(bytes, p2)?;
        let (spqr_edges, p4) = read_arena::<SPQREdge>(bytes, p3)?;
        let (node_data, p5) = read_arena::<SPQRDecompositionNodeData>(bytes, p4)?;
        let (edge_data, _) = read_arena::<SPQRDecompositionEdgeData>(bytes, p5)?;
        proof {
            assert(spqr_edges@.map_values(|x: SPQREdge| x@) =~= spqr_edges@);
        }
        Some(
            SPQRDecomposition {
                graph,
                components,
                blocks,
                cut_nodes,
                spqr_nodes,
                spqr_edges,
                node_data,
                edge_data,
            },
        )
    }

    /// Whether [`DecompositionView::well_indexed`] holds of this decomposition and its graph.
    pub fn is_well_indexed(&self) -> (r: bool)
        ensures
            r == self@.well_indexed(self.spec_graph()@),
    {
        let g = self.graph;
        if !g.is_valid() || self.node_data.len() != g.node_count() || self.edge_data.len() != g.edge_count() {
            return false;
        }
        let ghost v = self@;
        let mut c: usize = 0;
        while c < self.components.len()
            invariant
                v == self@,
                *g == self.spec_graph(),
                0 <= c <= v.components.len(),
                forall|x: int|
                    #![trigger v.components[x]]
                    0 <= x < c ==> {
                        &&& forall|i: int|
                            0 <= i < v.components[x].nodes.len() ==> (#[trigger] v.components[x].nodes[i])
                                < g@.node_count()
                        &&& forall|i: int|
                            0 <= i < v.components[x].blocks.len() ==> (
                            #[trigger] v.components[x].blocks[i]).0 < v.blocks.len()
                        &&& forall|i: int|
                            0 <= i < v.components[x].cut_nodes.len() ==> (
                            #[trigger] v.components[x].cut_nodes[i]).0 < v.cut_nodes.len()
                    },
            decreases v.components.len() - c,
        {
            let k = &self.components[c];
            assert(k@ == v.components[c as int]);
            let ok1 = all_below(&k.nodes, g.node_count());
            let ok2 = all_below(&k.blocks, self.blocks.len());
            let ok3 = all_below(&k.cut_nodes, self.cut_nodes.len());
            if !(ok1 && ok2 && ok3) {
                proof {
                    let x = v.components[c as int];
                    if !ok1 {
                        let i = choose|i: int| 0 <= i < k.nodes@.len() && k.nodes@[i].index_value() >= g@.node_count();
                        assert(x.nodes[i] >= g@.node_count());
                    } else if !ok2 {
                        let i = choose|i: int| 0 <= i < k.blocks@.len() && k.blocks@[i].index_value() >= v.blocks.len();
                        assert(x.blocks[i].0 >= v.blocks.len());
                    } else {
                        let i = choose|i: int| 0 <= i < k.cut_nodes@.len() && k.cut_nodes@[i].index_value() >= v.cut_nodes.len();
                        assert(x.cut_nodes[i].0 >= v.cut_nodes.len());
                    }
                }
                return false;
            }
            c = c + 1;
        }
        let mut b: usize = 0;
        while b < self.blocks.len()
            invariant
                v == self@,
                *g == self.spec_graph(),
                0 <= b <= v.blocks.len(),
                forall|x: int|
                    #![trigger v.blocks[x]]
                    0 <= x < b ==> {
                        &&& forall|i: int|
                            0 <= i < v.blocks[x].nodes.len() ==> (#[trigger] v.blocks[x].nodes[i])
                                < g@.node_count()
                        &&& forall|i: int|
                            0 <= i < v.blocks[x].spqr_nodes.len() ==> (
                            #[trigger] v.blocks[x].spqr_nodes[i]).0 < v.spqr_nodes.len()
                        &&& forall|i: int|
                            0 <= i < v.blocks[x].spqr_edges.len() ==> (
                            #[trigger] v.blocks[x].spqr_edges[i]).0 < v.spqr_edges.len()
                    },
            decreases v.blocks.len() - b,
        {
            let k = &self.blocks[b];
            assert(k@ == v.blocks[b as int]);
            let ok1 = all_below(&k.nodes, g.node_count());
            let ok2 = all_below(&k.spqr_nodes, self.spqr_nodes.len());
            let ok3 = all_below(&k.spqr_edges, self.spqr_edges.len());
            if !(ok1 && ok2 && ok3) {
                proof {
                    let x = v.blocks[b as int];
                    if !ok1 {
                        let i = choose|i: int| 0 <= i < k.nodes@.len() && k.nodes@[i].index_value() >= g@.node_count();
                        assert(x.nodes[i] >= g@.node_count());
                    } else if !ok2 {
                        let i = choose|i: int| 0 <= i < k.spqr_nodes@.len() && k.spqr_nodes@[i].index_value() >= v.spqr_nodes.len();
                        assert(x.spqr_nodes[i].0 >= v.spqr_nodes.len());
                    } else {
                        let i = choose|i: int| 0 <= i < k.spqr_edges@.len() && k.spqr_edges@[i].index_value() >= v.spqr_edges.len();
                        assert(x.spqr_edges[i].0 >= v.spqr_edges.len());
                    }
                }
                return false;
            }
            b = b + 1;
        }
        let mut k: usize = 0;
        while k < self.cut_nodes.len()
            invariant
                v == self@,
                *g == self.spec_graph(),
                0 <= k <= v.cut_nodes.len(),
                forall|x: int| 0 <= x < k ==> (#[trigger] v.cut_nodes[x]).node < g@.node_count(),
            decreases v.cut_nodes.len() - k,
        {
            assert(self.cut_nodes@[k as int]@ == v.cut_nodes[k as int]);
            if self.cut_nodes[k].node >= g.node_count() {
                return false;
            }
            k = k + 1;
        }
        let mut s: usize = 0;
        while s < self.spqr_nodes.len()
            invariant
                v == self@,
                *g == self.spec_graph(),
                0 <= s <= v.spqr_nodes.len(),
                forall|x: int|
                    #![trigger v.spqr_nodes[x]]
                    0 <= x < s ==> {
                        &&& forall|i: int|
                            0 <= i < v.spqr_nodes[x].nodes.len() ==> (#[trigger] v.spqr_nodes[x].nodes[i])
                                < g@.node_count()
                        &&& forall|i: int|
                            0 <= i < v.spqr_nodes[x].edges.len() ==> (#[trigger] v.spqr_nodes[x].edges[i])
                                < g@.edge_count()
                    },
            decreases v.spqr_nodes.len() - s,
        {
            let k = &self.spqr_nodes[s];
            assert(k@ == v.spqr_nodes[s as int]);
            let ok1 = all_below(&k.nodes, g.node_count());
            let ok2 = all_below(&k.edges, g.edge_count());
            if !(ok1 && ok2) {
                proof {
                    let x = v.spqr_nodes[s as int];
                    if !ok1 {
                        let i = choose|i: int| 0 <= i < k.nodes@.len() && k.nodes@[i].index_value() >= g@.node_count();
                        assert(x.nodes[i] >= g@.node_count());
                    } else {
                        let i = choose|i: int| 0 <= i < k.edges@.len() && k.edges@[i].index_value() >= g@.edge_count();
                        assert(x.edges[i] >= g@.edge_count());
                    }
                }
                return false;
            }
            s = s + 1;
        }
        let mut x: usize = 0;
        while x < self.spqr_edges.len()
            invariant
                v == self@,
                *g == self.spec_graph(),
                0 <= x <= v.spqr_edges.len(),
                forall|y: int|
                    0 <= y < x ==> {
                        let t = #[trigger] v.spqr_edges[y];
                        &&& t.endpoints.0.0 < v.spqr_nodes.len()
                        &&& t.endpoints.1.0 < v.spqr_nodes.len()
                        &&& t.virtual_edge.0 < g@.node_count()
                        &&& t.virtual_edge.1 < g@.node_count()
                    },
            decreases v.spqr_edges.len() - x,
        {
            let t = self.spqr_edges[x];
            assert(t == v.spqr_edges[x as int]);
            if t.endpoints.0.0 >= self.spqr_nodes.len() || t.endpoints.1.0 >= self.spqr_nodes.len()
                || t.virtual_edge.0 >= g.node_count() || t.virtual_edge.1 >= g.node_count() {
                return false;
            }
            x = x + 1;
        }
        true
    }

    pub fn graph(&self) -> (r: &'graph StaticGraph)
        ensures
            *r == self.spec_graph(),
    {
        self.graph
    }

    /// The indices of all components, in order.
    pub fn iter_component_indices(&self) -> (r: Vec<ComponentIndex>)
        ensures
            r@.len() == self@.components.len(),
            forall|i: int| 0 <= i < r@.len() ==> (#[trigger] r@[i]).0 == i,
    {
        let mut r: Vec<ComponentIndex> = Vec::new();
        let mut i: usize = 0;
        while i < self.components.len()
            invariant
                0 <= i <= self.components@.len(),
                self@.components.len() == self.components@.len(),
                r@.len() == i,
                forall|j: int| 0 <= j < i ==> (#[trigger] r@[j]).0 == j,
            decreases self.components@.len() - i,
        {
            r.push(ComponentIndex(i));
            i = i + 1;
        }
        r
    }

    /// All components, in index order.
    pub fn iter_components(&self) -> (r: &Vec<Component>)
        ensures
            r@.map_values(|c: Component| c@) == self@.components,
    {
        &self.components
    }

    pub fn component(&self, component_index: ComponentIndex) -> (r: &Component)
        requires
            component_index.0 < self@.components.len(),
        ensures
            r@ == self@.components[component_index.0 as int],
    {
        &self.components[component_index.0]
    }

    pub fn block(&self, block_index: BlockIndex) -> (r: &Block)
        requires
            block_index.0 < self@.blocks.len(),
        ensures
            r@ == self@.blocks[block_index.0 as int],
    {
        &self.blocks[block_index.0]
    }

    pub fn spqr_node(&self, spqr_node_index: SPQRNodeIndex) -> (r: &SPQRNode)
        requires
            spqr_node_index.0 < self@.spqr_nodes.len(),
        ensures
            r@ == self@.spqr_nodes[spqr_node_index.0 as int],
    {
        &self.spqr_nodes[spqr_node_index.0]
    }

    /// The blocks of a component, in the order they were added.
    pub fn iter_blocks_in_component(&self, component_index: ComponentIndex) -> (r: &Vec<BlockIndex>)
        requires
            component_index.0 < self@.components.len(),
        ensures
            r@ == self@.components[component_index.0 as int].blocks,
    {
        &self.components[component_index.0].blocks
    }

    /// The skeletons of a block, in the order they were added.
    pub fn iter_spqr_nodes_in_block(&self, block_index: BlockIndex) -> (r: &Vec<SPQRNodeIndex>)
        requires
            block_index.0 < self@.blocks.len(),
        ensures
            r@ == self@.blocks[block_index.0 as int].spqr_nodes,
    {
        &self.blocks[block_index.0].spqr_nodes
    }

    /// The SPQR edges of a block, in the order they were added.
    pub fn iter_spqr_edges_in_block(&self, block_index: BlockIndex) -> (r: &Vec<SPQREdgeIndex>)
        requires
            block_index.0 < self@.blocks.len(),
        ensures
            r@ == self@.blocks[block_index.0 as int].spqr_edges,
    {
        &self.blocks[block_index.0].spqr_edges
    }

    /// The graph's node indices, in order.
    pub fn iter_nodes(&self) -> (r: Vec<usize>)
        ensures
            r@.len() == self.spec_graph()@.node_count(),
            forall|i: int| 0 <= i < r@.len() ==> (#[trigger] r@[i]) == i,
    {
        let n = self.graph.node_count();
        let mut r: Vec<usize> = Vec::new();
        let mut i: usize = 0;
        while i < n
            invariant
                0 <= i <= n,
                n == self.spec_graph()@.node_count(),
                r@.len() == i,
                forall|j: int| 0 <= j < i ==> (#[trigger] r@[j]) == j,
            decreases n - i,
        {
            r.push(i);
            i = i + 1;
        }
        r
    }

    pub fn node_extra_data(&self, node_index: usize) -> (r: &str)
        requires
            node_index < self@.node_data.len(),
        ensures
            r@ == self@.node_data[node_index as int].extra_data,
    {
        self.node_data[node_index].extra_data.as_str()
    }

    pub fn edge_extra_data(&self, edge_index: usize) -> (r: &str)
        requires
            edge_index < self@.edge_data.len(),
        ensures
            r@ == self@.edge_data[edge_index as int].extra_data,
    {
        self.edge_data[edge_index].extra_data.as_str()
    }

    pub fn node_component_index(&self, node_index: usize) -> (r: ComponentIndex)
        requires
            node_index < self@.node_data.len(),
        ensures
            r == self@.node_data[node_index as int].component_index,
    {
        self.node_data[node_index].component_index
    }

    pub fn node_block_indices(&self, node_index: usize) -> (r: &Vec<BlockIndex>)
        requires
            node_index < self@.node_data.len(),
        ensures
            r@ == self@.node_data[node_index as int].block_indices,
    {
        &self.node_data[node_index].block_indices
    }

    pub fn node_spqr_node_indices(&self, node_index: usize) -> (r: &Vec<SPQRNodeIndex>)
        requires
            node_index < self@.node_data.len(),
        ensures
            r@ == self@.node_data[node_index as int].spqr_node_indices,
    {
        &self.node_data[node_index].spqr_node_indices
    }

    pub fn cut_node_index_to_node_index(&self, cut_node_index: CutNodeIndex) -> (r: usize)
        requires
            cut_node_index.0 < self@.cut_nodes.len(),
        ensures
            r == self@.cut_nodes[cut_node_index.0 as int].node,
    {
        self.cut_nodes[cut_node_index.0].node
    }

    pub fn cut_node(&self, cut_node_index: CutNodeIndex) -> (r: &CutNode)
        requires
            cut_node_index.0 < self@.cut_nodes.len(),
        ensures
            r@ == self@.cut_nodes[cut_node_index.0 as int],
    {
        &self.cut_nodes[cut_node_index.0]
    }

    /// Whether the node has a cut node record.
    pub fn is_cut_node(&self, node_index: usize) -> (r: bool)
        requires
            node_index < self@.node_data.len(),
        ensures
            r == (self@.node_data[node_index as int].cut_node_index.spec_to_option() is Some),
    {
        self.node_data[node_index].cut_node_index.is_some()
    }

    pub fn spqr_edge(&self, spqr_edge_index: SPQREdgeIndex) -> (r: &SPQREdge)
        requires
            spqr_edge_index.0 < self@.spqr_edges.len(),
        ensures
            *r == self@.spqr_edges[spqr_edge_index.0 as int],
    {
        &self.spqr_edges[spqr_edge_index.0]
    }

    /// Whether the node lies in two or more skeletons. For a node of a single block in a
    /// decomposition that keeps [`DecompositionView::pole_rule`], as every built one does, that is
    /// when it is a pole of an SPQR edge.
    pub fn has_incident_virtual_edge(&self, node_index: usize) -> (r: bool)
        requires
            node_index < self@.node_data.len(),
        ensures
            r == (self@.node_data[node_index as int].spqr_node_indices.len() >= 2),
            self@.pole_rule() && self@.node_data[node_index as int].block_indices.len() == 1 ==> (r
                == self@.is_pole(node_index as int)),
    {
        self.node_data[node_index].spqr_node_indices.len() >= 2
    }
}

impl Component {
    pub fn iter_nodes(&self) -> (r: &Vec<usize>)
        ensures
            r@ == self@.nodes,
    {
        &self.nodes
    }

    pub fn iter_cut_nodes(&self) -> (r: &Vec<CutNodeIndex>)
        ensures
            r@ == self@.cut_nodes,
    {
        &self.cut_nodes
    }
}

impl Block {
    pub fn iter_nodes(&self) -> (r: &Vec<usize>)
        ensures
            r@ == self@.nodes,
    {
        &self.nodes
    }

    pub fn iter_cut_nodes(&self) -> (r: &Vec<CutNodeIndex>)
        ensures
            r@ == self@.cut_nodes,
    {
        &self.cut_nodes
    }
}

impl CutNode {
    pub fn component(&self) -> (r: ComponentIndex)
        ensures
            r == self.component,
    {
        self.component
    }

    pub fn node(&self) -> (r: usize)
        ensures
            r == self.node,
    {
        self.node
    }

    pub fn iter_adjacent_blocks(&self) -> (r: &Vec<BlockIndex>)
        ensures
            r@ == self@.adjacent_blocks,
    {
        &self.adjacent_blocks
    }
}

impl SPQRNode {
    pub fn block(&self) -> (r: BlockIndex)
        ensures
            r == self.block,
    {
        self.block
    }

    pub fn iter_nodes(&self) -> (r: &Vec<usize>)
        ensures
            r@ == self@.nodes,
    {
        &self.nodes
    }

    /// The two poles of a P-node: its first two vertices. Other kinds have none.
    pub fn p_node_poles(&self) -> (r: Option<(usize, usize)>)
        requires
            self@.nodes.len() >= 2,
        ensures
            r is Some <==> self.spqr_node_type == SPQRNodeType::PNode,
            r matches Some(p) ==> p == (self@.nodes[0], self@.nodes[1]),
    {
        if self.spqr_node_type == SPQRNodeType::PNode {
            Some((self.nodes[0], self.nodes[1]))
        } else {
            None
        }
    }

    pub fn iter_edges(&self) -> (r: &Vec<usize>)
        ensures
            r@ == self@.edges,
    {
        &self.edges
    }

    pub fn spqr_node_type(&self) -> (r: SPQRNodeType)
        ensures
            r == self.spqr_node_type,
    {
        self.spqr_node_type
    }

    pub fn iter_incident_spqr_edges(&self) -> (r: &Vec<SPQREdgeIndex>)
        ensures
            r@ == self@.spqr_edges,
    {
        &self.spqr_edges
    }
}

impl SPQREdge {
    pub fn endpoints(&self) -> (r: (SPQRNodeIndex, SPQRNodeIndex))
        ensures
            r == self.endpoints,
    {
        self.endpoints
    }

    /// The endpoint with the smaller index.
    pub fn min_endpoint(&self) -> (r: SPQRNodeIndex)
        ensures
            r.0 == if self.endpoints.0.0 <= self.endpoints.1.0 {
                self.endpoints.0.0
            } else {
                self.endpoints.1.0
            },
    {
        if self.endpoints.0.0 <= self.endpoints.1.0 {
            self.endpoints.0
        } else {
            self.endpoints.1
        }
    }

    /// The endpoint with the larger index.
    pub fn max_endpoint(&self) -> (r: SPQRNodeIndex)
        ensures
            r.0 == if self.endpoints.0.0 >= self.endpoints.1.0 {
                self.endpoints.0.0
            } else {
                self.endpoints.1.0
            },
    {
        if self.endpoints.0.0 >= self.endpoints.1.0 {
            self.endpoints.0
        } else {
            self.endpoints.1
        }
    }

    pub fn virtual_edge(&self) -> (r: (usize, usize))
        ensures
            r == self.virtual_edge,
    {
        self.virtual_edge
    }

    /// The poles, the smaller first.
    pub fn ordered_virtual_edge(&self) -> (r: (usize, usize))
        ensures
            r == if self.virtual_edge.0 < self.virtual_edge.1 {
                self.virtual_edge
            } else {
                (self.virtual_edge.1, self.virtual_edge.0)
            },
    {
        let (u, v) = self.virtual_edge;
        if u < v {
            (u, v)
        } else {
            (v, u)
        }
    }
}

} // verus!
