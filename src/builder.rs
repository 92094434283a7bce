//! Incremental construction of a decomposition, with every structural rule checked as the
//! pieces arrive.
use crate::decomposition::{
    Block, BlockView, Component, ComponentView, CutNode, CutNodeView, DecompositionView, EdgeDataView, NodeDataView,
    SPQRDecomposition, SPQRDecompositionEdgeData, SPQRDecompositionNodeData, SPQREdge, SPQRNode,
    SPQRNodeType, SPQRNodeView,
};
use crate::graph::{GraphView, StaticGraph};
use crate::indices::{
    BlockIndex, ComponentIndex, CutNodeIndex, OptionalCutNodeIndex, SPQREdgeIndex, SPQRNodeIndex,
    NO_INDEX,
};
use vstd::prelude::*;
use vstd::set_lib::{lemma_int_range, lemma_len_subset, set_int_range};

verus! {

/// The indices, in order, of the cut node records `s` (numbered from `base`) that belong to
/// component `c`.
pub open spec fn component_cut_list(s: Seq<CutNodeView>, base: int, c: int) -> Seq<CutNodeIndex>
    decreases s.len(),
{
    if s.len() == 0 {
        Seq::empty()
    } else {
        component_cut_list(s.drop_last(), base, c) + if s.last().component.0 == c {
            seq![CutNodeIndex((base + s.len() - 1) as usize)]
        } else {
            Seq::empty()
        }
    }
}

/// The indices, in order, of the cut node records `s` (numbered from `base`) adjacent to block
/// `b`.
pub open spec fn block_cut_list(s: Seq<CutNodeView>, base: int, b: int) -> Seq<CutNodeIndex>
    decreases s.len(),
{
    if s.len() == 0 {
        Seq::empty()
    } else {
        block_cut_list(s.drop_last(), base, b) + if s.last().adjacent_blocks.contains(BlockIndex(b as usize)) {
            seq![CutNodeIndex((base + s.len() - 1) as usize)]
        } else {
            Seq::empty()
        }
    }
}

/// Appending an element that is not there keeps a sequence free of repeats.
proof fn lemma_push_no_duplicates<A>(s: Seq<A>, x: A)
    requires
        s.no_duplicates(),
        !s.contains(x),
    ensures
        s.push(x).no_duplicates(),
{
    assert forall|i: int, j: int| 0 <= i < s.len() + 1 && 0 <= j < s.len() + 1 && i != j implies s.push(x)[i]
        != s.push(x)[j] by {
        if i == s.len() && j < s.len() {
            assert(s[j] != x);
        } else if j == s.len() && i < s.len() {
            assert(s[i] != x);
        }
    }
}

/// Appending `x` to `s` adds exactly `x` to what `s` contains.
pub proof fn lemma_push_contains<A>(s: Seq<A>, x: A, u: A)
    ensures
        s.push(x).contains(u) == (s.contains(u) || u == x),
{
    let t = s.push(x);
    if t.contains(u) {
        let j = choose|j: int| 0 <= j < t.len() && t[j] == u;
        if j < s.len() {
            assert(s[j] == u);
        }
    }
    if s.contains(u) {
        let j = choose|j: int| 0 <= j < s.len() && s[j] == u;
        assert(t[j] == u);
    }
    assert(t[s.len() as int] == x);
}

/// Whether `list` holds `b`.
fn contains_block(list: &Vec<BlockIndex>, b: BlockIndex) -> (r: bool)
    ensures
        r == list@.contains(b),
{
    let mut i: usize = 0;
    while i < list.len()
        invariant
            0 <= i <= list@.len(),
            forall|j: int| 0 <= j < i ==> list@[j] != b,
        decreases list@.len() - i,
    {
        if list[i] == b {
            assert(list@[i as int] == b);
            return true;
        }
        i = i + 1;
    }
    false
}

/// Whether `list` holds `n`.
fn contains_node(list: &Vec<usize>, n: usize) -> (r: bool)
    ensures
        r == list@.contains(n),
{
    let mut i: usize = 0;
    while i < list.len()
        invariant
            0 <= i <= list@.len(),
            forall|j: int| 0 <= j < i ==> list@[j] != n,
        decreases list@.len() - i,
    {
        if list[i] == n {
            assert(list@[i as int] == n);
            return true;
        }
        i = i + 1;
    }
    false
}

/// A list of distinct cut node records, each naming a distinct node, is no longer than the list
/// of nodes.
proof fn lemma_cut_nodes_fit(v: BuilderView)
    requires
        v.cut_nodes_linked(),
        v.cut_nodes.len() <= usize::MAX,
    ensures
        v.cut_nodes.len() <= v.node_data.len(),
{
    let s = Seq::new(v.cut_nodes.len(), |k: int| v.cut_nodes[k].node as int);
    assert(s.no_duplicates()) by {
        assert forall|i: int, j: int| 0 <= i < s.len() && 0 <= j < s.len() && i != j implies s[i] != s[j] by {
            assert(v.cut_nodes[i].node < v.node_data.len());
            assert(v.cut_nodes[j].node < v.node_data.len());
            assert(v.node_data[v.cut_nodes[i].node as int].cut_node_index == Some(CutNodeIndex(i as usize)));
            assert(v.node_data[v.cut_nodes[j].node as int].cut_node_index == Some(CutNodeIndex(j as usize)));
        }
    }
    s.unique_seq_to_set();
    assert forall|x: int| s.to_set().contains(x) implies set_int_range(0, v.node_data.len() as int).contains(x) by {
        let k = choose|k: int| 0 <= k < s.len() && s[k] == x;
        assert(v.cut_nodes[k].node < v.node_data.len());
    }
    lemma_int_range(0, v.node_data.len() as int);
    lemma_len_subset(s.to_set(), set_int_range(0, v.node_data.len() as int));
}

/// The finished records of a complete builder state after cut node inference form a valid
/// decomposition, related to the state before inference as [`BuilderView::built_as`] says.
proof fn lemma_finished(v: BuilderView, w: BuilderView, d: DecompositionView, g: GraphView)
    requires
        g.valid(),
        v.wf_for(g),
        v.can_build(),
        w.wf_for(g),
        w.inferred_from(v, v.node_data.len() as int),
        w.cut_nodes.len() <= w.node_data.len(),
        w.components.len() <= usize::MAX,
        d.components == w.components,
        d.blocks == w.blocks,
        d.cut_nodes == w.cut_nodes,
        d.spqr_nodes == w.spqr_nodes,
        d.spqr_edges == w.spqr_edges,
        d.node_data.len() == w.node_data.len(),
        d.edge_data.len() == w.edge_data.len(),
        forall|n: int| 0 <= n < d.node_data.len() ==> (#[trigger] d.node_data[n]) == finished_node(w.node_data[n]),
        forall|e: int| 0 <= e < d.edge_data.len() ==> (#[trigger] d.edge_data[e]) == finished_edge(w.edge_data[e]),
    ensures
        d.valid_for(g),
        d.well_indexed(g),
        v.built_as(d),
{
    assert forall|n: int| 0 <= n < d.node_data.len() implies (#[trigger] d.node_data[n]).cut_node_index.spec_to_option()
        == w.node_data[n].cut_node_index by {
        if w.node_data[n].cut_node_index is Some {
            assert(w.node_data[n].cut_node_index.unwrap().0 < w.cut_nodes.len());
        }
    }
    assert forall|n: int| 0 <= n < d.node_data.len() implies (#[trigger] w.node_data[n]).component_index is Some by {
        assert(v.node_data[n].component_index is Some);
        assert(w.node_data[n].component_index == v.node_data[n].component_index);
    }
    assert(d.node_partition()) by {
        assert forall|n: int| 0 <= n < d.node_data.len() implies {
            &&& (#[trigger] d.node_data[n]).component_index.0 < d.components.len()
            &&& forall|c: int|
                0 <= c < d.components.len() ==> (#[trigger] d.components[c].nodes.contains(
                    n as usize) <==> d.node_data[n].component_index.0 == c)
        } by {
            assert(w.node_data[n].component_index is Some);
            assert forall|c: int|
                0 <= c < d.components.len() implies (#[trigger] d.components[c].nodes.contains(
                    n as usize) <==> d.node_data[n].component_index.0 == c) by {
                assert((c as usize) as int == c);
                assert(w.components[c].nodes.contains(n as usize) <==> w.node_data[n].component_index
                    == Some(ComponentIndex(c as usize)));
            }
        }
    }
    assert(d.edge_assignment(g)) by {
        assert forall|e: int| 0 <= e < d.edge_data.len() implies {
            &&& (#[trigger] d.edge_data[e]).component_index.0 < d.components.len()
            &&& d.edge_data[e].block_index.0 < d.blocks.len()
            &&& d.edge_data[e].spqr_node_index.0 < d.spqr_nodes.len()
            &&& d.edge_data[e].component_index == d.node_data[g.endpoints[e].0 as int].component_index
            &&& d.edge_data[e].component_index == d.node_data[g.endpoints[e].1 as int].component_index
        } by {
            assert(v.edge_data[e] == w.edge_data[e]);
            assert(w.edge_data[e].component_index is Some);
            assert(w.node_data[g.endpoints[e].0 as int].component_index is Some);
            assert(w.node_data[g.endpoints[e].1 as int].component_index is Some);
        }
    }
    assert(d.block_edge_coverage(g)) by {
        assert forall|e: int, b: BlockIndex|
            #![trigger d.edge_data[e], d.node_data[g.endpoints[e].0 as int].block_indices.contains(b)]
            0 <= e < d.edge_data.len() implies (d.edge_data[e].block_index == b <==> {
                &&& d.node_data[g.endpoints[e].0 as int].block_indices.contains(b)
                &&& d.node_data[g.endpoints[e].1 as int].block_indices.contains(b)
            }) by {
            assert(v.edge_data[e] == w.edge_data[e]);
            assert(w.edge_data[e].block_index is Some);
            assert(d.node_data[g.endpoints[e].0 as int] == finished_node(w.node_data[g.endpoints[e].0 as int]));
            assert(d.node_data[g.endpoints[e].1 as int] == finished_node(w.node_data[g.endpoints[e].1 as int]));
            assert(w.edge_data[e].block_index == Some(b) <==> {
                &&& w.node_data[g.endpoints[e].0 as int].block_indices.contains(b)
                &&& w.node_data[g.endpoints[e].1 as int].block_indices.contains(b)
            });
        }
    }
    assert(d.cut_node_rule()) by {
        assert forall|n: int| 0 <= n < d.node_data.len() implies {
            &&& (#[trigger] d.node_data[n]).block_indices.len() >= 1
            &&& (d.node_data[n].cut_node_index.spec_to_option() is Some
                <==> d.node_data[n].block_indices.len() >= 2)
        } by {
            assert(v.node_data[n].block_indices.len() >= 1);
            assert(w.node_data[n].block_indices == v.node_data[n].block_indices);
        }
    }
    assert(d.poles_shared()) by {
        assert forall|x: int| 0 <= x < d.spqr_edges.len() implies {
            let t = #[trigger] d.spqr_edges[x];
            &&& t.endpoints.0.0 < d.spqr_nodes.len()
            &&& t.endpoints.1.0 < d.spqr_nodes.len()
            &&& d.spqr_nodes[t.endpoints.0.0 as int].nodes.contains(t.virtual_edge.0)
            &&& d.spqr_nodes[t.endpoints.0.0 as int].nodes.contains(t.virtual_edge.1)
            &&& d.spqr_nodes[t.endpoints.1.0 as int].nodes.contains(t.virtual_edge.0)
            &&& d.spqr_nodes[t.endpoints.1.0 as int].nodes.contains(t.virtual_edge.1)
        } by {
            assert(w.spqr_edges[x] == d.spqr_edges[x]);
        }
    }
    assert(d.skeletons_sized()) by {
        assert forall|s: int| 0 <= s < d.spqr_nodes.len() implies (#[trigger] d.spqr_nodes[s]).nodes.len() >= 2 by {
            assert(w.spqr_nodes[s].nodes.len() >= 2);
        }
    }
    assert(d.cut_nodes_linked()) by {
        assert forall|k: int| 0 <= k < d.cut_nodes.len() implies {
            &&& (#[trigger] d.cut_nodes[k]).node < d.node_data.len()
            &&& d.node_data[d.cut_nodes[k].node as int].cut_node_index.spec_to_option() == Some(CutNodeIndex(k as usize))
        } by {
            assert(w.cut_nodes[k].node < w.node_data.len());
            assert(w.node_data[w.cut_nodes[k].node as int].cut_node_index == Some(CutNodeIndex(k as usize)));
        }
        assert forall|n: int| 0 <= n < d.node_data.len() implies ((#[trigger] d.node_data[n]).cut_node_index.spec_to_option() matches Some(
            k,
        ) ==> k.0 < d.cut_nodes.len() && d.cut_nodes[k.0 as int].node == n) by {
        }
    }
    assert(d.pole_rule()) by {
        assert forall|n: int| 0 <= n < d.node_data.len() && (#[trigger] d.node_data[n]).block_indices.len() == 1 implies (
            d.node_data[n].spqr_node_indices.len() >= 2 <==> d.is_pole(n)) by {
            assert(w.node_data[n].spqr_node_indices == v.node_data[n].spqr_node_indices);
            assert(w.node_data[n].block_indices == v.node_data[n].block_indices);
            assert(v.node_data[n].spqr_node_indices.len() >= 2 <==> v.is_pole(n));
            assert(d.spqr_edges == v.spqr_edges);
            if d.is_pole(n) {
                let x = choose|x: int|
                    0 <= x < d.spqr_edges.len() && ((#[trigger] d.spqr_edges[x]).virtual_edge.0 == n
                        || d.spqr_edges[x].virtual_edge.1 == n);
                assert(v.spqr_edges[x] == d.spqr_edges[x]);
            }
            if v.is_pole(n) {
                let x = choose|x: int|
                    0 <= x < v.spqr_edges.len() && ((#[trigger] v.spqr_edges[x]).virtual_edge.0 == n
                        || v.spqr_edges[x].virtual_edge.1 == n);
                assert(v.spqr_edges[x] == d.spqr_edges[x]);
            }
        }
    }
    assert(d.partitions_ok()) by {
        assert(w.partitions_ok());
        assert forall|x: int, i: int|
            0 <= x < d.spqr_nodes.len() && 0 <= i < d.spqr_nodes[x].nodes.len()
                implies d.node_data[(#[trigger] d.spqr_nodes[x].nodes[i]) as int].block_indices.contains(
                d.spqr_nodes[x].block,
            ) by {
            assert(w.spqr_nodes[x].nodes[i] < w.node_data.len());
            assert(w.node_data[w.spqr_nodes[x].nodes[i] as int].block_indices.contains(w.spqr_nodes[x].block));
        }
    }
    assert(d.memberships_ok()) by {
        assert forall|n: int, i: int|
            0 <= n < d.node_data.len() && 0 <= i < d.node_data[n].block_indices.len() implies {
                &&& (#[trigger] d.node_data[n].block_indices[i]).0 < d.blocks.len()
                &&& d.blocks[d.node_data[n].block_indices[i].0 as int].component
                    == d.node_data[n].component_index
            } by {
            assert(w.node_data[n].block_indices[i].0 < w.blocks.len());
            assert(w.node_data[n].component_index == Some(
                w.blocks[w.node_data[n].block_indices[i].0 as int].component,
            ));
        }
        assert forall|k: int, i: int|
            0 <= k < d.cut_nodes.len() && 0 <= i < d.cut_nodes[k].adjacent_blocks.len() implies {
                &&& (#[trigger] d.cut_nodes[k].adjacent_blocks[i]).0 < d.blocks.len()
                &&& d.blocks[d.cut_nodes[k].adjacent_blocks[i].0 as int].component == d.cut_nodes[k].component
                &&& d.node_data[d.cut_nodes[k].node as int].block_indices.contains(
                    d.cut_nodes[k].adjacent_blocks[i],
                )
            } by {
            let n = w.cut_nodes[k].node as int;
            let b = w.cut_nodes[k].adjacent_blocks[i];
            assert(n < w.node_data.len());
            assert(w.node_data[n].block_indices.contains(b));
            let j = choose|j: int| 0 <= j < w.node_data[n].block_indices.len() && w.node_data[n].block_indices[j] == b;
            assert(w.node_data[n].block_indices[j].0 < w.blocks.len());
            assert(w.node_data[n].component_index == Some(w.blocks[b.0 as int].component));
            assert(w.node_data[n].component_index == Some(w.cut_nodes[k].component));
        }
    }
    assert(d.links_ok()) by {
        assert forall|b: int, i: int|
            0 <= b < d.blocks.len() && 0 <= i < d.blocks[b].nodes.len()
                implies d.node_data[(#[trigger] d.blocks[b].nodes[i]) as int].block_indices.contains(
                BlockIndex(b as usize),
            ) by {
            assert(w.node_data[w.blocks[b].nodes[i] as int].block_indices.contains(BlockIndex(b as usize)));
            assert(w.blocks[b].nodes[i] < w.node_data.len());
        }
        assert forall|s: int, i: int|
            0 <= s < d.spqr_nodes.len() && 0 <= i < d.spqr_nodes[s].nodes.len()
                implies d.node_data[(#[trigger] d.spqr_nodes[s].nodes[i]) as int].spqr_node_indices.contains(
                SPQRNodeIndex(s as usize),
            ) by {
            assert(w.node_data[w.spqr_nodes[s].nodes[i] as int].spqr_node_indices.contains(SPQRNodeIndex(s as usize)));
            assert(w.spqr_nodes[s].nodes[i] < w.node_data.len());
        }
        assert forall|s: int, e: int|
            0 <= s < d.spqr_nodes.len() && 0 <= e < d.edge_data.len() implies (
            #[trigger] d.spqr_nodes[s].edges.contains(e as usize) <==> d.edge_data[e].spqr_node_index
                == SPQRNodeIndex(s as usize)) by {
            assert(w.spqr_nodes[s].edges.contains(e as usize) <==> w.edge_data[e].spqr_node_index
                == Some(SPQRNodeIndex(s as usize)));
            assert(v.edge_data[e] == w.edge_data[e]);
            assert(w.edge_data[e].spqr_node_index is Some);
        }
        assert forall|e: int| 0 <= e < d.edge_data.len() implies (#[trigger] d.edge_data[e]).block_index
            == d.spqr_nodes[d.edge_data[e].spqr_node_index.0 as int].block by {
            assert(v.edge_data[e] == w.edge_data[e]);
            assert(w.edge_data[e].spqr_node_index is Some);
            assert(w.edge_data[e].spqr_node_index matches Some(s)
                ==> w.edge_data[e].block_index == Some(w.spqr_nodes[s.0 as int].block));
        }
    }
    assert(d.well_indexed(g)) by {
        assert forall|x: int| 0 <= x < d.spqr_edges.len() implies {
            let t = #[trigger] d.spqr_edges[x];
            &&& t.endpoints.0.0 < d.spqr_nodes.len()
            &&& t.endpoints.1.0 < d.spqr_nodes.len()
            &&& t.virtual_edge.0 < g.node_count()
            &&& t.virtual_edge.1 < g.node_count()
        } by {
            let t = w.spqr_edges[x];
            assert(t == d.spqr_edges[x]);
            let u = w.spqr_nodes[t.endpoints.0.0 as int];
            assert(u.nodes.contains(t.virtual_edge.0));
            assert(u.nodes.contains(t.virtual_edge.1));
            let i = choose|i: int| 0 <= i < u.nodes.len() && u.nodes[i] == t.virtual_edge.0;
            let j = choose|j: int| 0 <= j < u.nodes.len() && u.nodes[j] == t.virtual_edge.1;
            assert(u.nodes[i] < w.node_data.len());
            assert(u.nodes[j] < w.node_data.len());
        }
        assert forall|k: int| 0 <= k < d.cut_nodes.len() implies (#[trigger] d.cut_nodes[k]).node < g.node_count() by {
            assert(w.cut_nodes[k].node < w.node_data.len());
        }
    }
    assert(v.built_as(d)) by {
        assert forall|n: int| 0 <= n < v.node_data.len() implies {
            &&& (#[trigger] d.node_data[n]).component_index == v.node_data[n].component_index.unwrap()
            &&& d.node_data[n].block_indices == v.node_data[n].block_indices
            &&& d.node_data[n].spqr_node_indices == v.node_data[n].spqr_node_indices
            &&& d.node_data[n].extra_data == v.node_data[n].extra_data
            &&& (v.node_data[n].cut_node_index matches Some(k) ==> d.node_data[n].cut_node_index.spec_to_option() == Some(k))
        } by {
        }
        assert forall|e: int| 0 <= e < v.edge_data.len() implies (#[trigger] d.edge_data[e]) == finished_edge(v.edge_data[e]) by {
            assert(w.edge_data[e] == v.edge_data[e]);
        }
    }
}

/// A copy of a list of blocks.
fn copy_blocks(list: &Vec<BlockIndex>) -> (r: Vec<BlockIndex>)
    ensures
        r@ == list@,
{
    let mut r: Vec<BlockIndex> = Vec::new();
    let mut i: usize = 0;
    while i < list.len()
        invariant
            0 <= i <= list@.len(),
            r@ == list@.subrange(0, i as int),
        decreases list@.len() - i,
    {
        r.push(list[i]);
        assert(r@ =~= list@.subrange(0, i + 1));
        i = i + 1;
    }
    assert(list@.subrange(0, list@.len() as int) =~= list@);
    r
}

/// Why a piece of a decomposition was rejected.
#[derive(Clone, Copy, PartialEq, Eq, Structural, Debug)]
pub enum BuildError {
    /// A component was declared without nodes.
    EmptyComponent,
    /// A block was declared without nodes.
    EmptyBlock,
    /// A cut node was declared without blocks.
    EmptyCutNode,
    /// An SPQR node was declared with fewer than two vertices.
    TooFewSPQRNodeVertices,
    /// A node index is not a node of the graph.
    NodeOutOfRange,
    /// An edge index is not an edge of the graph.
    EdgeOutOfRange,
    /// A component index does not name a component added so far.
    UnknownComponent,
    /// A block index does not name a block added so far.
    UnknownBlock,
    /// An SPQR node index does not name an SPQR node added so far.
    UnknownSPQRNode,
    /// A node already belongs to a component, or is listed twice.
    NodeAlreadyInComponent,
    /// An edge would join two different components.
    EdgeInTwoComponents,
    /// A node is not a member of the component it is placed under.
    NodeNotInComponent,
    /// A node is listed twice for one block.
    NodeAlreadyInBlock,
    /// An edge has both endpoints in two different blocks.
    EdgeInTwoBlocks,
    /// A node already carries annotation text.
    ExtraDataAlreadySet,
    /// A node already has a cut node record.
    NodeAlreadyCutNode,
    /// A node is not a member of a block it is placed under.
    NodeNotInBlock,
    /// A block is listed twice for one cut node.
    DuplicateBlock,
    /// A node is listed twice for one SPQR node.
    NodeAlreadyInSPQRNode,
    /// An edge already belongs to an SPQR node.
    EdgeAlreadyInSPQRNode,
    /// An edge does not belong to the block of the SPQR node it is placed in.
    EdgeOutsideBlock,
    /// An endpoint of an edge is not a vertex of the SPQR node it is placed in.
    EdgeNotInSPQRNode,
    /// The two endpoints of an SPQR edge lie in different blocks, or not in the given block.
    SPQREdgeBetweenDifferentBlocks,
    /// A pole of an SPQR edge is not a vertex of both skeletons it joins.
    PoleNotShared,
    /// An arena has no index left below the reserved value.
    IndexSpaceExhausted,
    /// Some node or edge was never assigned a component, block and SPQR node.
    Incomplete,
    /// A declared cut node does not belong to exactly its listed blocks, or to fewer than two.
    CutNodeMismatch,
    /// A node of a single block lies in two or more SPQR nodes without being a pole of an SPQR
    /// edge, or is a pole while lying in fewer.
    PoleMismatch,
}

/// What the builder has recorded of one node so far.
struct SPQRDecompositionNodeDataBuilder {
    component_index: Option<ComponentIndex>,
    block_indices: Vec<BlockIndex>,
    cut_node_index: Option<CutNodeIndex>,
    spqr_node_indices: Vec<SPQRNodeIndex>,
    extra_data: String,
}

/// What the builder has recorded of one edge so far.
struct SPQRDecompositionEdgeDataBuilder {
    component_index: Option<ComponentIndex>,
    block_index: Option<BlockIndex>,
    spqr_node_index: Option<SPQRNodeIndex>,
    extra_data: String,
}

pub struct NodeScratchView {
    pub component_index: Option<ComponentIndex>,
    pub block_indices: Seq<BlockIndex>,
    pub cut_node_index: Option<CutNodeIndex>,
    pub spqr_node_indices: Seq<SPQRNodeIndex>,
    pub extra_data: Seq<char>,
}

pub struct EdgeScratchView {
    pub component_index: Option<ComponentIndex>,
    pub block_index: Option<BlockIndex>,
    pub spqr_node_index: Option<SPQRNodeIndex>,
    pub extra_data: Seq<char>,
}

impl View for SPQRDecompositionNodeDataBuilder {
    type V = NodeScratchView;

    closed spec fn view(&self) -> NodeScratchView {
        NodeScratchView {
            component_index: self.component_index,
            block_indices: self.block_indices@,
            cut_node_index: self.cut_node_index,
            spqr_node_indices: self.spqr_node_indices@,
            extra_data: self.extra_data@,
        }
    }
}

impl View for SPQRDecompositionEdgeDataBuilder {
    type V = EdgeScratchView;

    closed spec fn view(&self) -> EdgeScratchView {
        EdgeScratchView {
            component_index: self.component_index,
            block_index: self.block_index,
            spqr_node_index: self.spqr_node_index,
            extra_data: self.extra_data@,
        }
    }
}

/// The record of a node that nothing has been assigned to yet.
pub open spec fn unassigned_node() -> NodeScratchView {
    NodeScratchView {
        component_index: None,
        block_indices: Seq::empty(),
        cut_node_index: None,
        spqr_node_indices: Seq::empty(),
        extra_data: Seq::empty(),
    }
}

/// The record of an edge that nothing has been assigned to yet.
pub open spec fn unassigned_edge() -> EdgeScratchView {
    EdgeScratchView {
        component_index: None,
        block_index: None,
        spqr_node_index: None,
        extra_data: Seq::empty(),
    }
}

/// The builder's state, as plain values.
pub struct BuilderView {
    pub components: Seq<ComponentView>,
    pub blocks: Seq<BlockView>,
    pub cut_nodes: Seq<CutNodeView>,
    pub spqr_nodes: Seq<SPQRNodeView>,
    pub spqr_edges: Seq<SPQREdge>,
    pub node_data: Seq<NodeScratchView>,
    pub edge_data: Seq<EdgeScratchView>,
}

impl BuilderView {
    /// Every stored index points into its arena.
    pub open spec fn bounds_ok(self) -> bool {
        &&& forall|n: int|
            0 <= n < self.node_data.len() ==> {
                &&& ((#[trigger] self.node_data[n]).component_index matches Some(c) ==> c.0
                    < self.components.len())
                &&& (self.node_data[n].cut_node_index matches Some(k) ==> k.0 < self.cut_nodes.len())
                &&& forall|i: int|
                    0 <= i < self.node_data[n].block_indices.len() ==> (
                    #[trigger] self.node_data[n].block_indices[i]).0 < self.blocks.len()
                &&& forall|i: int|
                    0 <= i < self.node_data[n].spqr_node_indices.len() ==> (
                    #[trigger] self.node_data[n].spqr_node_indices[i]).0 < self.spqr_nodes.len()
                &&& self.node_data[n].block_indices.no_duplicates()
            }
        &&& forall|e: int|
            0 <= e < self.edge_data.len() ==> {
                &&& ((#[trigger] self.edge_data[e]).component_index matches Some(c) ==> c.0
                    < self.components.len())
                &&& (self.edge_data[e].block_index matches Some(b) ==> b.0 < self.blocks.len())
                &&& (self.edge_data[e].spqr_node_index matches Some(s) ==> s.0
                    < self.spqr_nodes.len())
            }
        &&& forall|b: int|
            0 <= b < self.blocks.len() ==> (#[trigger] self.blocks[b]).component.0
                < self.components.len()
        &&& forall|s: int|
            0 <= s < self.spqr_nodes.len() ==> (#[trigger] self.spqr_nodes[s]).block.0
                < self.blocks.len()
    }

    /// A component's node list holds a node exactly when the node's record names that component.
    pub open spec fn components_partition(self) -> bool {
        forall|n: int, c: int|
            0 <= n < self.node_data.len() && 0 <= c < self.components.len() ==> (
            #[trigger] self.components[c].nodes.contains(n as usize) <==> (#[trigger] self.node_data[n]).component_index
                == Some(ComponentIndex(c as usize)))
    }

    /// An edge has the component of whichever of its endpoints has one, and none while neither
    /// has.
    pub open spec fn edge_components_ok(self, g: GraphView) -> bool {
        forall|e: int|
            0 <= e < self.edge_data.len() ==> {
                let x = g.endpoints[e].0 as int;
                let y = g.endpoints[e].1 as int;
                &&& (self.node_data[x].component_index is Some ==> (#[trigger] self.edge_data[e]).component_index
                    == self.node_data[x].component_index)
                &&& (self.node_data[y].component_index is Some ==> self.edge_data[e].component_index
                    == self.node_data[y].component_index)
                &&& (self.node_data[x].component_index is None
                    && self.node_data[y].component_index is None
                    ==> self.edge_data[e].component_index is None)
            }
    }

    /// An edge belongs to a block exactly when both of its endpoints are members of it.
    pub open spec fn edge_blocks_ok(self, g: GraphView) -> bool {
        forall|e: int, b: BlockIndex|
            #![trigger self.edge_data[e], self.node_data[g.endpoints[e].0 as int].block_indices.contains(b)]
            0 <= e < self.edge_data.len() ==> (self.edge_data[e].block_index == Some(b) <==> {
                &&& self.node_data[g.endpoints[e].0 as int].block_indices.contains(b)
                &&& self.node_data[g.endpoints[e].1 as int].block_indices.contains(b)
            })
    }

    /// Both poles of every SPQR edge are vertices of both skeletons that it joins.
    pub open spec fn poles_shared(self) -> bool {
        forall|x: int|
            0 <= x < self.spqr_edges.len() ==> {
                let t = #[trigger] self.spqr_edges[x];
                &&& t.endpoints.0.0 < self.spqr_nodes.len()
                &&& t.endpoints.1.0 < self.spqr_nodes.len()
                &&& self.spqr_nodes[t.endpoints.0.0 as int].nodes.contains(t.virtual_edge.0)
                &&& self.spqr_nodes[t.endpoints.0.0 as int].nodes.contains(t.virtual_edge.1)
                &&& self.spqr_nodes[t.endpoints.1.0 as int].nodes.contains(t.virtual_edge.0)
                &&& self.spqr_nodes[t.endpoints.1.0 as int].nodes.contains(t.virtual_edge.1)
            }
    }

    /// Every skeleton has at least two vertices.
    pub open spec fn skeletons_sized(self) -> bool {
        forall|s: int| 0 <= s < self.spqr_nodes.len() ==> (#[trigger] self.spqr_nodes[s]).nodes.len() >= 2
    }

    /// Each cut node record and its node's record name each other.
    pub open spec fn cut_nodes_linked(self) -> bool {
        &&& forall|k: int|
            0 <= k < self.cut_nodes.len() ==> {
                &&& (#[trigger] self.cut_nodes[k]).node < self.node_data.len()
                &&& self.node_data[self.cut_nodes[k].node as int].cut_node_index == Some(
                    CutNodeIndex(k as usize),
                )
            }
        &&& forall|n: int|
            0 <= n < self.node_data.len() ==> ((#[trigger] self.node_data[n]).cut_node_index matches Some(
                k,
            ) ==> self.cut_nodes[k.0 as int].node == n)
    }

    /// The state after node `n`'s annotation text is set to `text`.
    pub open spec fn with_node_text(self, n: int, text: Seq<char>) -> BuilderView {
        BuilderView {
            node_data: self.node_data.update(
                n,
                NodeScratchView { extra_data: text, ..self.node_data[n] },
            ),
            ..self
        }
    }

    /// Whether a component with these nodes may be added: at least one node, a free index, every
    /// node in the graph, unassigned and listed once, and no edge at any of them already claimed
    /// by a component.
    pub open spec fn can_add_component(self, g: GraphView, nodes: Seq<usize>) -> bool {
        &&& nodes.len() > 0
        &&& self.components.len() < NO_INDEX
        &&& nodes.no_duplicates()
        &&& forall|i: int|
            0 <= i < nodes.len() ==> {
                &&& (#[trigger] nodes[i]) < self.node_data.len()
                &&& self.node_data[nodes[i] as int].component_index is None
            }
        &&& forall|i: int, e: int|
            0 <= i < nodes.len() && 0 <= e < self.edge_data.len() && g.is_endpoint(e, #[trigger] nodes[i] as int)
                ==> (#[trigger] self.edge_data[e]).component_index is None
    }

    /// Whether edge `e` has an endpoint among `nodes`.
    pub open spec fn touches(g: GraphView, e: int, nodes: Seq<usize>) -> bool {
        nodes.contains(g.endpoints[e].0) || nodes.contains(g.endpoints[e].1)
    }

    /// The state after a component with these nodes is added: the nodes, and the edges at them,
    /// are assigned to it.
    pub open spec fn with_component(self, g: GraphView, nodes: Seq<usize>) -> BuilderView {
        let c = ComponentIndex(self.components.len() as usize);
        BuilderView {
            components: self.components.push(
                ComponentView { nodes: nodes, blocks: Seq::empty(), cut_nodes: Seq::empty() },
            ),
            node_data: Seq::new(
                self.node_data.len(),
                |n: int|
                    if nodes.contains(n as usize) {
                        NodeScratchView { component_index: Some(c), ..self.node_data[n] }
                    } else {
                        self.node_data[n]
                    },
            ),
            edge_data: Seq::new(
                self.edge_data.len(),
                |e: int|
                    if Self::touches(g, e, nodes) {
                        EdgeScratchView { component_index: Some(c), ..self.edge_data[e] }
                    } else {
                        self.edge_data[e]
                    },
            ),
            ..self
        }
    }

    /// Whether a block with these nodes may be added under `component`: at least one node, a free
    /// index, an existing component, every node in the graph, in that component and listed once,
    /// and no edge with both endpoints among the nodes already in a block.
    pub open spec fn can_add_block(self, g: GraphView, component: ComponentIndex, nodes: Seq<usize>) -> bool {
        &&& nodes.len() > 0
        &&& self.blocks.len() < NO_INDEX
        &&& component.0 < self.components.len()
        &&& nodes.no_duplicates()
        &&& forall|i: int|
            0 <= i < nodes.len() ==> {
                &&& (#[trigger] nodes[i]) < self.node_data.len()
                &&& self.node_data[nodes[i] as int].component_index == Some(component)
            }
        &&& forall|e: int|
            0 <= e < self.edge_data.len() && Self::inside(g, e, nodes) ==> (#[trigger] self.edge_data[e]).block_index is None
    }

    /// Whether both endpoints of edge `e` are among `nodes`.
    pub open spec fn inside(g: GraphView, e: int, nodes: Seq<usize>) -> bool {
        nodes.contains(g.endpoints[e].0) && nodes.contains(g.endpoints[e].1)
    }

    /// The state after a block with these nodes is added under `component`: the nodes become its
    /// members, and the edges with both endpoints among them belong to it.
    pub open spec fn with_block(self, g: GraphView, component: ComponentIndex, nodes: Seq<usize>) -> BuilderView {
        let b = BlockIndex(self.blocks.len() as usize);
        BuilderView {
            components: self.components.update(
                component.0 as int,
                ComponentView {
                    blocks: self.components[component.0 as int].blocks.push(b),
                    ..self.components[component.0 as int]
                },
            ),
            blocks: self.blocks.push(
                BlockView {
                    component: component,
                    nodes: nodes,
                    cut_nodes: Seq::empty(),
                    spqr_nodes: Seq::empty(),
                    spqr_edges: Seq::empty(),
                },
            ),
            node_data: Seq::new(
                self.node_data.len(),
                |n: int|
                    if nodes.contains(n as usize) {
                        NodeScratchView {
                            block_indices: self.node_data[n].block_indices.push(b),
                            ..self.node_data[n]
                        }
                    } else {
                        self.node_data[n]
                    },
            ),
            edge_data: Seq::new(
                self.edge_data.len(),
                |e: int|
                    if Self::inside(g, e, nodes) {
                        EdgeScratchView { block_index: Some(b), ..self.edge_data[e] }
                    } else {
                        self.edge_data[e]
                    },
            ),
            ..self
        }
    }

    /// Whether `node` may be declared a cut node adjacent to `blocks`: at least one block, a free
    /// index, a node of the graph in a component and not yet a cut node, and each block listed
    /// once and among the node's blocks.
    pub open spec fn can_add_cut_node(self, node: usize, blocks: Seq<BlockIndex>) -> bool {
        &&& blocks.len() > 0
        &&& self.cut_nodes.len() < NO_INDEX
        &&& node < self.node_data.len()
        &&& self.node_data[node as int].cut_node_index is None
        &&& self.node_data[node as int].component_index is Some
        &&& blocks.no_duplicates()
        &&& forall|i: int| 0 <= i < blocks.len() ==> self.node_data[node as int].block_indices.contains(#[trigger] blocks[i])
    }

    /// The state after `node` is declared a cut node adjacent to `blocks`.
    pub open spec fn with_cut_node(self, node: usize, blocks: Seq<BlockIndex>) -> BuilderView {
        let k = CutNodeIndex(self.cut_nodes.len() as usize);
        let c = self.node_data[node as int].component_index.unwrap();
        BuilderView {
            components: self.components.update(
                c.0 as int,
                ComponentView {
                    cut_nodes: self.components[c.0 as int].cut_nodes.push(k),
                    ..self.components[c.0 as int]
                },
            ),
            blocks: Seq::new(
                self.blocks.len(),
                |b: int|
                    if blocks.contains(BlockIndex(b as usize)) {
                        BlockView { cut_nodes: self.blocks[b].cut_nodes.push(k), ..self.blocks[b] }
                    } else {
                        self.blocks[b]
                    },
            ),
            cut_nodes: self.cut_nodes.push(
                CutNodeView { component: c, node: node, adjacent_blocks: blocks },
            ),
            node_data: self.node_data.update(
                node as int,
                NodeScratchView { cut_node_index: Some(k), ..self.node_data[node as int] },
            ),
            ..self
        }
    }

    /// Whether an SPQR node with these vertices may be added to `block`: at least two vertices,
    /// a free index, an existing block, and every vertex a node of the graph, a member of the
    /// block and listed once.
    pub open spec fn can_add_spqr_node(self, block: BlockIndex, nodes: Seq<usize>) -> bool {
        &&& nodes.len() >= 2
        &&& self.spqr_nodes.len() < NO_INDEX
        &&& block.0 < self.blocks.len()
        &&& nodes.no_duplicates()
        &&& forall|i: int|
            0 <= i < nodes.len() ==> {
                &&& (#[trigger] nodes[i]) < self.node_data.len()
                &&& self.node_data[nodes[i] as int].block_indices.contains(block)
            }
    }

    /// The state after an SPQR node with these vertices is added to `block`.
    pub open spec fn with_spqr_node(
        self,
        block: BlockIndex,
        nodes: Seq<usize>,
        spqr_node_type: SPQRNodeType,
    ) -> BuilderView {
        let s = SPQRNodeIndex(self.spqr_nodes.len() as usize);
        BuilderView {
            blocks: self.blocks.update(
                block.0 as int,
                BlockView {
                    spqr_nodes: self.blocks[block.0 as int].spqr_nodes.push(s),
                    ..self.blocks[block.0 as int]
                },
            ),
            spqr_nodes: self.spqr_nodes.push(
                SPQRNodeView {
                    block: block,
                    nodes: nodes,
                    edges: Seq::empty(),
                    spqr_node_type: spqr_node_type,
                    spqr_edges: Seq::empty(),
                },
            ),
            node_data: Seq::new(
                self.node_data.len(),
                |n: int|
                    if nodes.contains(n as usize) {
                        NodeScratchView {
                            spqr_node_indices: self.node_data[n].spqr_node_indices.push(s),
                            ..self.node_data[n]
                        }
                    } else {
                        self.node_data[n]
                    },
            ),
            ..self
        }
    }

    /// Whether `edge` may be placed in `spqr_node`: both exist, the edge is in no SPQR node yet,
    /// it belongs to the SPQR node's block, and both of its endpoints are vertices of that SPQR
    /// node.
    pub open spec fn can_add_edge_to_spqr_node(self, g: GraphView, edge: usize, spqr_node: SPQRNodeIndex) -> bool {
        &&& edge < self.edge_data.len()
        &&& spqr_node.0 < self.spqr_nodes.len()
        &&& self.edge_data[edge as int].spqr_node_index is None
        &&& self.edge_data[edge as int].block_index == Some(self.spqr_nodes[spqr_node.0 as int].block)
        &&& self.spqr_nodes[spqr_node.0 as int].nodes.contains(g.endpoints[edge as int].0)
        &&& self.spqr_nodes[spqr_node.0 as int].nodes.contains(g.endpoints[edge as int].1)
    }

    /// The state after `edge` is placed in `spqr_node`.
    pub open spec fn with_edge_in_spqr_node(self, edge: usize, spqr_node: SPQRNodeIndex) -> BuilderView {
        BuilderView {
            spqr_nodes: self.spqr_nodes.update(
                spqr_node.0 as int,
                SPQRNodeView {
                    edges: self.spqr_nodes[spqr_node.0 as int].edges.push(edge),
                    ..self.spqr_nodes[spqr_node.0 as int]
                },
            ),
            edge_data: self.edge_data.update(
                edge as int,
                EdgeScratchView { spqr_node_index: Some(spqr_node), ..self.edge_data[edge as int] },
            ),
            ..self
        }
    }

    /// The block an SPQR edge goes into: the one given, else the block of its first endpoint.
    pub open spec fn spqr_edge_block(
        self,
        block: Option<BlockIndex>,
        endpoints: (SPQRNodeIndex, SPQRNodeIndex),
    ) -> BlockIndex {
        match block {
            Some(b) => b,
            None => self.spqr_nodes[endpoints.0.0 as int].block,
        }
    }

    /// Whether an SPQR edge may join `endpoints` with poles `virtual_edge`: a free index, both
    /// SPQR nodes existing and in the edge's block, and both poles vertices of both of them.
    pub open spec fn can_add_spqr_edge(
        self,
        block: Option<BlockIndex>,
        endpoints: (SPQRNodeIndex, SPQRNodeIndex),
        virtual_edge: (usize, usize),
    ) -> bool {
        &&& self.spqr_edges.len() < NO_INDEX
        &&& endpoints.0.0 < self.spqr_nodes.len()
        &&& endpoints.1.0 < self.spqr_nodes.len()
        &&& self.spqr_nodes[endpoints.0.0 as int].block == self.spqr_edge_block(block, endpoints)
        &&& self.spqr_nodes[endpoints.1.0 as int].block == self.spqr_edge_block(block, endpoints)
        &&& self.spqr_nodes[endpoints.0.0 as int].nodes.contains(virtual_edge.0)
        &&& self.spqr_nodes[endpoints.0.0 as int].nodes.contains(virtual_edge.1)
        &&& self.spqr_nodes[endpoints.1.0 as int].nodes.contains(virtual_edge.0)
        &&& self.spqr_nodes[endpoints.1.0 as int].nodes.contains(virtual_edge.1)
    }

    /// The error that adding an SPQR edge gives when it may not be added: a full arena, then an
    /// unknown endpoint, then endpoints outside the edge's block, then a pole not shared.
    pub open spec fn spqr_edge_error(
        self,
        block: Option<BlockIndex>,
        endpoints: (SPQRNodeIndex, SPQRNodeIndex),
    ) -> BuildError {
        if self.spqr_edges.len() >= NO_INDEX {
            BuildError::IndexSpaceExhausted
        } else if endpoints.0.0 >= self.spqr_nodes.len() || endpoints.1.0 >= self.spqr_nodes.len() {
            BuildError::UnknownSPQRNode
        } else if self.spqr_nodes[endpoints.0.0 as int].block != self.spqr_edge_block(block, endpoints)
            || self.spqr_nodes[endpoints.1.0 as int].block != self.spqr_edge_block(block, endpoints) {
            BuildError::SPQREdgeBetweenDifferentBlocks
        } else {
            BuildError::PoleNotShared
        }
    }

    /// The state after an SPQR edge joining `endpoints` with poles `virtual_edge` is added to
    /// `block`; its index is entered once in each distinct endpoint's list.
    pub open spec fn with_spqr_edge(
        self,
        block: BlockIndex,
        endpoints: (SPQRNodeIndex, SPQRNodeIndex),
        virtual_edge: (usize, usize),
    ) -> BuilderView {
        let x = SPQREdgeIndex(self.spqr_edges.len() as usize);
        let u = endpoints.0.0 as int;
        let w = endpoints.1.0 as int;
        BuilderView {
            blocks: self.blocks.update(
                block.0 as int,
                BlockView {
                    spqr_edges: self.blocks[block.0 as int].spqr_edges.push(x),
                    ..self.blocks[block.0 as int]
                },
            ),
            spqr_nodes: Seq::new(
                self.spqr_nodes.len(),
                |s: int|
                    if s == u || s == w {
                        SPQRNodeView { spqr_edges: self.spqr_nodes[s].spqr_edges.push(x), ..self.spqr_nodes[s] }
                    } else {
                        self.spqr_nodes[s]
                    },
            ),
            spqr_edges: self.spqr_edges.push(
                SPQREdge { endpoints: endpoints, virtual_edge: virtual_edge },
            ),
            ..self
        }
    }

    /// Whether the pieces form a whole decomposition: every node has a component, a block and an
    /// SPQR node, every edge has a component, a block and an SPQR node, and every declared cut
    /// node belongs to two or more blocks, as many as its record lists.
    /// Whether node `n` is a pole of some SPQR edge.
    pub open spec fn is_pole(self, n: int) -> bool {
        exists|x: int|
            0 <= x < self.spqr_edges.len() && ((#[trigger] self.spqr_edges[x]).virtual_edge.0 == n
                || self.spqr_edges[x].virtual_edge.1 == n)
    }

    pub open spec fn can_build(self) -> bool {
        &&& forall|n: int|
            0 <= n < self.node_data.len() ==> {
                &&& (#[trigger] self.node_data[n]).component_index is Some
                &&& self.node_data[n].block_indices.len() >= 1
                &&& self.node_data[n].spqr_node_indices.len() >= 1
            }
        &&& forall|e: int|
            0 <= e < self.edge_data.len() ==> {
                &&& (#[trigger] self.edge_data[e]).component_index is Some
                &&& self.edge_data[e].block_index is Some
                &&& self.edge_data[e].spqr_node_index is Some
            }
        &&& forall|n: int|
            0 <= n < self.node_data.len() ==> ((#[trigger] self.node_data[n]).cut_node_index matches Some(k) ==> {
                &&& self.node_data[n].block_indices.len() >= 2
                &&& self.cut_nodes[k.0 as int].adjacent_blocks.len() == self.node_data[n].block_indices.len()
            })
        &&& forall|n: int|
            0 <= n < self.node_data.len() && (#[trigger] self.node_data[n]).block_indices.len() == 1 ==> (
            self.node_data[n].spqr_node_indices.len() >= 2 <==> self.is_pole(n))
    }

    /// How the records of the builder relate to those of the finished decomposition `d`: the
    /// arenas and records are carried over; the cut node arena and the cut node lists of
    /// components and blocks gain entries only at their ends; each new cut node record stands for
    /// a node in two or more blocks that had none, lists exactly that node's blocks, and the new
    /// records follow node order.
    pub open spec fn built_as(self, d: DecompositionView) -> bool {
        &&& d.components.len() == self.components.len()
        &&& forall|c: int|
            0 <= c < self.components.len() ==> {
                &&& (#[trigger] d.components[c]).nodes == self.components[c].nodes
                &&& d.components[c].blocks == self.components[c].blocks
                &&& d.components[c].cut_nodes.len() >= self.components[c].cut_nodes.len()
                &&& d.components[c].cut_nodes.subrange(0, self.components[c].cut_nodes.len() as int)
                    == self.components[c].cut_nodes
            }
        &&& d.blocks.len() == self.blocks.len()
        &&& forall|b: int|
            0 <= b < self.blocks.len() ==> {
                &&& (#[trigger] d.blocks[b]).component == self.blocks[b].component
                &&& d.blocks[b].nodes == self.blocks[b].nodes
                &&& d.blocks[b].spqr_nodes == self.blocks[b].spqr_nodes
                &&& d.blocks[b].spqr_edges == self.blocks[b].spqr_edges
                &&& d.blocks[b].cut_nodes.len() >= self.blocks[b].cut_nodes.len()
                &&& d.blocks[b].cut_nodes.subrange(0, self.blocks[b].cut_nodes.len() as int)
                    == self.blocks[b].cut_nodes
            }
        &&& d.cut_nodes.len() >= self.cut_nodes.len()
        &&& d.cut_nodes.subrange(0, self.cut_nodes.len() as int) == self.cut_nodes
        &&& forall|k: int|
            self.cut_nodes.len() <= k < d.cut_nodes.len() ==> {
                let n = (#[trigger] d.cut_nodes[k]).node as int;
                &&& 0 <= n < self.node_data.len()
                &&& self.node_data[n].cut_node_index is None
                &&& self.node_data[n].block_indices.len() >= 2
                &&& d.cut_nodes[k].adjacent_blocks == self.node_data[n].block_indices
                &&& d.cut_nodes[k].component == self.node_data[n].component_index.unwrap()
            }
        &&& forall|k: int, j: int|
            self.cut_nodes.len() <= k < j < d.cut_nodes.len() ==> (#[trigger] d.cut_nodes[k]).node
                < (#[trigger] d.cut_nodes[j]).node
        &&& forall|c: int|
            0 <= c < self.components.len() ==> (#[trigger] d.components[c]).cut_nodes == self.components[c].cut_nodes
                + component_cut_list(
                d.cut_nodes.subrange(self.cut_nodes.len() as int, d.cut_nodes.len() as int),
                self.cut_nodes.len() as int,
                c,
            )
        &&& forall|b: int|
            0 <= b < self.blocks.len() ==> (#[trigger] d.blocks[b]).cut_nodes == self.blocks[b].cut_nodes
                + block_cut_list(
                d.cut_nodes.subrange(self.cut_nodes.len() as int, d.cut_nodes.len() as int),
                self.cut_nodes.len() as int,
                b,
            )
        &&& d.spqr_nodes == self.spqr_nodes
        &&& d.spqr_edges == self.spqr_edges
        &&& d.node_data.len() == self.node_data.len()
        &&& forall|n: int|
            0 <= n < self.node_data.len() ==> {
                &&& (#[trigger] d.node_data[n]).component_index == self.node_data[n].component_index.unwrap()
                &&& d.node_data[n].block_indices == self.node_data[n].block_indices
                &&& d.node_data[n].spqr_node_indices == self.node_data[n].spqr_node_indices
                &&& d.node_data[n].extra_data == self.node_data[n].extra_data
                &&& (self.node_data[n].cut_node_index matches Some(k) ==> d.node_data[n].cut_node_index.spec_to_option() == Some(k))
            }
        &&& d.edge_data.len() == self.edge_data.len()
        &&& forall|e: int| 0 <= e < self.edge_data.len() ==> (#[trigger] d.edge_data[e]) == finished_edge(self.edge_data[e])
    }

    /// How the state after cut node inference relates to the state `v` before it, where the
    /// nodes below `upto` have been handled: see [`BuilderView::built_as`].
    pub open spec fn inferred_from(self, v: BuilderView, upto: int) -> bool {
        &&& self.components.len() == v.components.len()
        &&& forall|c: int|
            0 <= c < v.components.len() ==> {
                &&& (#[trigger] self.components[c]).nodes == v.components[c].nodes
                &&& self.components[c].blocks == v.components[c].blocks
                &&& self.components[c].cut_nodes.len() >= v.components[c].cut_nodes.len()
                &&& self.components[c].cut_nodes.subrange(0, v.components[c].cut_nodes.len() as int)
                    == v.components[c].cut_nodes
            }
        &&& self.blocks.len() == v.blocks.len()
        &&& forall|b: int|
            0 <= b < v.blocks.len() ==> {
                &&& (#[trigger] self.blocks[b]).component == v.blocks[b].component
                &&& self.blocks[b].nodes == v.blocks[b].nodes
                &&& self.blocks[b].spqr_nodes == v.blocks[b].spqr_nodes
                &&& self.blocks[b].spqr_edges == v.blocks[b].spqr_edges
                &&& self.blocks[b].cut_nodes.len() >= v.blocks[b].cut_nodes.len()
                &&& self.blocks[b].cut_nodes.subrange(0, v.blocks[b].cut_nodes.len() as int)
                    == v.blocks[b].cut_nodes
            }
        &&& self.cut_nodes.len() >= v.cut_nodes.len()
        &&& self.cut_nodes.subrange(0, v.cut_nodes.len() as int) == v.cut_nodes
        &&& forall|k: int|
            v.cut_nodes.len() <= k < self.cut_nodes.len() ==> {
                let n = (#[trigger] self.cut_nodes[k]).node as int;
                &&& 0 <= n < upto
                &&& n < v.node_data.len()
                &&& v.node_data[n].cut_node_index is None
                &&& v.node_data[n].block_indices.len() >= 2
                &&& self.cut_nodes[k].adjacent_blocks == v.node_data[n].block_indices
                &&& self.cut_nodes[k].component == v.node_data[n].component_index.unwrap()
            }
        &&& forall|k: int, j: int|
            v.cut_nodes.len() <= k < j < self.cut_nodes.len() ==> (#[trigger] self.cut_nodes[k]).node
                < (#[trigger] self.cut_nodes[j]).node
        &&& forall|c: int|
            0 <= c < v.components.len() ==> (#[trigger] self.components[c]).cut_nodes == v.components[c].cut_nodes
                + component_cut_list(
                self.cut_nodes.subrange(v.cut_nodes.len() as int, self.cut_nodes.len() as int),
                v.cut_nodes.len() as int,
                c,
            )
        &&& forall|b: int|
            0 <= b < v.blocks.len() ==> (#[trigger] self.blocks[b]).cut_nodes == v.blocks[b].cut_nodes
                + block_cut_list(
                self.cut_nodes.subrange(v.cut_nodes.len() as int, self.cut_nodes.len() as int),
                v.cut_nodes.len() as int,
                b,
            )
        &&& self.spqr_nodes == v.spqr_nodes
        &&& self.spqr_edges == v.spqr_edges
        &&& self.edge_data == v.edge_data
        &&& self.node_data.len() == v.node_data.len()
        &&& forall|n: int|
            0 <= n < v.node_data.len() ==> {
                &&& (#[trigger] self.node_data[n]).component_index == v.node_data[n].component_index
                &&& self.node_data[n].block_indices == v.node_data[n].block_indices
                &&& self.node_data[n].spqr_node_indices == v.node_data[n].spqr_node_indices
                &&& self.node_data[n].extra_data == v.node_data[n].extra_data
                &&& (v.node_data[n].cut_node_index is Some ==> self.node_data[n].cut_node_index == v.node_data[n].cut_node_index)
                &&& (n >= upto ==> self.node_data[n].cut_node_index == v.node_data[n].cut_node_index)
                &&& (n < upto ==> (self.node_data[n].cut_node_index is Some <==> v.node_data[n].block_indices.len() >= 2))
            }
    }

    /// A builder that has nothing yet, for graph `g`.
    pub open spec fn initial(g: GraphView) -> BuilderView {
        BuilderView {
            components: Seq::empty(),
            blocks: Seq::empty(),
            cut_nodes: Seq::empty(),
            spqr_nodes: Seq::empty(),
            spqr_edges: Seq::empty(),
            node_data: Seq::new(g.node_count(), |n: int| unassigned_node()),
            edge_data: Seq::new(g.edge_count(), |e: int| unassigned_edge()),
        }
    }

    /// Every index in the lists of components, blocks and SPQR nodes points into its arena or at
    /// a node or edge of the graph.
    pub open spec fn lists_in_range(self) -> bool {
        &&& forall|c: int|
            #![trigger self.components[c]]
            0 <= c < self.components.len() ==> {
                &&& forall|i: int|
                    0 <= i < self.components[c].nodes.len() ==> (#[trigger] self.components[c].nodes[i])
                        < self.node_data.len()
                &&& forall|i: int|
                    0 <= i < self.components[c].blocks.len() ==> (
                    #[trigger] self.components[c].blocks[i]).0 < self.blocks.len()
                &&& forall|i: int|
                    0 <= i < self.components[c].cut_nodes.len() ==> (
                    #[trigger] self.components[c].cut_nodes[i]).0 < self.cut_nodes.len()
            }
        &&& forall|b: int|
            #![trigger self.blocks[b]]
            0 <= b < self.blocks.len() ==> {
                &&& forall|i: int|
                    0 <= i < self.blocks[b].nodes.len() ==> (#[trigger] self.blocks[b].nodes[i])
                        < self.node_data.len()
                &&& forall|i: int|
                    0 <= i < self.blocks[b].spqr_nodes.len() ==> (
                    #[trigger] self.blocks[b].spqr_nodes[i]).0 < self.spqr_nodes.len()
                &&& forall|i: int|
                    0 <= i < self.blocks[b].spqr_edges.len() ==> (
                    #[trigger] self.blocks[b].spqr_edges[i]).0 < self.spqr_edges.len()
                &&& forall|i: int|
                    0 <= i < self.blocks[b].cut_nodes.len() ==> (
                    #[trigger] self.blocks[b].cut_nodes[i]).0 < self.cut_nodes.len()
            }
        &&& forall|s: int|
            #![trigger self.spqr_nodes[s]]
            0 <= s < self.spqr_nodes.len() ==> {
                &&& forall|i: int|
                    0 <= i < self.spqr_nodes[s].nodes.len() ==> (#[trigger] self.spqr_nodes[s].nodes[i])
                        < self.node_data.len()
                &&& forall|i: int|
                    0 <= i < self.spqr_nodes[s].edges.len() ==> (#[trigger] self.spqr_nodes[s].edges[i])
                        < self.edge_data.len()
            }
    }

    /// The cross-references agree: each block is listed by its component and each SPQR node by
    /// its block; the members of a block and the vertices of an SPQR node list it in their
    /// records; an edge is in an SPQR node's edge list exactly when its record names that SPQR
    /// node, whose block is then the edge's block; and the SPQR edges of a block join SPQR nodes
    /// of that block.
    pub open spec fn links_ok(self) -> bool {
        &&& forall|b: int|
            0 <= b < self.blocks.len() ==> self.components[(#[trigger] self.blocks[b]).component.0 as int].blocks.contains(
                BlockIndex(b as usize),
            )
        &&& forall|s: int|
            0 <= s < self.spqr_nodes.len() ==> self.blocks[(#[trigger] self.spqr_nodes[s]).block.0 as int].spqr_nodes.contains(
                SPQRNodeIndex(s as usize),
            )
        &&& forall|b: int, i: int|
            0 <= b < self.blocks.len() && 0 <= i < self.blocks[b].nodes.len()
                ==> self.node_data[(#[trigger] self.blocks[b].nodes[i]) as int].block_indices.contains(
                BlockIndex(b as usize),
            )
        &&& forall|s: int, i: int|
            0 <= s < self.spqr_nodes.len() && 0 <= i < self.spqr_nodes[s].nodes.len()
                ==> self.node_data[(#[trigger] self.spqr_nodes[s].nodes[i]) as int].spqr_node_indices.contains(
                SPQRNodeIndex(s as usize),
            )
        &&& forall|s: int, e: int|
            0 <= s < self.spqr_nodes.len() && 0 <= e < self.edge_data.len() ==> (
            #[trigger] self.spqr_nodes[s].edges.contains(e as usize) <==> self.edge_data[e].spqr_node_index
                == Some(SPQRNodeIndex(s as usize)))
        &&& forall|e: int|
            0 <= e < self.edge_data.len() ==> ((#[trigger] self.edge_data[e]).spqr_node_index matches Some(s)
                ==> self.edge_data[e].block_index == Some(self.spqr_nodes[s.0 as int].block))
        &&& forall|b: int, i: int|
            0 <= b < self.blocks.len() && 0 <= i < self.blocks[b].spqr_edges.len() ==> {
                let x = (#[trigger] self.blocks[b].spqr_edges[i]).0 as int;
                &&& self.spqr_nodes[self.spqr_edges[x].endpoints.0.0 as int].block == BlockIndex(b as usize)
                &&& self.spqr_nodes[self.spqr_edges[x].endpoints.1.0 as int].block == BlockIndex(b as usize)
            }
    }

    /// A node's blocks belong to its component, and a cut node's blocks are among its node's
    /// blocks.
    pub open spec fn memberships_ok(self) -> bool {
        &&& forall|n: int, i: int|
            0 <= n < self.node_data.len() && 0 <= i < self.node_data[n].block_indices.len()
                ==> self.node_data[n].component_index == Some(
                self.blocks[(#[trigger] self.node_data[n].block_indices[i]).0 as int].component,
            )
        &&& forall|k: int, i: int|
            0 <= k < self.cut_nodes.len() && 0 <= i < self.cut_nodes[k].adjacent_blocks.len()
                ==> self.node_data[self.cut_nodes[k].node as int].block_indices.contains(
                #[trigger] self.cut_nodes[k].adjacent_blocks[i],
            )
        &&& forall|k: int|
            0 <= k < self.cut_nodes.len() ==> self.node_data[(#[trigger] self.cut_nodes[k]).node as int].component_index
                == Some(self.cut_nodes[k].component)
    }

    /// The lists of components and blocks are exact and without repeats: a component lists a
    /// block, and a block lists an SPQR node, exactly when that block or SPQR node names it; a
    /// block lists an SPQR edge exactly when the edge joins SPQR nodes of that block; a
    /// component lists a cut node exactly when the cut node names it, and a block exactly when
    /// the cut node is adjacent to it. An SPQR node lists each edge once, and every vertex of an
    /// SPQR node is a member of its block.
    pub open spec fn partitions_ok(self) -> bool {
        &&& forall|c: int, b: int|
            0 <= c < self.components.len() && 0 <= b < self.blocks.len() ==> (
            #[trigger] self.components[c].blocks.contains(BlockIndex(b as usize))
                <==> (#[trigger] self.blocks[b]).component.0 == c)
        &&& forall|c: int|
            0 <= c < self.components.len() ==> (#[trigger] self.components[c]).blocks.no_duplicates()
                && self.components[c].cut_nodes.no_duplicates()
        &&& forall|b: int, x: int|
            0 <= b < self.blocks.len() && 0 <= x < self.spqr_nodes.len() ==> (
            #[trigger] self.blocks[b].spqr_nodes.contains(SPQRNodeIndex(x as usize))
                <==> (#[trigger] self.spqr_nodes[x]).block.0 == b)
        &&& forall|b: int, x: int|
            0 <= b < self.blocks.len() && 0 <= x < self.spqr_edges.len() ==> (
            #[trigger] self.blocks[b].spqr_edges.contains(SPQREdgeIndex(x as usize))
                <==> self.spqr_nodes[(#[trigger] self.spqr_edges[x]).endpoints.0.0 as int].block.0 == b)
        &&& forall|b: int|
            0 <= b < self.blocks.len() ==> (#[trigger] self.blocks[b]).spqr_nodes.no_duplicates()
                && self.blocks[b].spqr_edges.no_duplicates() && self.blocks[b].cut_nodes.no_duplicates()
        &&& forall|x: int| 0 <= x < self.spqr_nodes.len() ==> (#[trigger] self.spqr_nodes[x]).edges.no_duplicates()
        &&& forall|c: int, k: int|
            0 <= c < self.components.len() && 0 <= k < self.cut_nodes.len() ==> (
            #[trigger] self.components[c].cut_nodes.contains(CutNodeIndex(k as usize))
                <==> (#[trigger] self.cut_nodes[k]).component.0 == c)
        &&& forall|b: int, k: int|
            0 <= b < self.blocks.len() && 0 <= k < self.cut_nodes.len() ==> (
            #[trigger] self.blocks[b].cut_nodes.contains(CutNodeIndex(k as usize))
                <==> (#[trigger] self.cut_nodes[k]).adjacent_blocks.contains(BlockIndex(b as usize)))
        &&& forall|x: int, i: int|
            0 <= x < self.spqr_nodes.len() && 0 <= i < self.spqr_nodes[x].nodes.len()
                ==> self.node_data[(#[trigger] self.spqr_nodes[x].nodes[i]) as int].block_indices.contains(
                self.spqr_nodes[x].block,
            )
    }

    pub open spec fn wf_for(self, g: GraphView) -> bool {
        &&& self.node_data.len() == g.node_count()
        &&& self.edge_data.len() == g.edge_count()
        &&& self.bounds_ok()
        &&& self.components_partition()
        &&& self.edge_components_ok(g)
        &&& self.edge_blocks_ok(g)
        &&& self.poles_shared()
        &&& self.skeletons_sized()
        &&& self.cut_nodes_linked()
        &&& self.lists_in_range()
        &&& self.links_ok()
        &&& self.memberships_ok()
        &&& self.partitions_ok()
    }
}

/// Builds a decomposition piece by piece.
///
/// Each operation checks the rules that the new piece must obey and returns an error when one is
/// broken. Such an error means that the pieces handed in are inconsistent: construction stops
/// there, and the builder, which may then hold part of the rejected piece, is to be dropped.
pub struct SPQRDecompositionBuilder<'graph> {
    graph: &'graph StaticGraph,
    components: Vec<Component>,
    blocks: Vec<Block>,
    cut_nodes: Vec<CutNode>,
    spqr_nodes: Vec<SPQRNode>,
    spqr_edges: Vec<SPQREdge>,
    node_data: Vec<SPQRDecompositionNodeDataBuilder>,
    edge_data: Vec<SPQRDecompositionEdgeDataBuilder>,
}

impl<'graph> View for SPQRDecompositionBuilder<'graph> {
    type V = BuilderView;

    closed spec fn view(&self) -> BuilderView {
        BuilderView {
            components: self.components@.map_values(|c: Component| c@),
            blocks: self.blocks@.map_values(|b: Block| b@),
            cut_nodes: self.cut_nodes@.map_values(|c: CutNode| c@),
            spqr_nodes: self.spqr_nodes@.map_values(|s: SPQRNode| s@),
            spqr_edges: self.spqr_edges@,
            node_data: self.node_data@.map_values(|d: SPQRDecompositionNodeDataBuilder| d@),
            edge_data: self.edge_data@.map_values(|d: SPQRDecompositionEdgeDataBuilder| d@),
        }
    }
}

impl<'graph> SPQRDecompositionBuilder<'graph> {
    /// The graph being decomposed.
    pub closed spec fn spec_graph(&self) -> StaticGraph {
        *self.graph
    }

    pub closed spec fn wf(&self) -> bool {
        self.spec_graph().wf() && self@.wf_for(self.spec_graph()@)
    }

    /// A well-formed builder has a well-formed graph and keeps the rules of [`BuilderView::wf_for`].
    pub proof fn lemma_wf(&self)
        requires
            self.wf(),
        ensures
            self.spec_graph().wf(),
            self@.wf_for(self.spec_graph()@),
    {
    }

    /// A builder with empty arenas and every node and edge unassigned.
    pub fn new(graph: &'graph StaticGraph) -> (r: Self)
        requires
            graph.wf(),
        ensures
            r.wf(),
            r.spec_graph() == *graph,
            r@ == BuilderView::initial(graph@),
            r@.components.len() == 0,
            r@.blocks.len() == 0,
            r@.cut_nodes.len() == 0,
            r@.spqr_nodes.len() == 0,
            r@.spqr_edges.len() == 0,
            forall|n: int|
                0 <= n < r@.node_data.len() ==> (#[trigger] r@.node_data[n]) == unassigned_node(),
            forall|e: int|
                0 <= e < r@.edge_data.len() ==> (#[trigger] r@.edge_data[e]) == unassigned_edge(),
    {
        let node_count = graph.node_count();
        let edge_count = graph.edge_count();
        let mut node_data: Vec<SPQRDecompositionNodeDataBuilder> = Vec::new();
        let mut i: usize = 0;
        while i < node_count
            invariant
                0 <= i <= node_count,
                node_data@.len() == i,
                forall|n: int|
                    0 <= n < i ==> (#[trigger] node_data@[n])@ == unassigned_node(),
            decreases node_count - i,
        {
            node_data.push(
                SPQRDecompositionNodeDataBuilder {
                    component_index: None,
                    block_indices: Vec::new(),
                    cut_node_index: None,
                    spqr_node_indices: Vec::new(),
                    extra_data: String::new(),
                },
            );
            i = i + 1;
        }
        let mut edge_data: Vec<SPQRDecompositionEdgeDataBuilder> = Vec::new();
        let mut i: usize = 0;
        while i < edge_count
            invariant
                0 <= i <= edge_count,
                edge_data@.len() == i,
                forall|e: int|
                    0 <= e < i ==> (#[trigger] edge_data@[e])@ == unassigned_edge(),
            decreases edge_count - i,
        {
            edge_data.push(
                SPQRDecompositionEdgeDataBuilder {
                    component_index: None,
                    block_index: None,
                    spqr_node_index: None,
                    extra_data: String::new(),
                },
            );
            i = i + 1;
        }
        let r = SPQRDecompositionBuilder {
            graph,
            components: Vec::new(),
            blocks: Vec::new(),
            cut_nodes: Vec::new(),
            spqr_nodes: Vec::new(),
            spqr_edges: Vec::new(),
            node_data,
            edge_data,
        };
        assert(r@.node_data.len() == node_count);
        assert(r@.node_data =~= BuilderView::initial(graph@).node_data);
        assert(r@.edge_data =~= BuilderView::initial(graph@).edge_data);
        assert(r@.components =~= Seq::<ComponentView>::empty());
        assert(r@.blocks =~= Seq::<BlockView>::empty());
        assert(r@.cut_nodes =~= Seq::<CutNodeView>::empty());
        assert(r@.spqr_nodes =~= Seq::<SPQRNodeView>::empty());
        assert(r@.spqr_edges =~= Seq::<SPQREdge>::empty());
        r
    }

    /// Attaches annotation text to a node; a node's text can be set once.
    pub fn add_extra_data_to_node(&mut self, node: usize, extra_data: String) -> (r: Result<
        (),
        BuildError,
    >)
        requires
            old(self).wf(),
        ensures
            final(self).spec_graph() == old(self).spec_graph(),
            r is Ok <==> node < old(self)@.node_data.len() && old(self)@.node_data[node as int].extra_data.len() == 0,
            r is Ok ==> {
                &&& final(self).wf()
                &&& final(self)@ == old(self)@.with_node_text(node as int, extra_data@)
            },
    {
        if node >= self.node_data.len() {
            return Err(BuildError::NodeOutOfRange);
        }
        if !self.node_data[node].extra_data.as_str().is_empty() {
            return Err(BuildError::ExtraDataAlreadySet);
        }
        self.node_data[node].extra_data = extra_data;
        proof {
            assert(self@.node_data =~= old(self)@.with_node_text(node as int, extra_data@).node_data);
            self.lemma_text_set(old(self)@, node as int, extra_data@);
        }
        Ok(())
    }

    /// Adds a connected component with the given nodes; the edges at those nodes join it too.
    pub fn add_component(&mut self, nodes: Vec<usize>) -> (r: Result<ComponentIndex, BuildError>)
        requires
            old(self).wf(),
        ensures
            final(self).spec_graph() == old(self).spec_graph(),
            r is Ok <==> old(self)@.can_add_component(old(self).spec_graph()@, nodes@),
            nodes@.len() == 0 ==> r == Err::<ComponentIndex, BuildError>(BuildError::EmptyComponent),
            r matches Ok(c) ==> {
                &&& c.0 == old(self)@.components.len()
                &&& final(self).wf()
                &&& final(self)@ == old(self)@.with_component(old(self).spec_graph()@, nodes@)
            },
    {
        let ghost g = self.graph@;
        let ghost v0 = self@;
        if nodes.len() == 0 {
            return Err(BuildError::EmptyComponent);
        }
        if self.components.len() == NO_INDEX {
            return Err(BuildError::IndexSpaceExhausted);
        }
        let c = ComponentIndex(self.components.len());
        // Check every node and every edge at it before changing anything.
        let mut i: usize = 0;
        while i < nodes.len()
            invariant
                self.wf(),
                self@ == v0,
                g == self.spec_graph()@,
                0 <= i <= nodes@.len(),
                forall|j: int|
                    0 <= j < i ==> {
                        &&& (#[trigger] nodes@[j]) < v0.node_data.len()
                        &&& v0.node_data[nodes@[j] as int].component_index is None
                    },
                forall|j: int, e: int|
                    0 <= j < i && 0 <= e < v0.edge_data.len() && g.is_endpoint(e, #[trigger] nodes@[j] as int)
                        ==> (#[trigger] v0.edge_data[e]).component_index is None,
            decreases nodes@.len() - i,
        {
            let n = nodes[i];
            if n >= self.node_data.len() {
                return Err(BuildError::NodeOutOfRange);
            }
            if self.node_data[n].component_index.is_some() {
                return Err(BuildError::NodeAlreadyInComponent);
            }
            let edges = self.graph.incident_edges(n);
            let mut k: usize = 0;
            while k < edges.len()
                invariant
                    self.wf(),
                    self@ == v0,
                    g == self.spec_graph()@,
                    i < nodes@.len(),
                    n == nodes@[i as int],
                    0 <= k <= edges@.len(),
                    forall|x: int| 0 <= x < edges@.len() ==> (#[trigger] edges@[x]) < g.edge_count(),
                    forall|x: int| 0 <= x < k ==> (#[trigger] v0.edge_data[edges@[x] as int]).component_index is None,
                    n < g.node_count(),
                    forall|e: int|
                        0 <= e < g.edge_count() ==> (#[trigger] edges@.contains(e as usize)
                            <==> g.is_endpoint(e, n as int)),
                decreases edges@.len() - k,
            {
                if self.edge_data[edges[k]].component_index.is_some() {
                    proof {
                        let e = edges@[k as int] as int;
                        assert(edges@[k as int] == e as usize);
                        assert(edges@.contains(e as usize));
                        assert(g.is_endpoint(e, n as int));
                        assert(nodes@[i as int] == n);
                        assert(v0.edge_data[e].component_index is Some);
                        assert(g.is_endpoint(e, nodes@[i as int] as int));
                    }
                    return Err(BuildError::EdgeInTwoComponents);
                }
                k = k + 1;
            }
            assert forall|j: int, e: int|
                0 <= j < i + 1 && 0 <= e < v0.edge_data.len() && g.is_endpoint(e, #[trigger] nodes@[j] as int)
                    implies (#[trigger] v0.edge_data[e]).component_index is None by {
                if j == i {
                    assert(edges@.contains(e as usize));
                    let x = choose|x: int| 0 <= x < edges@.len() && edges@[x] == e as usize;
                    assert(v0.edge_data[edges@[x] as int].component_index is None);
                }
            }
            i = i + 1;
        }
        // Assign the nodes; a node found assigned now was listed twice.
        let mut i: usize = 0;
        while i < nodes.len()
            invariant
                g == self.spec_graph()@,
                self.spec_graph() == old(self).spec_graph(),
                0 <= i <= nodes@.len(),
                c.0 == v0.components.len(),
                self@.node_data.len() == v0.node_data.len(),
                self@.edge_data == v0.edge_data,
                self@.components == v0.components,
                self@.blocks == v0.blocks,
                self@.cut_nodes == v0.cut_nodes,
                self@.spqr_nodes == v0.spqr_nodes,
                self@.spqr_edges == v0.spqr_edges,
                nodes@.subrange(0, i as int).no_duplicates(),
                v0.node_data.len() < usize::MAX,
                forall|j: int|
                    0 <= j < nodes@.len() ==> {
                        &&& (#[trigger] nodes@[j]) < v0.node_data.len()
                        &&& v0.node_data[nodes@[j] as int].component_index is None
                    },
                forall|n: int|
                    0 <= n < v0.node_data.len() ==> #[trigger] self@.node_data[n] == if nodes@.subrange(
                        0,
                        i as int,
                    ).contains(n as usize) {
                        NodeScratchView { component_index: Some(c), ..v0.node_data[n] }
                    } else {
                        v0.node_data[n]
                    },
            decreases nodes@.len() - i,
        {
            let n = nodes[i];
            let ghost before = self@.node_data;
            if self.node_data[n].component_index.is_some() {
                proof {
                    assert(self@.node_data[n as int].component_index is Some);
                    assert(nodes@.subrange(0, i as int).contains(n));
                    let j = choose|j: int| 0 <= j < i && nodes@.subrange(0, i as int)[j] == n;
                    assert(nodes@[j] == nodes@[i as int]);
                }
                return Err(BuildError::NodeAlreadyInComponent);
            }
            assert(self@.node_data[n as int].component_index is None);
            self.node_data[n].component_index = Some(c);
            proof {
                assert(nodes@.subrange(0, i + 1) =~= nodes@.subrange(0, i as int).push(n));
                assert(!nodes@.subrange(0, i as int).contains(n));
                assert forall|n2: int| 0 <= n2 < v0.node_data.len() implies #[trigger] self@.node_data[n2] == if nodes@.subrange(
                        0,
                        i + 1,
                    ).contains(n2 as usize) {
                        NodeScratchView { component_index: Some(c), ..v0.node_data[n2] }
                    } else {
                        v0.node_data[n2]
                    } by {
                    lemma_push_contains(nodes@.subrange(0, i as int), n, n2 as usize);
                    if n2 != n {
                        assert(self@.node_data[n2] == before[n2]);
                        assert(before[n2] == if nodes@.subrange(0, i as int).contains(n2 as usize) {
                            NodeScratchView { component_index: Some(c), ..v0.node_data[n2] }
                        } else {
                            v0.node_data[n2]
                        });
                        assert(nodes@.subrange(0, i + 1).contains(n2 as usize) == nodes@.subrange(0, i as int).contains(n2 as usize));
                    } else {
                        assert(before[n2] == v0.node_data[n2]);
                        assert(self.node_data@[n2].component_index == Some(c));
                        assert(self@.node_data[n2] == self.node_data@[n2]@);
                        assert(nodes@.subrange(0, i + 1).contains(n2 as usize));
                        assert(nodes@.subrange(0, i + 1)[i as int] == n);
                    }
                }
            }
            i = i + 1;
        }
        assert(nodes@.subrange(0, nodes@.len() as int) =~= nodes@);
        // Claim the edges at the nodes.
        let mut i: usize = 0;
        while i < nodes.len()
            invariant
                g == self.spec_graph()@,
                self.spec_graph() == old(self).spec_graph(),
                self.spec_graph().wf(),
                0 <= i <= nodes@.len(),
                c.0 == v0.components.len(),
                self@.node_data.len() == v0.node_data.len(),
                self@.edge_data.len() == v0.edge_data.len(),
                v0.node_data.len() == g.node_count(),
                v0.edge_data.len() == g.edge_count(),
                g.valid(),
                forall|j: int| 0 <= j < nodes@.len() ==> (#[trigger] nodes@[j]) < v0.node_data.len(),
                forall|e: int|
                    0 <= e < v0.edge_data.len() ==> #[trigger] self@.edge_data[e] == if BuilderView::touches(
                        g,
                        e,
                        nodes@.subrange(0, i as int),
                    ) {
                        EdgeScratchView { component_index: Some(c), ..v0.edge_data[e] }
                    } else {
                        v0.edge_data[e]
                    },
                self@.node_data == v0.with_component(g, nodes@).node_data,
                self@.components == v0.components,
                self@.blocks == v0.blocks,
                self@.cut_nodes == v0.cut_nodes,
                self@.spqr_nodes == v0.spqr_nodes,
                self@.spqr_edges == v0.spqr_edges,
            decreases nodes@.len() - i,
        {
            let n = nodes[i];
            let edges = self.graph.incident_edges(n);
            let mut k: usize = 0;
            while k < edges.len()
                invariant
                    g == self.spec_graph()@,
                    self.spec_graph() == old(self).spec_graph(),
                    self.spec_graph().wf(),
                    0 <= i < nodes@.len(),
                    n == nodes@[i as int],
                    0 <= k <= edges@.len(),
                    forall|x: int| 0 <= x < edges@.len() ==> (#[trigger] edges@[x]) < g.edge_count(),
                    n < g.node_count(),
                    forall|e: int|
                        0 <= e < g.edge_count() ==> (#[trigger] edges@.contains(e as usize)
                            <==> g.is_endpoint(e, n as int)),
                    self@.edge_data.len() == v0.edge_data.len(),
                    v0.edge_data.len() == g.edge_count(),
                    g.valid(),
                    forall|e: int|
                        0 <= e < v0.edge_data.len() ==> #[trigger] self@.edge_data[e] == if BuilderView::touches(
                            g,
                            e,
                            nodes@.subrange(0, i as int),
                        ) || edges@.subrange(0, k as int).contains(e as usize) {
                            EdgeScratchView { component_index: Some(c), ..v0.edge_data[e] }
                        } else {
                            v0.edge_data[e]
                        },
                    self@.node_data == v0.with_component(g, nodes@).node_data,
                    self@.components == v0.components,
                    self@.blocks == v0.blocks,
                    self@.cut_nodes == v0.cut_nodes,
                    self@.spqr_nodes == v0.spqr_nodes,
                    self@.spqr_edges == v0.spqr_edges,
                decreases edges@.len() - k,
            {
                let e = edges[k];
                let ghost before = self@.edge_data;
                self.edge_data[e].component_index = Some(c);
                proof {
                    assert(edges@.subrange(0, k + 1) =~= edges@.subrange(0, k as int).push(e));
                    assert forall|f: int| 0 <= f < v0.edge_data.len() implies #[trigger] self@.edge_data[f] == if BuilderView::touches(
                            g,
                            f,
                            nodes@.subrange(0, i as int),
                        ) || edges@.subrange(0, k + 1).contains(f as usize) {
                            EdgeScratchView { component_index: Some(c), ..v0.edge_data[f] }
                        } else {
                            v0.edge_data[f]
                        } by {
                        lemma_push_contains(edges@.subrange(0, k as int), e, f as usize);
                        if f != e {
                            assert(self@.edge_data[f] == before[f]);
                        } else {
                            assert(edges@.subrange(0, k + 1)[k as int] == e);
                        }
                    }
                }
                k = k + 1;
            }
            proof {
                assert(edges@.subrange(0, edges@.len() as int) =~= edges@);
                assert(nodes@.subrange(0, i + 1) =~= nodes@.subrange(0, i as int).push(n));
                assert forall|e: int| 0 <= e < v0.edge_data.len() implies BuilderView::touches(g, e, nodes@.subrange(0, i + 1))
                    == (BuilderView::touches(g, e, nodes@.subrange(0, i as int)) || edges@.contains(e as usize)) by {
                    lemma_push_contains(nodes@.subrange(0, i as int), n, g.endpoints[e].0);
                    lemma_push_contains(nodes@.subrange(0, i as int), n, g.endpoints[e].1);
                }
                assert forall|e: int|
                    0 <= e < v0.edge_data.len() implies #[trigger] self@.edge_data[e] == if BuilderView::touches(
                        g,
                        e,
                        nodes@.subrange(0, i + 1),
                    ) {
                        EdgeScratchView { component_index: Some(c), ..v0.edge_data[e] }
                    } else {
                        v0.edge_data[e]
                    } by {
                    lemma_push_contains(nodes@.subrange(0, i as int), n, g.endpoints[e].0);
                    lemma_push_contains(nodes@.subrange(0, i as int), n, g.endpoints[e].1);
                    assert(edges@.subrange(0, edges@.len() as int).contains(e as usize) == edges@.contains(e as usize));
                    assert(edges@.contains(e as usize) == g.is_endpoint(e, n as int));
                }
            }
            i = i + 1;
        }
        assert(nodes@.subrange(0, nodes@.len() as int) =~= nodes@);
        let ghost v1 = self@;
        self.components.push(Component { nodes, blocks: Vec::new(), cut_nodes: Vec::new() });
        proof {
            let w = v0.with_component(g, nodes@);
            assert(self@.components =~= w.components);
            assert(self@.node_data =~= w.node_data);
            assert(self@.edge_data =~= w.edge_data);
            assert(self@ == w);
            self.lemma_component_added(v0, nodes@);
        }
        Ok(c)
    }

    /// Adding a component that may be added keeps the builder's rules.
    proof fn lemma_component_added(&self, v0: BuilderView, nodes: Seq<usize>)
        requires
            self.spec_graph().wf(),
            v0.wf_for(self.spec_graph()@),
            v0.can_add_component(self.spec_graph()@, nodes),
            self@ == v0.with_component(self.spec_graph()@, nodes),
        ensures
            self.wf(),
    {
        let g = self.spec_graph()@;
        let v = self@;
        let c = ComponentIndex(v0.components.len() as usize);
        assert forall|n: int| 0 <= n < v.node_data.len() implies (#[trigger] v.node_data[n]).block_indices
            == v0.node_data[n].block_indices && v.node_data[n].spqr_node_indices == v0.node_data[n].spqr_node_indices
            && v.node_data[n].cut_node_index == v0.node_data[n].cut_node_index by {}
        assert forall|e: int| 0 <= e < v.edge_data.len() implies (#[trigger] v.edge_data[e]).block_index
            == v0.edge_data[e].block_index && v.edge_data[e].spqr_node_index == v0.edge_data[e].spqr_node_index by {}
        assert(v.bounds_ok()) by {
            assert forall|n: int| 0 <= n < v.node_data.len() implies ((#[trigger] v.node_data[n]).component_index matches Some(x) ==> x.0
                    < v.components.len()) by {
                assert(v0.node_data[n].component_index matches Some(x) ==> x.0 < v0.components.len());
            }
            assert forall|e: int| 0 <= e < v.edge_data.len() implies ((#[trigger] v.edge_data[e]).component_index matches Some(x) ==> x.0
                    < v.components.len()) by {
                assert(v0.edge_data[e].component_index matches Some(x) ==> x.0 < v0.components.len());
            }
        }
        assert(v.components_partition()) by {
            assert forall|n: int, c2: int|
                0 <= n < v.node_data.len() && 0 <= c2 < v.components.len() implies (
                #[trigger] v.components[c2].nodes.contains(n as usize) <==> (#[trigger] v.node_data[n]).component_index
                    == Some(ComponentIndex(c2 as usize))) by {
                if c2 < v0.components.len() {
                    assert(v.components[c2] == v0.components[c2]);
                    if nodes.contains(n as usize) {
                        let j = choose|j: int| 0 <= j < nodes.len() && nodes[j] == n as usize;
                        assert(v0.node_data[nodes[j] as int].component_index is None);
                    }
                }
            }
        }
        assert(v.edge_components_ok(g)) by {
            assert forall|e: int| 0 <= e < v.edge_data.len() implies {
                let x = g.endpoints[e].0 as int;
                let y = g.endpoints[e].1 as int;
                &&& (v.node_data[x].component_index is Some ==> (#[trigger] v.edge_data[e]).component_index
                    == v.node_data[x].component_index)
                &&& (v.node_data[y].component_index is Some ==> v.edge_data[e].component_index
                    == v.node_data[y].component_index)
                &&& (v.node_data[x].component_index is None
                    && v.node_data[y].component_index is None
                    ==> v.edge_data[e].component_index is None)
            } by {
                let x = g.endpoints[e].0 as int;
                let y = g.endpoints[e].1 as int;
                if nodes.contains(x as usize) {
                    let j = choose|j: int| 0 <= j < nodes.len() && nodes[j] == x as usize;
                    assert(g.is_endpoint(e, nodes[j] as int));
                    assert(v0.edge_data[e].component_index is None);
                }
                if nodes.contains(y as usize) {
                    let j = choose|j: int| 0 <= j < nodes.len() && nodes[j] == y as usize;
                    assert(g.is_endpoint(e, nodes[j] as int));
                    assert(v0.edge_data[e].component_index is None);
                }
            }
        }
        assert(v.edge_blocks_ok(g)) by {
            assert forall|e: int, b: BlockIndex|
                #![trigger v.edge_data[e], v.node_data[g.endpoints[e].0 as int].block_indices.contains(b)]
                0 <= e < v.edge_data.len() implies (v.edge_data[e].block_index == Some(b) <==> {
                    &&& v.node_data[g.endpoints[e].0 as int].block_indices.contains(b)
                    &&& v.node_data[g.endpoints[e].1 as int].block_indices.contains(b)
                }) by {
                assert(v0.edge_data[e].block_index == Some(b) <==> {
                    &&& v0.node_data[g.endpoints[e].0 as int].block_indices.contains(b)
                    &&& v0.node_data[g.endpoints[e].1 as int].block_indices.contains(b)
                });
                assert(v.node_data[g.endpoints[e].0 as int].block_indices == v0.node_data[g.endpoints[e].0 as int].block_indices);
                assert(v.node_data[g.endpoints[e].1 as int].block_indices == v0.node_data[g.endpoints[e].1 as int].block_indices);
            }
        }
        assert(v.cut_nodes_linked()) by {
            assert forall|k: int| 0 <= k < v.cut_nodes.len() implies {
                &&& (#[trigger] v.cut_nodes[k]).node < v.node_data.len()
                &&& v.node_data[v.cut_nodes[k].node as int].cut_node_index == Some(CutNodeIndex(k as usize))
            } by {
                assert(v0.cut_nodes[k].node < v0.node_data.len());
                assert(v.node_data[v.cut_nodes[k].node as int].cut_node_index == v0.node_data[v.cut_nodes[k].node as int].cut_node_index);
            }
        }
    }

    /// Adds a block with the given nodes under `component`; the edges with both endpoints among
    /// the nodes join it. Cut nodes are found by [`build`](Self::build).
    pub fn add_block(&mut self, component: ComponentIndex, nodes: Vec<usize>) -> (r: Result<
        BlockIndex,
        BuildError,
    >)
        requires
            old(self).wf(),
        ensures
            final(self).spec_graph() == old(self).spec_graph(),
            r is Ok <==> old(self)@.can_add_block(old(self).spec_graph()@, component, nodes@),
            nodes@.len() == 0 ==> r == Err::<BlockIndex, BuildError>(BuildError::EmptyBlock),
            r matches Ok(b) ==> {
                &&& b.0 == old(self)@.blocks.len()
                &&& final(self).wf()
                &&& final(self)@ == old(self)@.with_block(old(self).spec_graph()@, component, nodes@)
            },
    {
        let ghost g = self.graph@;
        let ghost v0 = self@;
        if nodes.len() == 0 {
            return Err(BuildError::EmptyBlock);
        }
        if self.blocks.len() == NO_INDEX {
            return Err(BuildError::IndexSpaceExhausted);
        }
        if component.0 >= self.components.len() {
            return Err(BuildError::UnknownComponent);
        }
        let b = BlockIndex(self.blocks.len());
        let mut i: usize = 0;
        while i < nodes.len()
            invariant
                self@ == v0,
                v0.node_data.len() == g.node_count(),
                v0.blocks.len() < NO_INDEX,
                v0 == old(self)@,
                component.0 < v0.components.len(),
                0 <= i <= nodes@.len(),
                forall|j: int|
                    0 <= j < i ==> {
                        &&& (#[trigger] nodes@[j]) < v0.node_data.len()
                        &&& v0.node_data[nodes@[j] as int].component_index == Some(component)
                    },
            decreases nodes@.len() - i,
        {
            let n = nodes[i];
            if n >= self.node_data.len() {
                return Err(BuildError::NodeOutOfRange);
            }
            match self.node_data[n].component_index {
                Some(c) => {
                    if c != component {
                        return Err(BuildError::NodeNotInComponent);
                    }
                },
                None => {
                    return Err(BuildError::NodeNotInComponent);
                },
            }
            i = i + 1;
        }
        // Enter the block into its nodes' lists; a node that has it already was listed twice.
        let mut i: usize = 0;
        while i < nodes.len()
            invariant
                g == self.spec_graph()@,
                self.spec_graph() == old(self).spec_graph(),
                v0.wf_for(g),
                g.valid(),
                0 <= i <= nodes@.len(),
                b.0 == v0.blocks.len(),
                self@.node_data.len() == v0.node_data.len(),
                self@.edge_data == v0.edge_data,
                self@.components == v0.components,
                self@.blocks == v0.blocks,
                self@.cut_nodes == v0.cut_nodes,
                self@.spqr_nodes == v0.spqr_nodes,
                self@.spqr_edges == v0.spqr_edges,
                nodes@.subrange(0, i as int).no_duplicates(),
                forall|j: int| 0 <= j < nodes@.len() ==> (#[trigger] nodes@[j]) < v0.node_data.len(),
                v0.blocks.len() < NO_INDEX,
                v0 == old(self)@,
                component.0 < v0.components.len(),
                forall|j: int|
                    0 <= j < nodes@.len() ==> (#[trigger] nodes@[j]) < v0.node_data.len() ==> v0.node_data[nodes@[j] as int].component_index == Some(component),
                forall|n: int|
                    0 <= n < v0.node_data.len() ==> #[trigger] self@.node_data[n] == if nodes@.subrange(
                        0,
                        i as int,
                    ).contains(n as usize) {
                        NodeScratchView {
                            block_indices: v0.node_data[n].block_indices.push(b),
                            ..v0.node_data[n]
                        }
                    } else {
                        v0.node_data[n]
                    },
            decreases nodes@.len() - i,
        {
            let n = nodes[i];
            let ghost before = self@.node_data;
            let len = self.node_data[n].block_indices.len();
            if len > 0 && self.node_data[n].block_indices[len - 1] == b {
                proof {
                    if !nodes@.subrange(0, i as int).contains(n) {
                        assert(self@.node_data[n as int] == v0.node_data[n as int]);
                        assert(v0.node_data[n as int].block_indices[len - 1].0 < v0.blocks.len());
                    }
                    let j = choose|j: int| 0 <= j < i && nodes@.subrange(0, i as int)[j] == n;
                    assert(nodes@[j] == nodes@[i as int]);
                }
                return Err(BuildError::NodeAlreadyInBlock);
            }
            proof {
                if nodes@.subrange(0, i as int).contains(n) {
                    assert(self@.node_data[n as int].block_indices == v0.node_data[n as int].block_indices.push(b));
                    assert(self.node_data@[n as int].block_indices@ == self@.node_data[n as int].block_indices);
                }
            }
            assert(!nodes@.subrange(0, i as int).contains(n));
            self.node_data[n].block_indices.push(b);
            proof {
                assert(nodes@.subrange(0, i + 1) =~= nodes@.subrange(0, i as int).push(n));
                assert forall|n2: int| 0 <= n2 < v0.node_data.len() implies #[trigger] self@.node_data[n2] == if nodes@.subrange(
                        0,
                        i + 1,
                    ).contains(n2 as usize) {
                        NodeScratchView {
                            block_indices: v0.node_data[n2].block_indices.push(b),
                            ..v0.node_data[n2]
                        }
                    } else {
                        v0.node_data[n2]
                    } by {
                    lemma_push_contains(nodes@.subrange(0, i as int), n, n2 as usize);
                    if n2 != n {
                        assert(self@.node_data[n2] == before[n2]);
                    } else {
                        assert(before[n2] == v0.node_data[n2]);
                        assert(self@.node_data[n2] == self.node_data@[n2]@);
                    }
                }
            }
            i = i + 1;
        }
        assert(nodes@.subrange(0, nodes@.len() as int) =~= nodes@);
        // Claim the edges with both endpoints in the block.
        let mut i: usize = 0;
        while i < nodes.len()
            invariant
                g == self.spec_graph()@,
                self.spec_graph() == old(self).spec_graph(),
                self.spec_graph().wf(),
                v0.wf_for(g),
                g.valid(),
                0 <= i <= nodes@.len(),
                b.0 == v0.blocks.len(),
                self@.node_data.len() == v0.node_data.len(),
                self@.edge_data.len() == v0.edge_data.len(),
                v0.node_data.len() == g.node_count(),
                v0.edge_data.len() == g.edge_count(),
                forall|j: int| 0 <= j < nodes@.len() ==> (#[trigger] nodes@[j]) < v0.node_data.len(),
                nodes@.no_duplicates(),
                v0.blocks.len() < NO_INDEX,
                v0 == old(self)@,
                component.0 < v0.components.len(),
                forall|j: int|
                    0 <= j < nodes@.len() ==> (#[trigger] nodes@[j]) < v0.node_data.len() ==> v0.node_data[nodes@[j] as int].component_index == Some(component),
                forall|e: int|
                    0 <= e < v0.edge_data.len() ==> #[trigger] self@.edge_data[e] == if BuilderView::inside(g, e, nodes@)
                        && BuilderView::touches(g, e, nodes@.subrange(0, i as int)) {
                        EdgeScratchView { block_index: Some(b), ..v0.edge_data[e] }
                    } else {
                        v0.edge_data[e]
                    },
                forall|e: int|
                    0 <= e < v0.edge_data.len() && BuilderView::inside(g, e, nodes@)
                        && BuilderView::touches(g, e, nodes@.subrange(0, i as int))
                        ==> (#[trigger] v0.edge_data[e]).block_index is None,
                self@.node_data == v0.with_block(g, component, nodes@).node_data,
                self@.components == v0.components,
                self@.blocks == v0.blocks,
                self@.cut_nodes == v0.cut_nodes,
                self@.spqr_nodes == v0.spqr_nodes,
                self@.spqr_edges == v0.spqr_edges,
            decreases nodes@.len() - i,
        {
            let n = nodes[i];
            let edges = self.graph.incident_edges(n);
            let mut k: usize = 0;
            while k < edges.len()
                invariant
                    g == self.spec_graph()@,
                    self.spec_graph() == old(self).spec_graph(),
                    self.spec_graph().wf(),
                    v0.wf_for(g),
                    g.valid(),
                    0 <= i < nodes@.len(),
                    n == nodes@[i as int],
                    b.0 == v0.blocks.len(),
                    v0.blocks.len() < NO_INDEX,
                    v0 == old(self)@,
                v0 == old(self)@,
                    component.0 < v0.components.len(),
                    nodes@.no_duplicates(),
                    forall|j: int|
                        0 <= j < nodes@.len() ==> {
                            &&& (#[trigger] nodes@[j]) < v0.node_data.len()
                            &&& v0.node_data[nodes@[j] as int].component_index == Some(component)
                        },
                    0 <= k <= edges@.len(),
                    forall|x: int| 0 <= x < edges@.len() ==> (#[trigger] edges@[x]) < g.edge_count(),
                    n < g.node_count(),
                    forall|e: int|
                        0 <= e < g.edge_count() ==> (#[trigger] edges@.contains(e as usize)
                            <==> g.is_endpoint(e, n as int)),
                    self@.edge_data.len() == v0.edge_data.len(),
                    v0.edge_data.len() == g.edge_count(),
                    v0.node_data.len() == g.node_count(),
                    forall|e: int|
                        0 <= e < v0.edge_data.len() ==> #[trigger] self@.edge_data[e] == if BuilderView::inside(g, e, nodes@)
                            && (BuilderView::touches(g, e, nodes@.subrange(0, i as int))
                            || edges@.subrange(0, k as int).contains(e as usize)) {
                            EdgeScratchView { block_index: Some(b), ..v0.edge_data[e] }
                        } else {
                            v0.edge_data[e]
                        },
                    forall|e: int|
                        0 <= e < v0.edge_data.len() && BuilderView::inside(g, e, nodes@)
                            && (BuilderView::touches(g, e, nodes@.subrange(0, i as int))
                            || edges@.subrange(0, k as int).contains(e as usize))
                            ==> (#[trigger] v0.edge_data[e]).block_index is None,
                    self@.node_data == v0.with_block(g, component, nodes@).node_data,
                    self@.components == v0.components,
                    self@.blocks == v0.blocks,
                    self@.cut_nodes == v0.cut_nodes,
                    self@.spqr_nodes == v0.spqr_nodes,
                    self@.spqr_edges == v0.spqr_edges,
                decreases edges@.len() - k,
            {
                let e = edges[k];
                let ghost before = self@.edge_data;
                let (x, y) = self.graph.edge_endpoints(e);
                assert(g.endpoints[e as int] == (x, y));
                assert(x < g.node_count() && y < g.node_count());
                assert(self@.node_data.len() == v0.with_block(g, component, nodes@).node_data.len());
                assert(self.node_data@.len() == self@.node_data.len());
                let lx = self.node_data[x].block_indices.len();
                let ly = self.node_data[y].block_indices.len();
                proof {
                    lemma_push_contains(v0.node_data[x as int].block_indices, b, b);
                    lemma_push_contains(v0.node_data[y as int].block_indices, b, b);
                    if !nodes@.contains(x) {
                        assert(!v0.node_data[x as int].block_indices.contains(b));
                    }
                    if !nodes@.contains(y) {
                        assert(!v0.node_data[y as int].block_indices.contains(b));
                    }
                }
                let in_x = lx > 0 && self.node_data[x].block_indices[lx - 1] == b;
                let in_y = ly > 0 && self.node_data[y].block_indices[ly - 1] == b;
                proof {
                    if !nodes@.contains(x) && lx > 0 {
                        assert(self@.node_data[x as int].block_indices[lx - 1].0 < v0.blocks.len());
                    }
                    if !nodes@.contains(y) && ly > 0 {
                        assert(self@.node_data[y as int].block_indices[ly - 1].0 < v0.blocks.len());
                    }
                    assert(in_x == nodes@.contains(x));
                    assert(in_y == nodes@.contains(y));
                }
                if in_x && in_y {
                    match self.edge_data[e].block_index {
                        Some(other) => {
                            if other != b {
                                proof {
                                    if BuilderView::touches(g, e as int, nodes@.subrange(0, i as int))
                                        || edges@.subrange(0, k as int).contains(e) {
                                        assert(self@.edge_data[e as int].block_index == Some(b));
                                    }
                                    assert(self@.edge_data[e as int] == v0.edge_data[e as int]);
                                    assert(BuilderView::inside(g, e as int, nodes@));
                                    assert(v0.edge_data[e as int].block_index is Some);
                                }
                                return Err(BuildError::EdgeInTwoBlocks);
                            }
                        },
                        None => {},
                    }
                    proof {
                        if !(BuilderView::touches(g, e as int, nodes@.subrange(0, i as int))
                            || edges@.subrange(0, k as int).contains(e)) {
                            assert(self@.edge_data[e as int] == v0.edge_data[e as int]);
                            assert(v0.edge_data[e as int].block_index matches Some(o) ==> o.0 < v0.blocks.len());
                        }
                    }
                    self.edge_data[e].block_index = Some(b);
                }
                proof {
                    assert(edges@.subrange(0, k + 1) =~= edges@.subrange(0, k as int).push(e));
                    assert(edges@[k as int] == e);
                    assert(edges@.contains(e));
                    assert forall|f: int| 0 <= f < v0.edge_data.len() implies #[trigger] self@.edge_data[f] == if BuilderView::inside(g, f, nodes@)
                            && (BuilderView::touches(g, f, nodes@.subrange(0, i as int))
                            || edges@.subrange(0, k + 1).contains(f as usize)) {
                            EdgeScratchView { block_index: Some(b), ..v0.edge_data[f] }
                        } else {
                            v0.edge_data[f]
                        } by {
                        lemma_push_contains(edges@.subrange(0, k as int), e, f as usize);
                        if f != e {
                            assert(self@.edge_data[f] == before[f]);
                        } else if in_x && in_y {
                            assert(self@.edge_data[f] == self.edge_data@[f]@);
                        }
                    }
                    assert forall|f: int|
                        0 <= f < v0.edge_data.len() && BuilderView::inside(g, f, nodes@)
                            && (BuilderView::touches(g, f, nodes@.subrange(0, i as int))
                            || edges@.subrange(0, k + 1).contains(f as usize))
                            implies (#[trigger] v0.edge_data[f]).block_index is None by {
                        lemma_push_contains(edges@.subrange(0, k as int), e, f as usize);
                    }
                }
                k = k + 1;
            }
            proof {
                assert(edges@.subrange(0, edges@.len() as int) =~= edges@);
                assert(nodes@.subrange(0, i + 1) =~= nodes@.subrange(0, i as int).push(n));
                assert forall|e: int|
                    0 <= e < v0.edge_data.len() implies #[trigger] self@.edge_data[e] == if BuilderView::inside(g, e, nodes@)
                        && BuilderView::touches(g, e, nodes@.subrange(0, i + 1)) {
                        EdgeScratchView { block_index: Some(b), ..v0.edge_data[e] }
                    } else {
                        v0.edge_data[e]
                    } by {
                    lemma_push_contains(nodes@.subrange(0, i as int), n, g.endpoints[e].0);
                    lemma_push_contains(nodes@.subrange(0, i as int), n, g.endpoints[e].1);
                    assert(edges@.contains(e as usize) == g.is_endpoint(e, n as int));
                }
                assert forall|e: int|
                    0 <= e < v0.edge_data.len() && BuilderView::inside(g, e, nodes@)
                        && BuilderView::touches(g, e, nodes@.subrange(0, i + 1))
                        implies (#[trigger] v0.edge_data[e]).block_index is None by {
                    lemma_push_contains(nodes@.subrange(0, i as int), n, g.endpoints[e].0);
                    lemma_push_contains(nodes@.subrange(0, i as int), n, g.endpoints[e].1);
                    assert(edges@.contains(e as usize) == g.is_endpoint(e, n as int));
                }
            }
            i = i + 1;
        }
        proof {
            assert forall|e: int| 0 <= e < v0.edge_data.len() implies BuilderView::inside(g, e, nodes@)
                == (BuilderView::inside(g, e, nodes@) && BuilderView::touches(g, e, nodes@.subrange(0, nodes@.len() as int))) by {}
        }
        self.blocks.push(
            Block {
                component,
                nodes,
                cut_nodes: Vec::new(),
                spqr_nodes: Vec::new(),
                spqr_edges: Vec::new(),
            },
        );
        self.components[component.0].blocks.push(b);
        proof {
            let w = v0.with_block(g, component, nodes@);
            assert(self@.components =~= w.components);
            assert(self@.blocks =~= w.blocks);
            assert(self@.node_data =~= w.node_data);
            assert(self@.edge_data =~= w.edge_data);
            assert(self@ == w);
            self.lemma_block_added(v0, component, nodes@);
        }
        Ok(b)
    }

    /// Adding a block that may be added keeps the builder's rules.
    proof fn lemma_block_added_links(&self, v0: BuilderView, component: ComponentIndex, nodes: Seq<usize>)
        requires
            self.spec_graph().wf(),
            v0.wf_for(self.spec_graph()@),
            v0.can_add_block(self.spec_graph()@, component, nodes),
            self@ == v0.with_block(self.spec_graph()@, component, nodes),
        ensures
            self@.links_ok(),
    {
        let g = self.spec_graph()@;
        let v = self@;
        let b = BlockIndex(v0.blocks.len() as usize);
        assert(v.links_ok()) by {
            assert forall|bb: int| 0 <= bb < v.blocks.len() implies v.components[(#[trigger] v.blocks[bb]).component.0 as int].blocks.contains(
                BlockIndex(bb as usize),
            ) by {
                if bb < v0.blocks.len() {
                    let c = v0.blocks[bb].component.0 as int;
                    assert(v0.components[c].blocks.contains(BlockIndex(bb as usize)));
                    lemma_push_contains(v0.components[c].blocks, b, BlockIndex(bb as usize));
                } else {
                    lemma_push_contains(v0.components[component.0 as int].blocks, b, b);
                }
            }
            assert forall|bb: int, i: int|
                0 <= bb < v.blocks.len() && 0 <= i < v.blocks[bb].nodes.len()
                    implies v.node_data[(#[trigger] v.blocks[bb].nodes[i]) as int].block_indices.contains(
                    BlockIndex(bb as usize),
                ) by {
                let n = v.blocks[bb].nodes[i] as int;
                if bb < v0.blocks.len() {
                    assert(v0.blocks[bb].nodes[i] < v0.node_data.len());
                    assert(v0.node_data[n].block_indices.contains(BlockIndex(bb as usize)));
                    lemma_push_contains(v0.node_data[n].block_indices, b, BlockIndex(bb as usize));
                } else {
                    assert(nodes.contains(nodes[i]));
                    lemma_push_contains(v0.node_data[n].block_indices, b, b);
                }
            }
            assert forall|e: int|
                0 <= e < v.edge_data.len() implies ((#[trigger] v.edge_data[e]).spqr_node_index matches Some(s)
                    ==> v.edge_data[e].block_index == Some(v.spqr_nodes[s.0 as int].block)) by {
                assert(v0.edge_data[e].spqr_node_index matches Some(s)
                    ==> v0.edge_data[e].block_index == Some(v0.spqr_nodes[s.0 as int].block));
            }
            assert forall|s: int, e: int|
                0 <= s < v.spqr_nodes.len() && 0 <= e < v.edge_data.len() implies (
                #[trigger] v.spqr_nodes[s].edges.contains(e as usize) <==> v.edge_data[e].spqr_node_index
                    == Some(SPQRNodeIndex(s as usize))) by {
                assert(v0.spqr_nodes[s].edges.contains(e as usize) <==> v0.edge_data[e].spqr_node_index
                    == Some(SPQRNodeIndex(s as usize)));
            }
            assert forall|bb: int, i: int|
                0 <= bb < v.blocks.len() && 0 <= i < v.blocks[bb].spqr_edges.len() implies {
                    let x = (#[trigger] v.blocks[bb].spqr_edges[i]).0 as int;
                    &&& v.spqr_nodes[v.spqr_edges[x].endpoints.0.0 as int].block == BlockIndex(bb as usize)
                    &&& v.spqr_nodes[v.spqr_edges[x].endpoints.1.0 as int].block == BlockIndex(bb as usize)
                } by {
                assert(v.blocks[bb] == v0.blocks[bb]);
            }
            assert forall|s: int| 0 <= s < v.spqr_nodes.len() implies v.blocks[(#[trigger] v.spqr_nodes[s]).block.0 as int].spqr_nodes.contains(
                SPQRNodeIndex(s as usize),
            ) by {
                assert(v0.blocks[v0.spqr_nodes[s].block.0 as int].spqr_nodes.contains(SPQRNodeIndex(s as usize)));
                assert(v0.spqr_nodes[s].block.0 < v0.blocks.len());
            }
            assert forall|s: int, i: int|
                0 <= s < v.spqr_nodes.len() && 0 <= i < v.spqr_nodes[s].nodes.len()
                    implies v.node_data[(#[trigger] v.spqr_nodes[s].nodes[i]) as int].spqr_node_indices.contains(
                    SPQRNodeIndex(s as usize),
                ) by {
                assert(v0.node_data[v0.spqr_nodes[s].nodes[i] as int].spqr_node_indices.contains(SPQRNodeIndex(s as usize)));
                assert(v0.spqr_nodes[s].nodes[i] < v0.node_data.len());
            }
        }
    }

    proof fn lemma_block_added_memberships(&self, v0: BuilderView, component: ComponentIndex, nodes: Seq<usize>)
        requires
            self.spec_graph().wf(),
            v0.wf_for(self.spec_graph()@),
            v0.can_add_block(self.spec_graph()@, component, nodes),
            self@ == v0.with_block(self.spec_graph()@, component, nodes),
        ensures
            self@.memberships_ok(),
    {
        let g = self.spec_graph()@;
        let v = self@;
        let b = BlockIndex(v0.blocks.len() as usize);
        assert forall|n: int, i: int|
            0 <= n < v.node_data.len() && 0 <= i < v.node_data[n].block_indices.len()
                implies v.node_data[n].component_index == Some(
                v.blocks[(#[trigger] v.node_data[n].block_indices[i]).0 as int].component,
            ) by {
            if i < v0.node_data[n].block_indices.len() {
                assert(v.node_data[n].block_indices[i] == v0.node_data[n].block_indices[i]);
                assert(v0.node_data[n].block_indices[i].0 < v0.blocks.len());
                assert(v0.node_data[n].component_index == Some(
                    v0.blocks[v0.node_data[n].block_indices[i].0 as int].component,
                ));
            } else {
                assert(nodes.contains(n as usize));
                let j = choose|j: int| 0 <= j < nodes.len() && nodes[j] == n as usize;
                assert(v0.node_data[nodes[j] as int].component_index == Some(component));
            }
        }
        assert forall|k: int, i: int|
            0 <= k < v.cut_nodes.len() && 0 <= i < v.cut_nodes[k].adjacent_blocks.len()
                implies v.node_data[v.cut_nodes[k].node as int].block_indices.contains(
                #[trigger] v.cut_nodes[k].adjacent_blocks[i],
            ) by {
            let n = v0.cut_nodes[k].node as int;
            assert(n < v0.node_data.len());
            assert(v0.node_data[n].block_indices.contains(v0.cut_nodes[k].adjacent_blocks[i]));
            lemma_push_contains(v0.node_data[n].block_indices, b, v0.cut_nodes[k].adjacent_blocks[i]);
        }
        assert forall|k: int| 0 <= k < v.cut_nodes.len() implies v.node_data[(#[trigger] v.cut_nodes[k]).node as int].component_index
            == Some(v.cut_nodes[k].component) by {
            assert(v0.cut_nodes[k].node < v0.node_data.len());
            assert(v0.node_data[v0.cut_nodes[k].node as int].component_index == Some(v0.cut_nodes[k].component));
        }
    }

    proof fn lemma_block_added_partitions(&self, v0: BuilderView, component: ComponentIndex, nodes: Seq<usize>)
        requires
            self.spec_graph().wf(),
            v0.wf_for(self.spec_graph()@),
            v0.can_add_block(self.spec_graph()@, component, nodes),
            self@ == v0.with_block(self.spec_graph()@, component, nodes),
        ensures
            self@.partitions_ok(),
    {
        let g = self.spec_graph()@;
        let v = self@;
        let b = BlockIndex(v0.blocks.len() as usize);
        vstd::std_specs::vec::axiom_spec_len(&self.blocks);
        assert forall|c: int, bb: int|
            0 <= c < v.components.len() && 0 <= bb < v.blocks.len() implies (
            #[trigger] v.components[c].blocks.contains(BlockIndex(bb as usize))
                <==> (#[trigger] v.blocks[bb]).component.0 == c) by {
            assert((bb as usize) as int == bb);
            lemma_push_contains(v0.components[c].blocks, b, BlockIndex(bb as usize));
            if v0.components[c].blocks.contains(b) {
                let i = choose|i: int| 0 <= i < v0.components[c].blocks.len() && v0.components[c].blocks[i] == b;
                assert(v0.components[c].blocks[i].0 < v0.blocks.len());
            }
            if bb < v0.blocks.len() {
                assert(v0.components[c].blocks.contains(BlockIndex(bb as usize)) <==> v0.blocks[bb].component.0 == c);
            }
        }
        assert forall|c: int| 0 <= c < v.components.len() implies (#[trigger] v.components[c]).blocks.no_duplicates()
            && v.components[c].cut_nodes.no_duplicates() by {
            if c == component.0 {
                if v0.components[c].blocks.contains(b) {
                    let i = choose|i: int| 0 <= i < v0.components[c].blocks.len() && v0.components[c].blocks[i] == b;
                    assert(v0.components[c].blocks[i].0 < v0.blocks.len());
                }
                lemma_push_no_duplicates(v0.components[c].blocks, b);
            }
        }
        assert forall|bb: int, x: int|
            0 <= bb < v.blocks.len() && 0 <= x < v.spqr_nodes.len() implies (
            #[trigger] v.blocks[bb].spqr_nodes.contains(SPQRNodeIndex(x as usize))
                <==> (#[trigger] v.spqr_nodes[x]).block.0 == bb) by {
            assert(v0.spqr_nodes[x].block.0 < v0.blocks.len());
            if bb < v0.blocks.len() {
                assert(v0.blocks[bb].spqr_nodes.contains(SPQRNodeIndex(x as usize)) <==> v0.spqr_nodes[x].block.0 == bb);
            }
        }
        assert forall|bb: int, x: int|
            0 <= bb < v.blocks.len() && 0 <= x < v.spqr_edges.len() implies (
            #[trigger] v.blocks[bb].spqr_edges.contains(SPQREdgeIndex(x as usize))
                <==> v.spqr_nodes[(#[trigger] v.spqr_edges[x]).endpoints.0.0 as int].block.0 == bb) by {
            let t = v0.spqr_edges[x];
            assert(t.endpoints.0.0 < v0.spqr_nodes.len());
            assert(v0.spqr_nodes[t.endpoints.0.0 as int].block.0 < v0.blocks.len());
            if bb < v0.blocks.len() {
                assert(v0.blocks[bb].spqr_edges.contains(SPQREdgeIndex(x as usize))
                    <==> v0.spqr_nodes[t.endpoints.0.0 as int].block.0 == bb);
            }
        }
        assert forall|bb: int, k: int|
            0 <= bb < v.blocks.len() && 0 <= k < v.cut_nodes.len() implies (
            #[trigger] v.blocks[bb].cut_nodes.contains(CutNodeIndex(k as usize))
                <==> (#[trigger] v.cut_nodes[k]).adjacent_blocks.contains(BlockIndex(bb as usize))) by {
            assert((bb as usize) as int == bb);
            if bb < v0.blocks.len() {
                assert(v0.blocks[bb].cut_nodes.contains(CutNodeIndex(k as usize))
                    <==> v0.cut_nodes[k].adjacent_blocks.contains(BlockIndex(bb as usize)));
            } else if v0.cut_nodes[k].adjacent_blocks.contains(BlockIndex(bb as usize)) {
                let i = choose|i: int| 0 <= i < v0.cut_nodes[k].adjacent_blocks.len() && v0.cut_nodes[k].adjacent_blocks[i] == BlockIndex(bb as usize);
                let n = v0.cut_nodes[k].node as int;
                assert(v0.node_data[n].block_indices.contains(v0.cut_nodes[k].adjacent_blocks[i]));
                let j = choose|j: int| 0 <= j < v0.node_data[n].block_indices.len() && v0.node_data[n].block_indices[j] == BlockIndex(bb as usize);
                assert(v0.node_data[n].block_indices[j].0 < v0.blocks.len());
            }
        }
        assert forall|x: int, i: int|
            0 <= x < v.spqr_nodes.len() && 0 <= i < v.spqr_nodes[x].nodes.len()
                implies v.node_data[(#[trigger] v.spqr_nodes[x].nodes[i]) as int].block_indices.contains(
                v.spqr_nodes[x].block,
            ) by {
            let n = v0.spqr_nodes[x].nodes[i] as int;
            assert(v0.node_data[n].block_indices.contains(v0.spqr_nodes[x].block));
            lemma_push_contains(v0.node_data[n].block_indices, b, v0.spqr_nodes[x].block);
        }
    }

    proof fn lemma_block_added(&self, v0: BuilderView, component: ComponentIndex, nodes: Seq<usize>)
        requires
            self.spec_graph().wf(),
            v0.wf_for(self.spec_graph()@),
            v0.can_add_block(self.spec_graph()@, component, nodes),
            self@ == v0.with_block(self.spec_graph()@, component, nodes),
        ensures
            self.wf(),
    {
        self.lemma_block_added_partitions(v0, component, nodes);
        let g = self.spec_graph()@;
        let v = self@;
        let b = BlockIndex(v0.blocks.len() as usize);
        self.lemma_block_added_links(v0, component, nodes);
        self.lemma_block_added_memberships(v0, component, nodes);
        assert forall|n: int| 0 <= n < v.node_data.len() implies (#[trigger] v.node_data[n]).component_index
            == v0.node_data[n].component_index && v.node_data[n].spqr_node_indices == v0.node_data[n].spqr_node_indices
            && v.node_data[n].cut_node_index == v0.node_data[n].cut_node_index by {}
        assert forall|e: int| 0 <= e < v.edge_data.len() implies (#[trigger] v.edge_data[e]).component_index
            == v0.edge_data[e].component_index && v.edge_data[e].spqr_node_index == v0.edge_data[e].spqr_node_index by {}
        assert forall|c: int| 0 <= c < v.components.len() implies (#[trigger] v.components[c]).nodes == v0.components[c].nodes by {}
        assert(v.bounds_ok()) by {
            assert forall|n: int| 0 <= n < v.node_data.len() implies {
                &&& forall|i: int|
                    0 <= i < v.node_data[n].block_indices.len() ==> (
                    #[trigger] v.node_data[n].block_indices[i]).0 < v.blocks.len()
                &&& (#[trigger] v.node_data[n]).block_indices.no_duplicates()
            } by {
                let old_list = v0.node_data[n].block_indices;
                assert(forall|i: int| 0 <= i < old_list.len() ==> (#[trigger] old_list[i]).0 < v0.blocks.len());
                if nodes.contains(n as usize) {
                    assert(v.node_data[n].block_indices == old_list.push(b));
                    assert forall|i: int, j: int|
                        0 <= i < old_list.len() + 1 && 0 <= j < old_list.len() + 1 && i != j implies old_list.push(b)[i]
                            != old_list.push(b)[j] by {
                        if i < old_list.len() && j < old_list.len() {
                            assert(old_list.no_duplicates());
                        } else if i < old_list.len() {
                            assert(old_list[i].0 < v0.blocks.len());
                        } else if j < old_list.len() {
                            assert(old_list[j].0 < v0.blocks.len());
                        }
                    }
                }
            }
            assert forall|e: int| 0 <= e < v.edge_data.len() implies ((#[trigger] v.edge_data[e]).block_index matches Some(x) ==> x.0
                    < v.blocks.len()) by {
                assert(v0.edge_data[e].block_index matches Some(x) ==> x.0 < v0.blocks.len());
            }
            assert forall|bb: int| 0 <= bb < v.blocks.len() implies (#[trigger] v.blocks[bb]).component.0
                < v.components.len() by {
                if bb < v0.blocks.len() {
                    assert(v0.blocks[bb].component.0 < v0.components.len());
                }
            }
            assert forall|s: int| 0 <= s < v.spqr_nodes.len() implies (#[trigger] v.spqr_nodes[s]).block.0
                < v.blocks.len() by {
                assert(v0.spqr_nodes[s].block.0 < v0.blocks.len());
            }
        }
        assert(v.components_partition()) by {
            assert forall|n: int, c2: int|
                0 <= n < v.node_data.len() && 0 <= c2 < v.components.len() implies (
                #[trigger] v.components[c2].nodes.contains(n as usize) <==> (#[trigger] v.node_data[n]).component_index
                    == Some(ComponentIndex(c2 as usize))) by {
                assert(v0.components[c2].nodes.contains(n as usize) <==> v0.node_data[n].component_index
                    == Some(ComponentIndex(c2 as usize)));
            }
        }
        assert(v.edge_components_ok(g)) by {
            assert forall|e: int| 0 <= e < v.edge_data.len() implies {
                let x = g.endpoints[e].0 as int;
                let y = g.endpoints[e].1 as int;
                &&& (v.node_data[x].component_index is Some ==> (#[trigger] v.edge_data[e]).component_index
                    == v.node_data[x].component_index)
                &&& (v.node_data[y].component_index is Some ==> v.edge_data[e].component_index
                    == v.node_data[y].component_index)
                &&& (v.node_data[x].component_index is None
                    && v.node_data[y].component_index is None
                    ==> v.edge_data[e].component_index is None)
            } by {
                assert(v.node_data[g.endpoints[e].0 as int].component_index == v0.node_data[g.endpoints[e].0 as int].component_index);
                assert(v.node_data[g.endpoints[e].1 as int].component_index == v0.node_data[g.endpoints[e].1 as int].component_index);
            }
        }
        assert(v.edge_blocks_ok(g)) by {
            assert forall|e: int, bb: BlockIndex|
                #![trigger v.edge_data[e], v.node_data[g.endpoints[e].0 as int].block_indices.contains(bb)]
                0 <= e < v.edge_data.len() implies (v.edge_data[e].block_index == Some(bb) <==> {
                    &&& v.node_data[g.endpoints[e].0 as int].block_indices.contains(bb)
                    &&& v.node_data[g.endpoints[e].1 as int].block_indices.contains(bb)
                }) by {
                let x = g.endpoints[e].0;
                let y = g.endpoints[e].1;
                assert(v0.edge_data[e].block_index == Some(bb) <==> {
                    &&& v0.node_data[x as int].block_indices.contains(bb)
                    &&& v0.node_data[y as int].block_indices.contains(bb)
                });
                lemma_push_contains(v0.node_data[x as int].block_indices, b, bb);
                lemma_push_contains(v0.node_data[y as int].block_indices, b, bb);
                if v0.node_data[x as int].block_indices.contains(b) {
                    let i = choose|i: int| 0 <= i < v0.node_data[x as int].block_indices.len() && v0.node_data[x as int].block_indices[i] == b;
                    assert(v0.node_data[x as int].block_indices[i].0 < v0.blocks.len());
                }
                if v0.node_data[y as int].block_indices.contains(b) {
                    let i = choose|i: int| 0 <= i < v0.node_data[y as int].block_indices.len() && v0.node_data[y as int].block_indices[i] == b;
                    assert(v0.node_data[y as int].block_indices[i].0 < v0.blocks.len());
                }
                if v0.edge_data[e].block_index is Some {
                    assert(v0.edge_data[e].block_index.unwrap().0 < v0.blocks.len());
                }
            }
        }
        assert(v.poles_shared()) by {
            assert forall|x: int| 0 <= x < v.spqr_edges.len() implies {
                let t = #[trigger] v.spqr_edges[x];
                &&& t.endpoints.0.0 < v.spqr_nodes.len()
                &&& t.endpoints.1.0 < v.spqr_nodes.len()
                &&& v.spqr_nodes[t.endpoints.0.0 as int].nodes.contains(t.virtual_edge.0)
                &&& v.spqr_nodes[t.endpoints.0.0 as int].nodes.contains(t.virtual_edge.1)
                &&& v.spqr_nodes[t.endpoints.1.0 as int].nodes.contains(t.virtual_edge.0)
                &&& v.spqr_nodes[t.endpoints.1.0 as int].nodes.contains(t.virtual_edge.1)
            } by {
                assert(v0.spqr_edges[x] == v.spqr_edges[x]);
            }
        }
        assert(v.cut_nodes_linked()) by {
            assert forall|k: int| 0 <= k < v.cut_nodes.len() implies {
                &&& (#[trigger] v.cut_nodes[k]).node < v.node_data.len()
                &&& v.node_data[v.cut_nodes[k].node as int].cut_node_index == Some(CutNodeIndex(k as usize))
            } by {
                assert(v0.cut_nodes[k].node < v0.node_data.len());
                assert(v.node_data[v.cut_nodes[k].node as int].cut_node_index == v0.node_data[v.cut_nodes[k].node as int].cut_node_index);
            }
        }
    }

    /// Declares `cut_node` a cut node adjacent to `blocks`, and records it on its component and
    /// on each of those blocks.
    pub fn add_cut_node(&mut self, cut_node: usize, blocks: Vec<BlockIndex>) -> (r: Result<
        CutNodeIndex,
        BuildError,
    >)
        requires
            old(self).wf(),
        ensures
            final(self).spec_graph() == old(self).spec_graph(),
            r is Ok <==> old(self)@.can_add_cut_node(cut_node, blocks@),
            blocks@.len() == 0 ==> r == Err::<CutNodeIndex, BuildError>(BuildError::EmptyCutNode),
            r matches Ok(k) ==> {
                &&& k.0 == old(self)@.cut_nodes.len()
                &&& final(self).wf()
                &&& final(self)@ == old(self)@.with_cut_node(cut_node, blocks@)
            },
    {
        let ghost g = self.graph@;
        let ghost v0 = self@;
        if blocks.len() == 0 {
            return Err(BuildError::EmptyCutNode);
        }
        if self.cut_nodes.len() == NO_INDEX {
            return Err(BuildError::IndexSpaceExhausted);
        }
        if cut_node >= self.node_data.len() {
            return Err(BuildError::NodeOutOfRange);
        }
        if self.node_data[cut_node].cut_node_index.is_some() {
            return Err(BuildError::NodeAlreadyCutNode);
        }
        let component = match self.node_data[cut_node].component_index {
            Some(c) => c,
            None => {
                return Err(BuildError::NodeNotInComponent);
            },
        };
        let k = CutNodeIndex(self.cut_nodes.len());
        let mut i: usize = 0;
        while i < blocks.len()
            invariant
                self@ == v0,
                v0 == old(self)@,
                cut_node < v0.node_data.len(),
                0 <= i <= blocks@.len(),
                blocks@.subrange(0, i as int).no_duplicates(),
                forall|j: int| 0 <= j < i ==> v0.node_data[cut_node as int].block_indices.contains(#[trigger] blocks@[j]),
            decreases blocks@.len() - i,
        {
            let b = blocks[i];
            if !contains_block(&self.node_data[cut_node].block_indices, b) {
                return Err(BuildError::NodeNotInBlock);
            }
            let mut j: usize = 0;
            while j < i
                invariant
                    0 <= j <= i < blocks@.len(),
                    b == blocks@[i as int],
                    forall|x: int| 0 <= x < j ==> blocks@[x] != b,
                decreases i - j,
            {
                if blocks[j] == b {
                    return Err(BuildError::DuplicateBlock);
                }
                j = j + 1;
            }
            proof {
                assert(blocks@.subrange(0, i + 1) =~= blocks@.subrange(0, i as int).push(b));
                lemma_push_contains(blocks@.subrange(0, i as int), b, b);
                if blocks@.subrange(0, i as int).contains(b) {
                    let x = choose|x: int| 0 <= x < i && blocks@.subrange(0, i as int)[x] == b;
                    assert(blocks@[x] == b);
                }
            }
            i = i + 1;
        }
        assert(blocks@.subrange(0, blocks@.len() as int) =~= blocks@);
        // Record the cut node on each of its blocks.
        let mut i: usize = 0;
        while i < blocks.len()
            invariant
                v0 == old(self)@,
                v0.wf_for(g),
                g == self.spec_graph()@,
                self.spec_graph() == old(self).spec_graph(),
                0 <= i <= blocks@.len(),
                k.0 == v0.cut_nodes.len(),
                v0.can_add_cut_node(cut_node, blocks@),
                self@.blocks.len() == v0.blocks.len(),
                forall|bb: int|
                    0 <= bb < v0.blocks.len() ==> #[trigger] self@.blocks[bb] == if blocks@.subrange(
                        0,
                        i as int,
                    ).contains(BlockIndex(bb as usize)) {
                        BlockView { cut_nodes: v0.blocks[bb].cut_nodes.push(k), ..v0.blocks[bb] }
                    } else {
                        v0.blocks[bb]
                    },
                self@.components == v0.components,
                self@.cut_nodes == v0.cut_nodes,
                self@.spqr_nodes == v0.spqr_nodes,
                self@.spqr_edges == v0.spqr_edges,
                self@.node_data == v0.node_data,
                self@.edge_data == v0.edge_data,
            decreases blocks@.len() - i,
        {
            let b = blocks[i];
            let ghost before = self@.blocks;
            proof {
                assert(v0.node_data[cut_node as int].block_indices.contains(blocks@[i as int]));
                let x = choose|x: int| 0 <= x < v0.node_data[cut_node as int].block_indices.len() && v0.node_data[cut_node as int].block_indices[x] == b;
                assert(v0.node_data[cut_node as int].block_indices[x].0 < v0.blocks.len());
            }
            self.blocks[b.0].cut_nodes.push(k);
            proof {
                assert(blocks@.subrange(0, i + 1) =~= blocks@.subrange(0, i as int).push(b));
                assert(!blocks@.subrange(0, i as int).contains(b)) by {
                    if blocks@.subrange(0, i as int).contains(b) {
                        let x = choose|x: int| 0 <= x < i && blocks@.subrange(0, i as int)[x] == b;
                        assert(blocks@[x] == blocks@[i as int]);
                    }
                }
                assert forall|bb: int|
                    0 <= bb < v0.blocks.len() implies #[trigger] self@.blocks[bb] == if blocks@.subrange(
                        0,
                        i + 1,
                    ).contains(BlockIndex(bb as usize)) {
                        BlockView { cut_nodes: v0.blocks[bb].cut_nodes.push(k), ..v0.blocks[bb] }
                    } else {
                        v0.blocks[bb]
                    } by {
                    lemma_push_contains(blocks@.subrange(0, i as int), b, BlockIndex(bb as usize));
                    assert(self.blocks@.len() == v0.blocks.len());
                    vstd::std_specs::vec::axiom_spec_len(&self.blocks);
                    assert((bb as usize) as int == bb);
                    if bb != b.0 {
                        assert(self@.blocks[bb] == before[bb]);
                    } else {
                        assert(before[bb] == v0.blocks[bb]);
                        assert(self@.blocks[bb] == self.blocks@[bb]@);
                    }
                }
            }
            i = i + 1;
        }
        self.components[component.0].cut_nodes.push(k);
        self.node_data[cut_node].cut_node_index = Some(k);
        self.cut_nodes.push(CutNode { component, node: cut_node, adjacent_blocks: blocks });
        proof {
            let w = v0.with_cut_node(cut_node, blocks@);
            assert(blocks@.subrange(0, blocks@.len() as int) =~= blocks@);
            assert(self@.components =~= w.components);
            assert(self@.blocks =~= w.blocks);
            assert(self@.cut_nodes =~= w.cut_nodes);
            assert(self@.node_data =~= w.node_data);
            assert(self@ == w);
            self.lemma_cut_node_added(v0, cut_node, blocks@);
        }
        Ok(k)
    }

    /// Declaring a cut node that may be declared keeps the builder's rules.
    proof fn lemma_cut_node_added_partitions(&self, v0: BuilderView, node: usize, blocks: Seq<BlockIndex>)
        requires
            self.spec_graph().wf(),
            v0.wf_for(self.spec_graph()@),
            v0.can_add_cut_node(node, blocks),
            self@ == v0.with_cut_node(node, blocks),
        ensures
            self@.partitions_ok(),
    {
        let g = self.spec_graph()@;
        let v = self@;
        let k = CutNodeIndex(v0.cut_nodes.len() as usize);
        let cc = v0.node_data[node as int].component_index.unwrap();
        vstd::std_specs::vec::axiom_spec_len(&self.cut_nodes);
        vstd::std_specs::vec::axiom_spec_len(&self.blocks);
        assert forall|c: int, kk: int|
            0 <= c < v.components.len() && 0 <= kk < v.cut_nodes.len() implies (
            #[trigger] v.components[c].cut_nodes.contains(CutNodeIndex(kk as usize))
                <==> (#[trigger] v.cut_nodes[kk]).component.0 == c) by {
            assert((kk as usize) as int == kk);
            lemma_push_contains(v0.components[c].cut_nodes, k, CutNodeIndex(kk as usize));
            if v0.components[c].cut_nodes.contains(k) {
                let i = choose|i: int| 0 <= i < v0.components[c].cut_nodes.len() && v0.components[c].cut_nodes[i] == k;
                assert(v0.components[c].cut_nodes[i].0 < v0.cut_nodes.len());
            }
            if kk < v0.cut_nodes.len() {
                assert(v0.components[c].cut_nodes.contains(CutNodeIndex(kk as usize)) <==> v0.cut_nodes[kk].component.0 == c);
            }
        }
        assert forall|c: int| 0 <= c < v.components.len() implies (#[trigger] v.components[c]).blocks.no_duplicates()
            && v.components[c].cut_nodes.no_duplicates() by {
            if c == cc.0 {
                if v0.components[c].cut_nodes.contains(k) {
                    let i = choose|i: int| 0 <= i < v0.components[c].cut_nodes.len() && v0.components[c].cut_nodes[i] == k;
                    assert(v0.components[c].cut_nodes[i].0 < v0.cut_nodes.len());
                }
                lemma_push_no_duplicates(v0.components[c].cut_nodes, k);
            }
        }
        assert forall|bb: int, kk: int|
            0 <= bb < v.blocks.len() && 0 <= kk < v.cut_nodes.len() implies (
            #[trigger] v.blocks[bb].cut_nodes.contains(CutNodeIndex(kk as usize))
                <==> (#[trigger] v.cut_nodes[kk]).adjacent_blocks.contains(BlockIndex(bb as usize))) by {
            assert((kk as usize) as int == kk);
            assert((bb as usize) as int == bb);
            lemma_push_contains(v0.blocks[bb].cut_nodes, k, CutNodeIndex(kk as usize));
            if v0.blocks[bb].cut_nodes.contains(k) {
                let i = choose|i: int| 0 <= i < v0.blocks[bb].cut_nodes.len() && v0.blocks[bb].cut_nodes[i] == k;
                assert(v0.blocks[bb].cut_nodes[i].0 < v0.cut_nodes.len());
            }
            if kk < v0.cut_nodes.len() {
                assert(v0.blocks[bb].cut_nodes.contains(CutNodeIndex(kk as usize))
                    <==> v0.cut_nodes[kk].adjacent_blocks.contains(BlockIndex(bb as usize)));
            }
        }
        assert forall|bb: int| 0 <= bb < v.blocks.len() implies (#[trigger] v.blocks[bb]).spqr_nodes.no_duplicates()
            && v.blocks[bb].spqr_edges.no_duplicates() && v.blocks[bb].cut_nodes.no_duplicates() by {
            assert(v0.blocks[bb].cut_nodes.no_duplicates());
            if blocks.contains(BlockIndex(bb as usize)) {
                if v0.blocks[bb].cut_nodes.contains(k) {
                    let i = choose|i: int| 0 <= i < v0.blocks[bb].cut_nodes.len() && v0.blocks[bb].cut_nodes[i] == k;
                    assert(v0.blocks[bb].cut_nodes[i].0 < v0.cut_nodes.len());
                }
                lemma_push_no_duplicates(v0.blocks[bb].cut_nodes, k);
            }
        }
        assert forall|x: int, i: int|
            0 <= x < v.spqr_nodes.len() && 0 <= i < v.spqr_nodes[x].nodes.len()
                implies v.node_data[(#[trigger] v.spqr_nodes[x].nodes[i]) as int].block_indices.contains(
                v.spqr_nodes[x].block,
            ) by {
            assert(v0.node_data[v0.spqr_nodes[x].nodes[i] as int].block_indices.contains(v0.spqr_nodes[x].block));
        }
    }

    proof fn lemma_cut_node_added_linked(&self, v0: BuilderView, node: usize, blocks: Seq<BlockIndex>)
        requires
            self.spec_graph().wf(),
            v0.wf_for(self.spec_graph()@),
            v0.can_add_cut_node(node, blocks),
            self@ == v0.with_cut_node(node, blocks),
        ensures
            self@.cut_nodes_linked(),
    {
        let g = self.spec_graph()@;
        let v = self@;
        let k = CutNodeIndex(v0.cut_nodes.len() as usize);
        assert(v.cut_nodes_linked()) by {
            assert forall|kk: int| 0 <= kk < v.cut_nodes.len() implies {
                &&& (#[trigger] v.cut_nodes[kk]).node < v.node_data.len()
                &&& v.node_data[v.cut_nodes[kk].node as int].cut_node_index == Some(CutNodeIndex(kk as usize))
            } by {
                if kk < v0.cut_nodes.len() {
                    assert(v0.cut_nodes[kk].node < v0.node_data.len());
                    assert(v0.node_data[v0.cut_nodes[kk].node as int].cut_node_index == Some(CutNodeIndex(kk as usize)));
                }
            }
            assert forall|n: int| 0 <= n < v.node_data.len() implies ((#[trigger] v.node_data[n]).cut_node_index matches Some(
                kk,
            ) ==> v.cut_nodes[kk.0 as int].node == n) by {
                if n != node {
                    assert(v0.node_data[n].cut_node_index matches Some(kk) ==> v0.cut_nodes[kk.0 as int].node == n && kk.0 < v0.cut_nodes.len());
                }
            }
        }
    }

    proof fn lemma_cut_node_added_memberships(&self, v0: BuilderView, node: usize, blocks: Seq<BlockIndex>)
        requires
            self.spec_graph().wf(),
            v0.wf_for(self.spec_graph()@),
            v0.can_add_cut_node(node, blocks),
            self@ == v0.with_cut_node(node, blocks),
        ensures
            self@.memberships_ok(),
    {
        let v = self@;
        let k = CutNodeIndex(v0.cut_nodes.len() as usize);
        assert forall|kk: int| 0 <= kk < v.cut_nodes.len() implies v.node_data[(#[trigger] v.cut_nodes[kk]).node as int].component_index
            == Some(v.cut_nodes[kk].component) by {
            if kk < v0.cut_nodes.len() {
                assert(v0.cut_nodes[kk].node < v0.node_data.len());
                assert(v0.node_data[v0.cut_nodes[kk].node as int].component_index == Some(v0.cut_nodes[kk].component));
            }
        }
        assert forall|n: int, i: int|
            0 <= n < v.node_data.len() && 0 <= i < v.node_data[n].block_indices.len()
                implies v.node_data[n].component_index == Some(
                v.blocks[(#[trigger] v.node_data[n].block_indices[i]).0 as int].component,
            ) by {
            assert(v0.node_data[n].block_indices[i].0 < v0.blocks.len());
            assert(v0.node_data[n].component_index == Some(v0.blocks[v0.node_data[n].block_indices[i].0 as int].component));
        }
        assert forall|kk: int, i: int|
            0 <= kk < v.cut_nodes.len() && 0 <= i < v.cut_nodes[kk].adjacent_blocks.len()
                implies v.node_data[v.cut_nodes[kk].node as int].block_indices.contains(
                #[trigger] v.cut_nodes[kk].adjacent_blocks[i],
            ) by {
            if kk < v0.cut_nodes.len() {
                assert(v0.cut_nodes[kk].node < v0.node_data.len());
                assert(v0.node_data[v0.cut_nodes[kk].node as int].block_indices.contains(v0.cut_nodes[kk].adjacent_blocks[i]));
            } else {
                assert(blocks[i] == v.cut_nodes[kk].adjacent_blocks[i]);
            }
        }
    }

    proof fn lemma_cut_node_added(&self, v0: BuilderView, node: usize, blocks: Seq<BlockIndex>)
        requires
            self.spec_graph().wf(),
            v0.wf_for(self.spec_graph()@),
            v0.can_add_cut_node(node, blocks),
            self@ == v0.with_cut_node(node, blocks),
        ensures
            self.wf(),
    {
        self.lemma_cut_node_added_memberships(v0, node, blocks);
        self.lemma_cut_node_added_partitions(v0, node, blocks);
        let g = self.spec_graph()@;
        let v = self@;
        let k = CutNodeIndex(v0.cut_nodes.len() as usize);
        assert forall|n: int| 0 <= n < v.node_data.len() implies (#[trigger] v.node_data[n]).component_index
            == v0.node_data[n].component_index && v.node_data[n].spqr_node_indices == v0.node_data[n].spqr_node_indices
            && v.node_data[n].block_indices == v0.node_data[n].block_indices by {}
        assert forall|bb: int| 0 <= bb < v.blocks.len() implies (#[trigger] v.blocks[bb]).component == v0.blocks[bb].component by {}
        assert forall|c: int| 0 <= c < v.components.len() implies (#[trigger] v.components[c]).nodes == v0.components[c].nodes by {}
        assert(v.bounds_ok()) by {
            assert forall|n: int| 0 <= n < v.node_data.len() implies ((#[trigger] v.node_data[n]).cut_node_index matches Some(x) ==> x.0 < v.cut_nodes.len()) by {
                assert(v0.node_data[n].cut_node_index matches Some(x) ==> x.0 < v0.cut_nodes.len());
            }
            assert forall|bb: int| 0 <= bb < v.blocks.len() implies (#[trigger] v.blocks[bb]).component.0
                < v.components.len() by {
                assert(v0.blocks[bb].component.0 < v0.components.len());
            }
        }
        assert(v.components_partition()) by {
            assert forall|n: int, c2: int|
                0 <= n < v.node_data.len() && 0 <= c2 < v.components.len() implies (
                #[trigger] v.components[c2].nodes.contains(n as usize) <==> (#[trigger] v.node_data[n]).component_index
                    == Some(ComponentIndex(c2 as usize))) by {
                assert(v0.components[c2].nodes.contains(n as usize) <==> v0.node_data[n].component_index
                    == Some(ComponentIndex(c2 as usize)));
            }
        }
        assert(v.edge_components_ok(g)) by {
            assert forall|e: int| 0 <= e < v.edge_data.len() implies {
                let x = g.endpoints[e].0 as int;
                let y = g.endpoints[e].1 as int;
                &&& (v.node_data[x].component_index is Some ==> (#[trigger] v.edge_data[e]).component_index
                    == v.node_data[x].component_index)
                &&& (v.node_data[y].component_index is Some ==> v.edge_data[e].component_index
                    == v.node_data[y].component_index)
                &&& (v.node_data[x].component_index is None
                    && v.node_data[y].component_index is None
                    ==> v.edge_data[e].component_index is None)
            } by {
                assert(v0.edge_data[e] == v.edge_data[e]);
                assert(v.node_data[g.endpoints[e].0 as int].component_index == v0.node_data[g.endpoints[e].0 as int].component_index);
                assert(v.node_data[g.endpoints[e].1 as int].component_index == v0.node_data[g.endpoints[e].1 as int].component_index);
            }
        }
        assert(v.edge_blocks_ok(g)) by {
            assert forall|e: int, bb: BlockIndex|
                #![trigger v.edge_data[e], v.node_data[g.endpoints[e].0 as int].block_indices.contains(bb)]
                0 <= e < v.edge_data.len() implies (v.edge_data[e].block_index == Some(bb) <==> {
                    &&& v.node_data[g.endpoints[e].0 as int].block_indices.contains(bb)
                    &&& v.node_data[g.endpoints[e].1 as int].block_indices.contains(bb)
                }) by {
                assert(v0.edge_data[e] == v.edge_data[e]);
                assert(v.node_data[g.endpoints[e].0 as int].block_indices == v0.node_data[g.endpoints[e].0 as int].block_indices);
                assert(v.node_data[g.endpoints[e].1 as int].block_indices == v0.node_data[g.endpoints[e].1 as int].block_indices);
                assert(v0.edge_data[e].block_index == Some(bb) <==> {
                    &&& v0.node_data[g.endpoints[e].0 as int].block_indices.contains(bb)
                    &&& v0.node_data[g.endpoints[e].1 as int].block_indices.contains(bb)
                });
            }
        }
        assert(v.poles_shared()) by {
            assert forall|x: int| 0 <= x < v.spqr_edges.len() implies {
                let t = #[trigger] v.spqr_edges[x];
                &&& t.endpoints.0.0 < v.spqr_nodes.len()
                &&& t.endpoints.1.0 < v.spqr_nodes.len()
                &&& v.spqr_nodes[t.endpoints.0.0 as int].nodes.contains(t.virtual_edge.0)
                &&& v.spqr_nodes[t.endpoints.0.0 as int].nodes.contains(t.virtual_edge.1)
                &&& v.spqr_nodes[t.endpoints.1.0 as int].nodes.contains(t.virtual_edge.0)
                &&& v.spqr_nodes[t.endpoints.1.0 as int].nodes.contains(t.virtual_edge.1)
            } by {
                assert(v0.spqr_edges[x] == v.spqr_edges[x]);
            }
        }
        self.lemma_cut_node_added_linked(v0, node, blocks);
    }

    /// Adds an SPQR node of the given type with the given vertices to `block`. Its edges are
    /// placed separately with [`add_edge_to_spqr_node`](Self::add_edge_to_spqr_node).
    pub fn add_spqr_node(&mut self, block: BlockIndex, nodes: Vec<usize>, spqr_node_type: SPQRNodeType) -> (r: Result<
        SPQRNodeIndex,
        BuildError,
    >)
        requires
            old(self).wf(),
        ensures
            final(self).spec_graph() == old(self).spec_graph(),
            r is Ok <==> old(self)@.can_add_spqr_node(block, nodes@),
            nodes@.len() < 2 ==> r == Err::<SPQRNodeIndex, BuildError>(BuildError::TooFewSPQRNodeVertices),
            r matches Ok(s) ==> {
                &&& s.0 == old(self)@.spqr_nodes.len()
                &&& final(self).wf()
                &&& final(self)@ == old(self)@.with_spqr_node(block, nodes@, spqr_node_type)
            },
    {
        let ghost g = self.graph@;
        let ghost v0 = self@;
        if nodes.len() < 2 {
            return Err(BuildError::TooFewSPQRNodeVertices);
        }
        if self.spqr_nodes.len() == NO_INDEX {
            return Err(BuildError::IndexSpaceExhausted);
        }
        if block.0 >= self.blocks.len() {
            return Err(BuildError::UnknownBlock);
        }
        let s = SPQRNodeIndex(self.spqr_nodes.len());
        let mut i: usize = 0;
        while i < nodes.len()
            invariant
                self@ == v0,
                v0 == old(self)@,
                v0.node_data.len() == g.node_count(),
                0 <= i <= nodes@.len(),
                forall|j: int|
                    0 <= j < i ==> {
                        &&& (#[trigger] nodes@[j]) < v0.node_data.len()
                        &&& v0.node_data[nodes@[j] as int].block_indices.contains(block)
                    },
                nodes@.len() >= 2,
            decreases nodes@.len() - i,
        {
            let n = nodes[i];
            if n >= self.node_data.len() {
                return Err(BuildError::NodeOutOfRange);
            }
            if !contains_block(&self.node_data[n].block_indices, block) {
                return Err(BuildError::NodeNotInBlock);
            }
            i = i + 1;
        }
        let mut i: usize = 0;
        while i < nodes.len()
            invariant
                v0 == old(self)@,
                v0.wf_for(g),
                g.valid(),
                g == self.spec_graph()@,
                self.spec_graph() == old(self).spec_graph(),
                0 <= i <= nodes@.len(),
                s.0 == v0.spqr_nodes.len(),
                v0.spqr_nodes.len() < NO_INDEX,
                block.0 < v0.blocks.len(),
                forall|j: int|
                    0 <= j < nodes@.len() ==> {
                        &&& (#[trigger] nodes@[j]) < v0.node_data.len()
                        &&& v0.node_data[nodes@[j] as int].block_indices.contains(block)
                    },
                self@.node_data.len() == v0.node_data.len(),
                self@.edge_data == v0.edge_data,
                self@.components == v0.components,
                self@.blocks == v0.blocks,
                self@.cut_nodes == v0.cut_nodes,
                self@.spqr_nodes == v0.spqr_nodes,
                self@.spqr_edges == v0.spqr_edges,
                nodes@.subrange(0, i as int).no_duplicates(),
                forall|n: int|
                    0 <= n < v0.node_data.len() ==> #[trigger] self@.node_data[n] == if nodes@.subrange(
                        0,
                        i as int,
                    ).contains(n as usize) {
                        NodeScratchView {
                            spqr_node_indices: v0.node_data[n].spqr_node_indices.push(s),
                            ..v0.node_data[n]
                        }
                    } else {
                        v0.node_data[n]
                    },
            decreases nodes@.len() - i,
        {
            let n = nodes[i];
            let ghost before = self@.node_data;
            let len = self.node_data[n].spqr_node_indices.len();
            if len > 0 && self.node_data[n].spqr_node_indices[len - 1] == s {
                proof {
                    if !nodes@.subrange(0, i as int).contains(n) {
                        assert(self@.node_data[n as int] == v0.node_data[n as int]);
                        assert(v0.node_data[n as int].spqr_node_indices[len - 1].0 < v0.spqr_nodes.len());
                    }
                    let j = choose|j: int| 0 <= j < i && nodes@.subrange(0, i as int)[j] == n;
                    assert(nodes@[j] == nodes@[i as int]);
                }
                return Err(BuildError::NodeAlreadyInSPQRNode);
            }
            proof {
                if nodes@.subrange(0, i as int).contains(n) {
                    assert(self@.node_data[n as int].spqr_node_indices == v0.node_data[n as int].spqr_node_indices.push(s));
                    assert(self.node_data@[n as int].spqr_node_indices@ == self@.node_data[n as int].spqr_node_indices);
                }
            }
            assert(!nodes@.subrange(0, i as int).contains(n));
            self.node_data[n].spqr_node_indices.push(s);
            proof {
                assert(nodes@.subrange(0, i + 1) =~= nodes@.subrange(0, i as int).push(n));
                assert forall|n2: int| 0 <= n2 < v0.node_data.len() implies #[trigger] self@.node_data[n2] == if nodes@.subrange(
                        0,
                        i + 1,
                    ).contains(n2 as usize) {
                        NodeScratchView {
                            spqr_node_indices: v0.node_data[n2].spqr_node_indices.push(s),
                            ..v0.node_data[n2]
                        }
                    } else {
                        v0.node_data[n2]
                    } by {
                    lemma_push_contains(nodes@.subrange(0, i as int), n, n2 as usize);
                    if n2 != n {
                        assert(self@.node_data[n2] == before[n2]);
                    } else {
                        assert(before[n2] == v0.node_data[n2]);
                        assert(self@.node_data[n2] == self.node_data@[n2]@);
                    }
                }
            }
            i = i + 1;
        }
        assert(nodes@.subrange(0, nodes@.len() as int) =~= nodes@);
        self.blocks[block.0].spqr_nodes.push(s);
        self.spqr_nodes.push(
            SPQRNode { block, nodes, edges: Vec::new(), spqr_node_type, spqr_edges: Vec::new() },
        );
        proof {
            let w = v0.with_spqr_node(block, nodes@, spqr_node_type);
            assert(self@.blocks =~= w.blocks);
            assert(self@.spqr_nodes =~= w.spqr_nodes);
            assert(self@.node_data =~= w.node_data);
            assert(self@ == w);
            self.lemma_spqr_node_added(v0, block, nodes@, spqr_node_type);
        }
        Ok(s)
    }

    /// Adding an SPQR node that may be added keeps the builder's rules.
    proof fn lemma_spqr_node_added_links(&self, v0: BuilderView, block: BlockIndex, nodes: Seq<usize>, t: SPQRNodeType)
        requires
            self.spec_graph().wf(),
            v0.wf_for(self.spec_graph()@),
            v0.can_add_spqr_node(block, nodes),
            self@ == v0.with_spqr_node(block, nodes, t),
        ensures
            self@.links_ok(),
    {
        let g = self.spec_graph()@;
        let v = self@;
        let s = SPQRNodeIndex(v0.spqr_nodes.len() as usize);
        assert(v.links_ok()) by {
            assert forall|bb: int| 0 <= bb < v.blocks.len() implies v.components[(#[trigger] v.blocks[bb]).component.0 as int].blocks.contains(
                BlockIndex(bb as usize),
            ) by {
                assert(v0.components[v0.blocks[bb].component.0 as int].blocks.contains(BlockIndex(bb as usize)));
            }
            assert forall|x: int| 0 <= x < v.spqr_nodes.len() implies v.blocks[(#[trigger] v.spqr_nodes[x]).block.0 as int].spqr_nodes.contains(
                SPQRNodeIndex(x as usize),
            ) by {
                if x < v0.spqr_nodes.len() {
                    let bb = v0.spqr_nodes[x].block.0 as int;
                    assert(v0.blocks[bb].spqr_nodes.contains(SPQRNodeIndex(x as usize)));
                    lemma_push_contains(v0.blocks[bb].spqr_nodes, s, SPQRNodeIndex(x as usize));
                } else {
                    lemma_push_contains(v0.blocks[block.0 as int].spqr_nodes, s, s);
                }
            }
            assert forall|bb: int, i: int|
                0 <= bb < v.blocks.len() && 0 <= i < v.blocks[bb].nodes.len()
                    implies v.node_data[(#[trigger] v.blocks[bb].nodes[i]) as int].block_indices.contains(
                    BlockIndex(bb as usize),
                ) by {
                assert(v0.node_data[v0.blocks[bb].nodes[i] as int].block_indices.contains(BlockIndex(bb as usize)));
                assert(v0.blocks[bb].nodes[i] < v0.node_data.len());
            }
            assert forall|x: int, i: int|
                0 <= x < v.spqr_nodes.len() && 0 <= i < v.spqr_nodes[x].nodes.len()
                    implies v.node_data[(#[trigger] v.spqr_nodes[x].nodes[i]) as int].spqr_node_indices.contains(
                    SPQRNodeIndex(x as usize),
                ) by {
                let n = v.spqr_nodes[x].nodes[i] as int;
                if x < v0.spqr_nodes.len() {
                    assert(v0.spqr_nodes[x].nodes[i] < v0.node_data.len());
                    assert(v0.node_data[n].spqr_node_indices.contains(SPQRNodeIndex(x as usize)));
                    lemma_push_contains(v0.node_data[n].spqr_node_indices, s, SPQRNodeIndex(x as usize));
                } else {
                    assert(nodes.contains(nodes[i]));
                    lemma_push_contains(v0.node_data[n].spqr_node_indices, s, s);
                }
            }
            assert forall|x: int, e: int|
                0 <= x < v.spqr_nodes.len() && 0 <= e < v.edge_data.len() implies (
                #[trigger] v.spqr_nodes[x].edges.contains(e as usize) <==> v.edge_data[e].spqr_node_index
                    == Some(SPQRNodeIndex(x as usize))) by {
                if x < v0.spqr_nodes.len() {
                    assert(v0.spqr_nodes[x].edges.contains(e as usize) <==> v0.edge_data[e].spqr_node_index
                        == Some(SPQRNodeIndex(x as usize)));
                } else {
                    assert(v0.edge_data[e].spqr_node_index matches Some(y) ==> y.0 < v0.spqr_nodes.len());
                }
            }
            assert forall|e: int|
                0 <= e < v.edge_data.len() implies ((#[trigger] v.edge_data[e]).spqr_node_index matches Some(y)
                    ==> v.edge_data[e].block_index == Some(v.spqr_nodes[y.0 as int].block)) by {
                assert(v0.edge_data[e].spqr_node_index matches Some(y)
                    ==> v0.edge_data[e].block_index == Some(v0.spqr_nodes[y.0 as int].block) && y.0 < v0.spqr_nodes.len());
            }
            assert forall|bb: int, i: int|
                0 <= bb < v.blocks.len() && 0 <= i < v.blocks[bb].spqr_edges.len() implies {
                    let x = (#[trigger] v.blocks[bb].spqr_edges[i]).0 as int;
                    &&& v.spqr_nodes[v.spqr_edges[x].endpoints.0.0 as int].block == BlockIndex(bb as usize)
                    &&& v.spqr_nodes[v.spqr_edges[x].endpoints.1.0 as int].block == BlockIndex(bb as usize)
                } by {
                assert(v.blocks[bb].spqr_edges == v0.blocks[bb].spqr_edges);
                let x = v0.blocks[bb].spqr_edges[i].0 as int;
                assert(x < v0.spqr_edges.len());
                assert(v0.spqr_edges[x] == v0.spqr_edges[x]);
            }
        }
    }

    proof fn lemma_spqr_node_added_partitions(&self, v0: BuilderView, block: BlockIndex, nodes: Seq<usize>, t: SPQRNodeType)
        requires
            self.spec_graph().wf(),
            v0.wf_for(self.spec_graph()@),
            v0.can_add_spqr_node(block, nodes),
            self@ == v0.with_spqr_node(block, nodes, t),
        ensures
            self@.partitions_ok(),
    {
        let g = self.spec_graph()@;
        let v = self@;
        let s = SPQRNodeIndex(v0.spqr_nodes.len() as usize);
        vstd::std_specs::vec::axiom_spec_len(&self.spqr_nodes);
        assert forall|bb: int, x: int|
            0 <= bb < v.blocks.len() && 0 <= x < v.spqr_nodes.len() implies (
            #[trigger] v.blocks[bb].spqr_nodes.contains(SPQRNodeIndex(x as usize))
                <==> (#[trigger] v.spqr_nodes[x]).block.0 == bb) by {
            assert((x as usize) as int == x);
            lemma_push_contains(v0.blocks[bb].spqr_nodes, s, SPQRNodeIndex(x as usize));
            if v0.blocks[bb].spqr_nodes.contains(s) {
                let i = choose|i: int| 0 <= i < v0.blocks[bb].spqr_nodes.len() && v0.blocks[bb].spqr_nodes[i] == s;
                assert(v0.blocks[bb].spqr_nodes[i].0 < v0.spqr_nodes.len());
            }
            if x < v0.spqr_nodes.len() {
                assert(v0.blocks[bb].spqr_nodes.contains(SPQRNodeIndex(x as usize)) <==> v0.spqr_nodes[x].block.0 == bb);
            }
        }
        assert forall|bb: int| 0 <= bb < v.blocks.len() implies (#[trigger] v.blocks[bb]).spqr_nodes.no_duplicates()
            && v.blocks[bb].spqr_edges.no_duplicates() && v.blocks[bb].cut_nodes.no_duplicates() by {
            if bb == block.0 {
                if v0.blocks[bb].spqr_nodes.contains(s) {
                    let i = choose|i: int| 0 <= i < v0.blocks[bb].spqr_nodes.len() && v0.blocks[bb].spqr_nodes[i] == s;
                    assert(v0.blocks[bb].spqr_nodes[i].0 < v0.spqr_nodes.len());
                }
                lemma_push_no_duplicates(v0.blocks[bb].spqr_nodes, s);
            }
        }
        assert forall|bb: int, x: int|
            0 <= bb < v.blocks.len() && 0 <= x < v.spqr_edges.len() implies (
            #[trigger] v.blocks[bb].spqr_edges.contains(SPQREdgeIndex(x as usize))
                <==> v.spqr_nodes[(#[trigger] v.spqr_edges[x]).endpoints.0.0 as int].block.0 == bb) by {
            let t = v0.spqr_edges[x];
            assert(t.endpoints.0.0 < v0.spqr_nodes.len());
            assert(v0.blocks[bb].spqr_edges.contains(SPQREdgeIndex(x as usize))
                <==> v0.spqr_nodes[t.endpoints.0.0 as int].block.0 == bb);
        }
        assert forall|x: int| 0 <= x < v.spqr_nodes.len() implies (#[trigger] v.spqr_nodes[x]).edges.no_duplicates() by {
            if x < v0.spqr_nodes.len() {
                assert(v0.spqr_nodes[x].edges.no_duplicates());
            }
        }
        assert forall|x: int, i: int|
            0 <= x < v.spqr_nodes.len() && 0 <= i < v.spqr_nodes[x].nodes.len()
                implies v.node_data[(#[trigger] v.spqr_nodes[x].nodes[i]) as int].block_indices.contains(
                v.spqr_nodes[x].block,
            ) by {
            if x < v0.spqr_nodes.len() {
                assert(v0.node_data[v0.spqr_nodes[x].nodes[i] as int].block_indices.contains(v0.spqr_nodes[x].block));
            } else {
                assert(nodes[i] < v0.node_data.len());
                assert(v0.node_data[nodes[i] as int].block_indices.contains(block));
            }
        }
        assert forall|c: int| 0 <= c < v.components.len() implies (#[trigger] v.components[c]).blocks.no_duplicates()
            && v.components[c].cut_nodes.no_duplicates() by {
            assert(v0.components[c].blocks.no_duplicates() && v0.components[c].cut_nodes.no_duplicates());
        }
    }

    proof fn lemma_spqr_node_added(&self, v0: BuilderView, block: BlockIndex, nodes: Seq<usize>, t: SPQRNodeType)
        requires
            self.spec_graph().wf(),
            v0.wf_for(self.spec_graph()@),
            v0.can_add_spqr_node(block, nodes),
            self@ == v0.with_spqr_node(block, nodes, t),
        ensures
            self.wf(),
    {
        self.lemma_spqr_node_added_partitions(v0, block, nodes, t);
        let g = self.spec_graph()@;
        let v = self@;
        let s = SPQRNodeIndex(v0.spqr_nodes.len() as usize);
        self.lemma_spqr_node_added_links(v0, block, nodes, t);
        assert forall|n: int| 0 <= n < v.node_data.len() implies (#[trigger] v.node_data[n]).component_index
            == v0.node_data[n].component_index && v.node_data[n].block_indices == v0.node_data[n].block_indices
            && v.node_data[n].cut_node_index == v0.node_data[n].cut_node_index by {}
        assert forall|bb: int| 0 <= bb < v.blocks.len() implies (#[trigger] v.blocks[bb]).component == v0.blocks[bb].component by {}
        assert forall|x: int| 0 <= x < v0.spqr_nodes.len() implies (#[trigger] v.spqr_nodes[x]) == v0.spqr_nodes[x] by {}
        assert(v.bounds_ok()) by {
            assert forall|n: int| 0 <= n < v.node_data.len() implies {
                &&& forall|i: int|
                    0 <= i < (#[trigger] v.node_data[n]).spqr_node_indices.len() ==> (
                    #[trigger] v.node_data[n].spqr_node_indices[i]).0 < v.spqr_nodes.len()
                &&& forall|i: int|
                    0 <= i < v.node_data[n].block_indices.len() ==> (
                    #[trigger] v.node_data[n].block_indices[i]).0 < v.blocks.len()
                &&& (v.node_data[n].component_index matches Some(c) ==> c.0 < v.components.len())
                &&& (v.node_data[n].cut_node_index matches Some(k) ==> k.0 < v.cut_nodes.len())
            } by {
                let old_list = v0.node_data[n].spqr_node_indices;
                assert(forall|i: int| 0 <= i < old_list.len() ==> (#[trigger] old_list[i]).0 < v0.spqr_nodes.len());
                assert(forall|i: int|
                    0 <= i < v0.node_data[n].block_indices.len() ==> (
                    #[trigger] v0.node_data[n].block_indices[i]).0 < v0.blocks.len());
                assert(v0.node_data[n].component_index matches Some(c) ==> c.0 < v0.components.len());
                assert(v0.node_data[n].cut_node_index matches Some(k) ==> k.0 < v0.cut_nodes.len());
            }
            assert forall|e: int| 0 <= e < v.edge_data.len() implies ((#[trigger] v.edge_data[e]).spqr_node_index matches Some(x) ==> x.0
                    < v.spqr_nodes.len()) by {
                assert(v0.edge_data[e].spqr_node_index matches Some(x) ==> x.0 < v0.spqr_nodes.len());
            }
            assert forall|bb: int| 0 <= bb < v.blocks.len() implies (#[trigger] v.blocks[bb]).component.0
                < v.components.len() by {
                assert(v0.blocks[bb].component.0 < v0.components.len());
            }
            assert forall|x: int| 0 <= x < v.spqr_nodes.len() implies (#[trigger] v.spqr_nodes[x]).block.0
                < v.blocks.len() by {
                if x < v0.spqr_nodes.len() {
                    assert(v0.spqr_nodes[x].block.0 < v0.blocks.len());
                }
            }
        }
        assert(v.components_partition()) by {
            assert forall|n: int, c2: int|
                0 <= n < v.node_data.len() && 0 <= c2 < v.components.len() implies (
                #[trigger] v.components[c2].nodes.contains(n as usize) <==> (#[trigger] v.node_data[n]).component_index
                    == Some(ComponentIndex(c2 as usize))) by {
                assert(v0.components[c2].nodes.contains(n as usize) <==> v0.node_data[n].component_index
                    == Some(ComponentIndex(c2 as usize)));
            }
        }
        assert(v.edge_components_ok(g)) by {
            assert forall|e: int| 0 <= e < v.edge_data.len() implies {
                let x = g.endpoints[e].0 as int;
                let y = g.endpoints[e].1 as int;
                &&& (v.node_data[x].component_index is Some ==> (#[trigger] v.edge_data[e]).component_index
                    == v.node_data[x].component_index)
                &&& (v.node_data[y].component_index is Some ==> v.edge_data[e].component_index
                    == v.node_data[y].component_index)
                &&& (v.node_data[x].component_index is None
                    && v.node_data[y].component_index is None
                    ==> v.edge_data[e].component_index is None)
            } by {
                assert(v0.edge_data[e] == v.edge_data[e]);
                assert(v.node_data[g.endpoints[e].0 as int].component_index == v0.node_data[g.endpoints[e].0 as int].component_index);
                assert(v.node_data[g.endpoints[e].1 as int].component_index == v0.node_data[g.endpoints[e].1 as int].component_index);
            }
        }
        assert(v.edge_blocks_ok(g)) by {
            assert forall|e: int, bb: BlockIndex|
                #![trigger v.edge_data[e], v.node_data[g.endpoints[e].0 as int].block_indices.contains(bb)]
                0 <= e < v.edge_data.len() implies (v.edge_data[e].block_index == Some(bb) <==> {
                    &&& v.node_data[g.endpoints[e].0 as int].block_indices.contains(bb)
                    &&& v.node_data[g.endpoints[e].1 as int].block_indices.contains(bb)
                }) by {
                assert(v0.edge_data[e] == v.edge_data[e]);
                assert(v.node_data[g.endpoints[e].0 as int].block_indices == v0.node_data[g.endpoints[e].0 as int].block_indices);
                assert(v.node_data[g.endpoints[e].1 as int].block_indices == v0.node_data[g.endpoints[e].1 as int].block_indices);
                assert(v0.edge_data[e].block_index == Some(bb) <==> {
                    &&& v0.node_data[g.endpoints[e].0 as int].block_indices.contains(bb)
                    &&& v0.node_data[g.endpoints[e].1 as int].block_indices.contains(bb)
                });
            }
        }
        assert(v.poles_shared()) by {
            assert forall|x: int| 0 <= x < v.spqr_edges.len() implies {
                let t = #[trigger] v.spqr_edges[x];
                &&& t.endpoints.0.0 < v.spqr_nodes.len()
                &&& t.endpoints.1.0 < v.spqr_nodes.len()
                &&& v.spqr_nodes[t.endpoints.0.0 as int].nodes.contains(t.virtual_edge.0)
                &&& v.spqr_nodes[t.endpoints.0.0 as int].nodes.contains(t.virtual_edge.1)
                &&& v.spqr_nodes[t.endpoints.1.0 as int].nodes.contains(t.virtual_edge.0)
                &&& v.spqr_nodes[t.endpoints.1.0 as int].nodes.contains(t.virtual_edge.1)
            } by {
                assert(v0.spqr_edges[x] == v.spqr_edges[x]);
                let t = v0.spqr_edges[x];
                assert(v.spqr_nodes[t.endpoints.0.0 as int] == v0.spqr_nodes[t.endpoints.0.0 as int]);
                assert(v.spqr_nodes[t.endpoints.1.0 as int] == v0.spqr_nodes[t.endpoints.1.0 as int]);
            }
        }
        assert(v.skeletons_sized()) by {
            assert forall|x: int| 0 <= x < v.spqr_nodes.len() implies (#[trigger] v.spqr_nodes[x]).nodes.len() >= 2 by {
                if x < v0.spqr_nodes.len() {
                    assert(v0.spqr_nodes[x].nodes.len() >= 2);
                }
            }
        }
        assert(v.cut_nodes_linked()) by {
            assert forall|k: int| 0 <= k < v.cut_nodes.len() implies {
                &&& (#[trigger] v.cut_nodes[k]).node < v.node_data.len()
                &&& v.node_data[v.cut_nodes[k].node as int].cut_node_index == Some(CutNodeIndex(k as usize))
            } by {
                assert(v0.cut_nodes[k].node < v0.node_data.len());
                assert(v.node_data[v.cut_nodes[k].node as int].cut_node_index == v0.node_data[v.cut_nodes[k].node as int].cut_node_index);
            }
        }
    }

    /// Places graph edge `edge` in SPQR node `spqr_node`, where it is a real edge of the skeleton.
    pub fn add_edge_to_spqr_node(&mut self, edge: usize, spqr_node: SPQRNodeIndex) -> (r: Result<
        (),
        BuildError,
    >)
        requires
            old(self).wf(),
        ensures
            final(self).spec_graph() == old(self).spec_graph(),
            r is Ok <==> old(self)@.can_add_edge_to_spqr_node(old(self).spec_graph()@, edge, spqr_node),
            r is Ok ==> {
                &&& final(self).wf()
                &&& final(self)@ == old(self)@.with_edge_in_spqr_node(edge, spqr_node)
            },
    {
        let ghost g = self.graph@;
        let ghost v0 = self@;
        if edge >= self.edge_data.len() {
            return Err(BuildError::EdgeOutOfRange);
        }
        if spqr_node.0 >= self.spqr_nodes.len() {
            return Err(BuildError::UnknownSPQRNode);
        }
        if self.edge_data[edge].spqr_node_index.is_some() {
            return Err(BuildError::EdgeAlreadyInSPQRNode);
        }
        match self.edge_data[edge].block_index {
            Some(eb) => {
                if eb != self.spqr_nodes[spqr_node.0].block {
                    return Err(BuildError::EdgeOutsideBlock);
                }
            },
            None => {
                return Err(BuildError::EdgeOutsideBlock);
            },
        }
        let (a, b) = self.graph.edge_endpoints(edge);
        assert(g.endpoints[edge as int] == (a, b));
        if !contains_node(&self.spqr_nodes[spqr_node.0].nodes, a) {
            return Err(BuildError::EdgeNotInSPQRNode);
        }
        if !contains_node(&self.spqr_nodes[spqr_node.0].nodes, b) {
            return Err(BuildError::EdgeNotInSPQRNode);
        }
        self.edge_data[edge].spqr_node_index = Some(spqr_node);
        self.spqr_nodes[spqr_node.0].edges.push(edge);
        proof {
            let w = v0.with_edge_in_spqr_node(edge, spqr_node);
            assert(self@.spqr_nodes =~= w.spqr_nodes);
            assert(self@.edge_data =~= w.edge_data);
            assert(self@ == w);
            self.lemma_edge_placed(v0, edge, spqr_node);
        }
        Ok(())
    }

    /// Placing an edge in an SPQR node, where it may be placed, keeps the builder's rules.
    proof fn lemma_edge_placed_links(&self, v0: BuilderView, edge: usize, spqr_node: SPQRNodeIndex)
        requires
            self.spec_graph().wf(),
            v0.wf_for(self.spec_graph()@),
            v0.can_add_edge_to_spqr_node(self.spec_graph()@, edge, spqr_node),
            self@ == v0.with_edge_in_spqr_node(edge, spqr_node),
        ensures
            self@.links_ok(),
    {
        let g = self.spec_graph()@;
        let v = self@;
        assert(v.links_ok()) by {
            assert forall|x: int, e: int|
                0 <= x < v.spqr_nodes.len() && 0 <= e < v.edge_data.len() implies (
                #[trigger] v.spqr_nodes[x].edges.contains(e as usize) <==> v.edge_data[e].spqr_node_index
                    == Some(SPQRNodeIndex(x as usize))) by {
                assert(v0.spqr_nodes[x].edges.contains(e as usize) <==> v0.edge_data[e].spqr_node_index
                    == Some(SPQRNodeIndex(x as usize)));
                assert(v0.edge_data.len() < usize::MAX);
                assert((e as usize) as int == e);
                vstd::std_specs::vec::axiom_spec_len(&self.spqr_nodes);
                assert((x as usize) as int == x);
                assert(v0.edge_data[edge as int].spqr_node_index is None);
                if x == spqr_node.0 {
                    lemma_push_contains(v0.spqr_nodes[x].edges, edge, e as usize);
                    assert(v.spqr_nodes[x].edges == v0.spqr_nodes[x].edges.push(edge));
                } else {
                    assert(v.spqr_nodes[x] == v0.spqr_nodes[x]);
                }
                if e == edge as int {
                    assert(v.edge_data[e].spqr_node_index == Some(spqr_node));
                } else {
                    assert(v.edge_data[e] == v0.edge_data[e]);
                }
            }
            assert forall|e: int|
                0 <= e < v.edge_data.len() implies ((#[trigger] v.edge_data[e]).spqr_node_index matches Some(y)
                    ==> v.edge_data[e].block_index == Some(v.spqr_nodes[y.0 as int].block)) by {
                assert(v0.edge_data[e].spqr_node_index matches Some(y)
                    ==> v0.edge_data[e].block_index == Some(v0.spqr_nodes[y.0 as int].block) && y.0 < v0.spqr_nodes.len());
            }
            assert forall|x: int| 0 <= x < v.spqr_nodes.len() implies v.blocks[(#[trigger] v.spqr_nodes[x]).block.0 as int].spqr_nodes.contains(
                SPQRNodeIndex(x as usize),
            ) by {
                assert(v0.blocks[v0.spqr_nodes[x].block.0 as int].spqr_nodes.contains(SPQRNodeIndex(x as usize)));
            }
            assert forall|x: int, i: int|
                0 <= x < v.spqr_nodes.len() && 0 <= i < v.spqr_nodes[x].nodes.len()
                    implies v.node_data[(#[trigger] v.spqr_nodes[x].nodes[i]) as int].spqr_node_indices.contains(
                    SPQRNodeIndex(x as usize),
                ) by {
                assert(v.spqr_nodes[x].nodes == v0.spqr_nodes[x].nodes);
                assert(v0.node_data[v0.spqr_nodes[x].nodes[i] as int].spqr_node_indices.contains(SPQRNodeIndex(x as usize)));
            }
            assert forall|bb: int, i: int|
                0 <= bb < v.blocks.len() && 0 <= i < v.blocks[bb].spqr_edges.len() implies {
                    let x = (#[trigger] v.blocks[bb].spqr_edges[i]).0 as int;
                    &&& v.spqr_nodes[v.spqr_edges[x].endpoints.0.0 as int].block == BlockIndex(bb as usize)
                    &&& v.spqr_nodes[v.spqr_edges[x].endpoints.1.0 as int].block == BlockIndex(bb as usize)
                } by {
                let x = v0.blocks[bb].spqr_edges[i].0 as int;
                assert(x < v0.spqr_edges.len());
                let t = v0.spqr_edges[x];
                assert(t.endpoints.0.0 < v0.spqr_nodes.len());
                assert(t.endpoints.1.0 < v0.spqr_nodes.len());
            }
        }
    }

    proof fn lemma_edge_placed_partitions(&self, v0: BuilderView, edge: usize, spqr_node: SPQRNodeIndex)
        requires
            self.spec_graph().wf(),
            v0.wf_for(self.spec_graph()@),
            v0.can_add_edge_to_spqr_node(self.spec_graph()@, edge, spqr_node),
            self@ == v0.with_edge_in_spqr_node(edge, spqr_node),
        ensures
            self@.partitions_ok(),
    {
        let g = self.spec_graph()@;
        let v = self@;
        assert forall|x: int| 0 <= x < v.spqr_nodes.len() implies (#[trigger] v.spqr_nodes[x]).edges.no_duplicates() by {
            assert(v0.spqr_nodes[x].edges.no_duplicates());
            if x == spqr_node.0 {
                assert(v0.spqr_nodes[x].edges.contains((edge as int) as usize) <==> v0.edge_data[edge as int].spqr_node_index
                    == Some(SPQRNodeIndex(x as usize)));
                assert(v0.edge_data[edge as int].spqr_node_index is None);
                lemma_push_no_duplicates(v0.spqr_nodes[x].edges, edge);
            }
        }
        assert forall|bb: int, x: int|
            0 <= bb < v.blocks.len() && 0 <= x < v.spqr_nodes.len() implies (
            #[trigger] v.blocks[bb].spqr_nodes.contains(SPQRNodeIndex(x as usize))
                <==> (#[trigger] v.spqr_nodes[x]).block.0 == bb) by {
            assert(v0.blocks[bb].spqr_nodes.contains(SPQRNodeIndex(x as usize)) <==> v0.spqr_nodes[x].block.0 == bb);
        }
        assert forall|bb: int, x: int|
            0 <= bb < v.blocks.len() && 0 <= x < v.spqr_edges.len() implies (
            #[trigger] v.blocks[bb].spqr_edges.contains(SPQREdgeIndex(x as usize))
                <==> v.spqr_nodes[(#[trigger] v.spqr_edges[x]).endpoints.0.0 as int].block.0 == bb) by {
            let t = v0.spqr_edges[x];
            assert(t.endpoints.0.0 < v0.spqr_nodes.len());
            assert(v0.blocks[bb].spqr_edges.contains(SPQREdgeIndex(x as usize))
                <==> v0.spqr_nodes[t.endpoints.0.0 as int].block.0 == bb);
        }
        assert forall|x: int, i: int|
            0 <= x < v.spqr_nodes.len() && 0 <= i < v.spqr_nodes[x].nodes.len()
                implies v.node_data[(#[trigger] v.spqr_nodes[x].nodes[i]) as int].block_indices.contains(
                v.spqr_nodes[x].block,
            ) by {
            assert(v0.node_data[v0.spqr_nodes[x].nodes[i] as int].block_indices.contains(v0.spqr_nodes[x].block));
        }
    }

    proof fn lemma_edge_placed(&self, v0: BuilderView, edge: usize, spqr_node: SPQRNodeIndex)
        requires
            self.spec_graph().wf(),
            v0.wf_for(self.spec_graph()@),
            v0.can_add_edge_to_spqr_node(self.spec_graph()@, edge, spqr_node),
            self@ == v0.with_edge_in_spqr_node(edge, spqr_node),
        ensures
            self.wf(),
    {
        self.lemma_edge_placed_partitions(v0, edge, spqr_node);
        let g = self.spec_graph()@;
        let v = self@;
        self.lemma_edge_placed_links(v0, edge, spqr_node);
        assert forall|x: int| 0 <= x < v.spqr_nodes.len() implies (#[trigger] v.spqr_nodes[x]).nodes
            == v0.spqr_nodes[x].nodes && v.spqr_nodes[x].block == v0.spqr_nodes[x].block by {}
        assert forall|e: int| 0 <= e < v.edge_data.len() implies (#[trigger] v.edge_data[e]).component_index
            == v0.edge_data[e].component_index && v.edge_data[e].block_index == v0.edge_data[e].block_index by {}
        assert(v.bounds_ok()) by {
            assert forall|e: int| 0 <= e < v.edge_data.len() implies {
                &&& ((#[trigger] v.edge_data[e]).component_index matches Some(c) ==> c.0 < v.components.len())
                &&& (v.edge_data[e].block_index matches Some(bb) ==> bb.0 < v.blocks.len())
                &&& (v.edge_data[e].spqr_node_index matches Some(x) ==> x.0 < v.spqr_nodes.len())
            } by {
                assert(v0.edge_data[e].component_index matches Some(c) ==> c.0 < v0.components.len());
                assert(v0.edge_data[e].block_index matches Some(bb) ==> bb.0 < v0.blocks.len());
                assert(v0.edge_data[e].spqr_node_index matches Some(x) ==> x.0 < v0.spqr_nodes.len());
            }
            assert forall|x: int| 0 <= x < v.spqr_nodes.len() implies (#[trigger] v.spqr_nodes[x]).block.0
                < v.blocks.len() by {
                assert(v0.spqr_nodes[x].block.0 < v0.blocks.len());
            }
        }
        assert(v.edge_components_ok(g)) by {
            assert forall|e: int| 0 <= e < v.edge_data.len() implies {
                let x = g.endpoints[e].0 as int;
                let y = g.endpoints[e].1 as int;
                &&& (v.node_data[x].component_index is Some ==> (#[trigger] v.edge_data[e]).component_index
                    == v.node_data[x].component_index)
                &&& (v.node_data[y].component_index is Some ==> v.edge_data[e].component_index
                    == v.node_data[y].component_index)
                &&& (v.node_data[x].component_index is None
                    && v.node_data[y].component_index is None
                    ==> v.edge_data[e].component_index is None)
            } by {
            }
        }
        assert(v.edge_blocks_ok(g)) by {
            assert forall|e: int, bb: BlockIndex|
                #![trigger v.edge_data[e], v.node_data[g.endpoints[e].0 as int].block_indices.contains(bb)]
                0 <= e < v.edge_data.len() implies (v.edge_data[e].block_index == Some(bb) <==> {
                    &&& v.node_data[g.endpoints[e].0 as int].block_indices.contains(bb)
                    &&& v.node_data[g.endpoints[e].1 as int].block_indices.contains(bb)
                }) by {
                assert(v0.edge_data[e].block_index == Some(bb) <==> {
                    &&& v0.node_data[g.endpoints[e].0 as int].block_indices.contains(bb)
                    &&& v0.node_data[g.endpoints[e].1 as int].block_indices.contains(bb)
                });
            }
        }
        assert(v.poles_shared()) by {
            assert forall|x: int| 0 <= x < v.spqr_edges.len() implies {
                let t = #[trigger] v.spqr_edges[x];
                &&& t.endpoints.0.0 < v.spqr_nodes.len()
                &&& t.endpoints.1.0 < v.spqr_nodes.len()
                &&& v.spqr_nodes[t.endpoints.0.0 as int].nodes.contains(t.virtual_edge.0)
                &&& v.spqr_nodes[t.endpoints.0.0 as int].nodes.contains(t.virtual_edge.1)
                &&& v.spqr_nodes[t.endpoints.1.0 as int].nodes.contains(t.virtual_edge.0)
                &&& v.spqr_nodes[t.endpoints.1.0 as int].nodes.contains(t.virtual_edge.1)
            } by {
                assert(v0.spqr_edges[x] == v.spqr_edges[x]);
            }
        }
        assert(v.skeletons_sized()) by {
            assert forall|x: int| 0 <= x < v.spqr_nodes.len() implies (#[trigger] v.spqr_nodes[x]).nodes.len() >= 2 by {
                assert(v0.spqr_nodes[x].nodes.len() >= 2);
            }
        }
        }

    /// Adding an SPQR edge keeps the lists exact.
    proof fn lemma_spqr_edge_added_partitions(
        &self,
        v0: BuilderView,
        block: BlockIndex,
        endpoints: (SPQRNodeIndex, SPQRNodeIndex),
        virtual_edge: (usize, usize),
    )
        requires
            v0.wf_for(self.spec_graph()@),
            block.0 < v0.blocks.len(),
            endpoints.0.0 < v0.spqr_nodes.len(),
            endpoints.1.0 < v0.spqr_nodes.len(),
            v0.spqr_nodes[endpoints.0.0 as int].block == block,
            v0.spqr_edges.len() < NO_INDEX,
            self@ == v0.with_spqr_edge(block, endpoints, virtual_edge),
        ensures
            self@.partitions_ok(),
    {
        let v = self@;
        let x = SPQREdgeIndex(v0.spqr_edges.len() as usize);
        vstd::std_specs::vec::axiom_spec_len(&self.spqr_edges);
        assert forall|bb: int, y: int|
            0 <= bb < v.blocks.len() && 0 <= y < v.spqr_edges.len() implies (
            #[trigger] v.blocks[bb].spqr_edges.contains(SPQREdgeIndex(y as usize))
                <==> v.spqr_nodes[(#[trigger] v.spqr_edges[y]).endpoints.0.0 as int].block.0 == bb) by {
            assert((y as usize) as int == y);
            if v0.blocks[bb].spqr_edges.contains(x) {
                let i = choose|i: int| 0 <= i < v0.blocks[bb].spqr_edges.len() && v0.blocks[bb].spqr_edges[i] == x;
                assert(v0.blocks[bb].spqr_edges[i].0 < v0.spqr_edges.len());
            }
            if bb == block.0 {
                lemma_push_contains(v0.blocks[bb].spqr_edges, x, SPQREdgeIndex(y as usize));
            }
            if y < v0.spqr_edges.len() {
                let t = v0.spqr_edges[y];
                assert(t.endpoints.0.0 < v0.spqr_nodes.len());
                assert(v0.blocks[bb].spqr_edges.contains(SPQREdgeIndex(y as usize))
                    <==> v0.spqr_nodes[t.endpoints.0.0 as int].block.0 == bb);
            }
        }
        assert forall|bb: int| 0 <= bb < v.blocks.len() implies (#[trigger] v.blocks[bb]).spqr_nodes.no_duplicates()
            && v.blocks[bb].spqr_edges.no_duplicates() && v.blocks[bb].cut_nodes.no_duplicates() by {
            assert(v0.blocks[bb].spqr_nodes.no_duplicates() && v0.blocks[bb].spqr_edges.no_duplicates()
                && v0.blocks[bb].cut_nodes.no_duplicates());
            if bb == block.0 {
                if v0.blocks[bb].spqr_edges.contains(x) {
                    let i = choose|i: int| 0 <= i < v0.blocks[bb].spqr_edges.len() && v0.blocks[bb].spqr_edges[i] == x;
                    assert(v0.blocks[bb].spqr_edges[i].0 < v0.spqr_edges.len());
                }
                lemma_push_no_duplicates(v0.blocks[bb].spqr_edges, x);
            }
        }
        assert forall|bb: int, y: int|
            0 <= bb < v.blocks.len() && 0 <= y < v.spqr_nodes.len() implies (
            #[trigger] v.blocks[bb].spqr_nodes.contains(SPQRNodeIndex(y as usize))
                <==> (#[trigger] v.spqr_nodes[y]).block.0 == bb) by {
            assert(v0.blocks[bb].spqr_nodes.contains(SPQRNodeIndex(y as usize)) <==> v0.spqr_nodes[y].block.0 == bb);
        }
        assert forall|bb: int, k: int|
            0 <= bb < v.blocks.len() && 0 <= k < v.cut_nodes.len() implies (
            #[trigger] v.blocks[bb].cut_nodes.contains(CutNodeIndex(k as usize))
                <==> (#[trigger] v.cut_nodes[k]).adjacent_blocks.contains(BlockIndex(bb as usize))) by {
            assert(v0.blocks[bb].cut_nodes.contains(CutNodeIndex(k as usize))
                <==> v0.cut_nodes[k].adjacent_blocks.contains(BlockIndex(bb as usize)));
        }
        assert forall|y: int| 0 <= y < v.spqr_nodes.len() implies (#[trigger] v.spqr_nodes[y]).edges.no_duplicates() by {
            assert(v0.spqr_nodes[y].edges.no_duplicates());
        }
        assert forall|y: int, i: int|
            0 <= y < v.spqr_nodes.len() && 0 <= i < v.spqr_nodes[y].nodes.len()
                implies v.node_data[(#[trigger] v.spqr_nodes[y].nodes[i]) as int].block_indices.contains(
                v.spqr_nodes[y].block,
            ) by {
            assert(v0.node_data[v0.spqr_nodes[y].nodes[i] as int].block_indices.contains(v0.spqr_nodes[y].block));
        }
    }

    /// Adds an SPQR tree edge joining `endpoints`, standing for the virtual edge between the
    /// poles `virtual_edge`. Without a `block`, the block of the endpoints is taken.
    pub fn add_spqr_edge(
        &mut self,
        block: Option<BlockIndex>,
        endpoints: (SPQRNodeIndex, SPQRNodeIndex),
        virtual_edge: (usize, usize),
    ) -> (r: Result<SPQREdgeIndex, BuildError>)
        requires
            old(self).wf(),
        ensures
            final(self).spec_graph() == old(self).spec_graph(),
            r is Ok <==> old(self)@.can_add_spqr_edge(block, endpoints, virtual_edge),
            r matches Err(e) ==> e == old(self)@.spqr_edge_error(block, endpoints),
            r matches Ok(x) ==> {
                &&& x.0 == old(self)@.spqr_edges.len()
                &&& final(self).wf()
                &&& final(self)@ == old(self)@.with_spqr_edge(
                    old(self)@.spqr_edge_block(block, endpoints),
                    endpoints,
                    virtual_edge,
                )
            },
    {
        let ghost g = self.graph@;
        let ghost v0 = self@;
        if self.spqr_edges.len() == NO_INDEX {
            return Err(BuildError::IndexSpaceExhausted);
        }
        let (u, w) = endpoints;
        if u.0 >= self.spqr_nodes.len() || w.0 >= self.spqr_nodes.len() {
            return Err(BuildError::UnknownSPQRNode);
        }
        let block = match block {
            Some(b) => b,
            None => self.spqr_nodes[u.0].block,
        };
        if self.spqr_nodes[u.0].block != block || self.spqr_nodes[w.0].block != block {
            return Err(BuildError::SPQREdgeBetweenDifferentBlocks);
        }
        let (pa, pb) = virtual_edge;
        if !contains_node(&self.spqr_nodes[u.0].nodes, pa) || !contains_node(&self.spqr_nodes[u.0].nodes, pb)
            || !contains_node(&self.spqr_nodes[w.0].nodes, pa) || !contains_node(&self.spqr_nodes[w.0].nodes, pb) {
            return Err(BuildError::PoleNotShared);
        }
        assert(block.0 < v0.blocks.len());
        let x = SPQREdgeIndex(self.spqr_edges.len());
        self.blocks[block.0].spqr_edges.push(x);
        self.spqr_nodes[u.0].spqr_edges.push(x);
        if w.0 != u.0 {
            self.spqr_nodes[w.0].spqr_edges.push(x);
        }
        self.spqr_edges.push(SPQREdge { endpoints, virtual_edge });
        proof {
            let wv = v0.with_spqr_edge(block, endpoints, virtual_edge);
            assert(self@.blocks =~= wv.blocks);
            assert(self@.spqr_nodes =~= wv.spqr_nodes);
            assert(self@.spqr_edges =~= wv.spqr_edges);
            assert(self@ == wv);
            self.lemma_spqr_edge_added_partitions(v0, block, endpoints, virtual_edge);
            let v = self@;
            assert forall|s: int| 0 <= s < v.spqr_nodes.len() implies (#[trigger] v.spqr_nodes[s]).nodes
                == v0.spqr_nodes[s].nodes && v.spqr_nodes[s].block == v0.spqr_nodes[s].block by {}
            assert forall|bb: int| 0 <= bb < v.blocks.len() implies (#[trigger] v.blocks[bb]).component == v0.blocks[bb].component by {}
            assert(v.bounds_ok()) by {
                assert forall|s: int| 0 <= s < v.spqr_nodes.len() implies (#[trigger] v.spqr_nodes[s]).block.0
                    < v.blocks.len() by {
                    assert(v0.spqr_nodes[s].block.0 < v0.blocks.len());
                }
                assert forall|bb: int| 0 <= bb < v.blocks.len() implies (#[trigger] v.blocks[bb]).component.0
                    < v.components.len() by {
                    assert(v0.blocks[bb].component.0 < v0.components.len());
                }
            }
            assert(v.poles_shared()) by {
                assert forall|y: int| 0 <= y < v.spqr_edges.len() implies {
                    let t = #[trigger] v.spqr_edges[y];
                    &&& t.endpoints.0.0 < v.spqr_nodes.len()
                    &&& t.endpoints.1.0 < v.spqr_nodes.len()
                    &&& v.spqr_nodes[t.endpoints.0.0 as int].nodes.contains(t.virtual_edge.0)
                    &&& v.spqr_nodes[t.endpoints.0.0 as int].nodes.contains(t.virtual_edge.1)
                    &&& v.spqr_nodes[t.endpoints.1.0 as int].nodes.contains(t.virtual_edge.0)
                    &&& v.spqr_nodes[t.endpoints.1.0 as int].nodes.contains(t.virtual_edge.1)
                } by {
                    if y < v0.spqr_edges.len() {
                        assert(v0.spqr_edges[y] == v.spqr_edges[y]);
                        let t = v0.spqr_edges[y];
                        assert(t.endpoints.0.0 < v0.spqr_nodes.len());
                        assert(t.endpoints.1.0 < v0.spqr_nodes.len());
                    }
                }
            }
            assert(v.links_ok()) by {
                assert forall|bb: int, i: int|
                    0 <= bb < v.blocks.len() && 0 <= i < v.blocks[bb].spqr_edges.len() implies {
                        let y = (#[trigger] v.blocks[bb].spqr_edges[i]).0 as int;
                        &&& v.spqr_nodes[v.spqr_edges[y].endpoints.0.0 as int].block == BlockIndex(bb as usize)
                        &&& v.spqr_nodes[v.spqr_edges[y].endpoints.1.0 as int].block == BlockIndex(bb as usize)
                    } by {
                    vstd::std_specs::vec::axiom_spec_len(&self.blocks);
                    assert((bb as usize) as int == bb);
                    if bb == block.0 && i == v0.blocks[bb].spqr_edges.len() {
                        assert(v.blocks[bb].spqr_edges[i] == x);
                    } else {
                        assert(v.blocks[bb].spqr_edges[i] == v0.blocks[bb].spqr_edges[i]);
                        let y = v0.blocks[bb].spqr_edges[i].0 as int;
                        assert(y < v0.spqr_edges.len());
                        assert(v.spqr_edges[y] == v0.spqr_edges[y]);
                        let t = v0.spqr_edges[y];
                        assert(t.endpoints.0.0 < v0.spqr_nodes.len());
                        assert(t.endpoints.1.0 < v0.spqr_nodes.len());
                    }
                }
                assert forall|bb: int| 0 <= bb < v.blocks.len() implies v.components[(#[trigger] v.blocks[bb]).component.0 as int].blocks.contains(
                    BlockIndex(bb as usize),
                ) by {
                    assert(v0.components[v0.blocks[bb].component.0 as int].blocks.contains(BlockIndex(bb as usize)));
                }
                assert forall|y: int| 0 <= y < v.spqr_nodes.len() implies v.blocks[(#[trigger] v.spqr_nodes[y]).block.0 as int].spqr_nodes.contains(
                    SPQRNodeIndex(y as usize),
                ) by {
                    assert(v0.blocks[v0.spqr_nodes[y].block.0 as int].spqr_nodes.contains(SPQRNodeIndex(y as usize)));
                    assert(v0.spqr_nodes[y].block.0 < v0.blocks.len());
                }
                assert forall|bb: int, i: int|
                    0 <= bb < v.blocks.len() && 0 <= i < v.blocks[bb].nodes.len()
                        implies v.node_data[(#[trigger] v.blocks[bb].nodes[i]) as int].block_indices.contains(
                        BlockIndex(bb as usize),
                    ) by {
                    assert(v0.node_data[v0.blocks[bb].nodes[i] as int].block_indices.contains(BlockIndex(bb as usize)));
                }
                assert forall|y: int, i: int|
                    0 <= y < v.spqr_nodes.len() && 0 <= i < v.spqr_nodes[y].nodes.len()
                        implies v.node_data[(#[trigger] v.spqr_nodes[y].nodes[i]) as int].spqr_node_indices.contains(
                        SPQRNodeIndex(y as usize),
                    ) by {
                    assert(v0.node_data[v0.spqr_nodes[y].nodes[i] as int].spqr_node_indices.contains(SPQRNodeIndex(y as usize)));
                }
                assert forall|y: int, e: int|
                    0 <= y < v.spqr_nodes.len() && 0 <= e < v.edge_data.len() implies (
                    #[trigger] v.spqr_nodes[y].edges.contains(e as usize) <==> v.edge_data[e].spqr_node_index
                        == Some(SPQRNodeIndex(y as usize))) by {
                    assert(v0.spqr_nodes[y].edges.contains(e as usize) <==> v0.edge_data[e].spqr_node_index
                        == Some(SPQRNodeIndex(y as usize)));
                }
                assert forall|e: int|
                    0 <= e < v.edge_data.len() implies ((#[trigger] v.edge_data[e]).spqr_node_index matches Some(y)
                        ==> v.edge_data[e].block_index == Some(v.spqr_nodes[y.0 as int].block)) by {
                    assert(v0.edge_data[e].spqr_node_index matches Some(y)
                        ==> v0.edge_data[e].block_index == Some(v0.spqr_nodes[y.0 as int].block) && y.0 < v0.spqr_nodes.len());
                }
            }
            assert(v.skeletons_sized()) by {
                assert forall|s: int| 0 <= s < v.spqr_nodes.len() implies (#[trigger] v.spqr_nodes[s]).nodes.len() >= 2 by {
                    assert(v0.spqr_nodes[s].nodes.len() >= 2);
                }
            }
        }
        Ok(x)
    }

    /// Whether every node of a single block lies in two or more SPQR nodes exactly when it is a
    /// pole of an SPQR edge.
    fn check_poles(&self) -> (r: bool)
        requires
            self.wf(),
        ensures
            r == forall|n: int|
                0 <= n < self@.node_data.len() && (#[trigger] self@.node_data[n]).block_indices.len() == 1 ==> (
                self@.node_data[n].spqr_node_indices.len() >= 2 <==> self@.is_pole(n)),
    {
        let ghost v = self@;
        let count = self.node_data.len();
        let mut pole: Vec<bool> = Vec::new();
        let mut i: usize = 0;
        while i < count
            invariant
                0 <= i <= count,
                pole@.len() == i,
                forall|m: int| 0 <= m < i ==> !(#[trigger] pole@[m]),
            decreases count - i,
        {
            pole.push(false);
            i = i + 1;
        }
        let mut x: usize = 0;
        while x < self.spqr_edges.len()
            invariant
                self.wf(),
                v == self@,
                count == v.node_data.len(),
                pole@.len() == count,
                0 <= x <= v.spqr_edges.len(),
                forall|m: int|
                    0 <= m < count ==> (#[trigger] pole@[m] <==> exists|y: int|
                        0 <= y < x && ((#[trigger] v.spqr_edges[y]).virtual_edge.0 == m
                            || v.spqr_edges[y].virtual_edge.1 == m)),
            decreases v.spqr_edges.len() - x,
        {
            let t = self.spqr_edges[x];
            proof {
                assert(t == v.spqr_edges[x as int]);
                let u = v.spqr_nodes[t.endpoints.0.0 as int];
                assert(t.endpoints.0.0 < v.spqr_nodes.len());
                assert(u.nodes.contains(t.virtual_edge.0));
                assert(u.nodes.contains(t.virtual_edge.1));
                let i0 = choose|i: int| 0 <= i < u.nodes.len() && u.nodes[i] == t.virtual_edge.0;
                let i1 = choose|i: int| 0 <= i < u.nodes.len() && u.nodes[i] == t.virtual_edge.1;
                assert(u.nodes[i0] < v.node_data.len());
                assert(u.nodes[i1] < v.node_data.len());
            }
            let ghost before = pole@;
            pole.set(t.virtual_edge.0, true);
            pole.set(t.virtual_edge.1, true);
            proof {
                assert forall|m: int|
                    0 <= m < count implies (#[trigger] pole@[m] <==> exists|y: int|
                        0 <= y < x + 1 && ((#[trigger] v.spqr_edges[y]).virtual_edge.0 == m
                            || v.spqr_edges[y].virtual_edge.1 == m)) by {
                    if m == t.virtual_edge.0 || m == t.virtual_edge.1 {
                        assert(v.spqr_edges[x as int] == t);
                    } else {
                        assert(pole@[m] == before[m]);
                        if exists|y: int|
                            0 <= y < x + 1 && ((#[trigger] v.spqr_edges[y]).virtual_edge.0 == m
                                || v.spqr_edges[y].virtual_edge.1 == m) {
                            let y = choose|y: int|
                                0 <= y < x + 1 && ((#[trigger] v.spqr_edges[y]).virtual_edge.0 == m
                                    || v.spqr_edges[y].virtual_edge.1 == m);
                            assert(y != x);
                        }
                    }
                }
            }
            x = x + 1;
        }
        let mut n: usize = 0;
        while n < count
            invariant
                v == self@,
                count == v.node_data.len(),
                pole@.len() == count,
                0 <= n <= count,
                forall|m: int| 0 <= m < count ==> (#[trigger] pole@[m] <==> v.is_pole(m)),
                forall|m: int|
                    0 <= m < n && (#[trigger] v.node_data[m]).block_indices.len() == 1 ==> (
                    v.node_data[m].spqr_node_indices.len() >= 2 <==> v.is_pole(m)),
            decreases count - n,
        {
            assert(self.node_data@[n as int]@ == v.node_data[n as int]);
            if self.node_data[n].block_indices.len() == 1 && (self.node_data[n].spqr_node_indices.len() >= 2)
                != pole[n] {
                return false;
            }
            n = n + 1;
        }
        true
    }

    /// Whether every node and edge is fully assigned and the declared cut nodes are consistent.
    fn check_complete(&self) -> (r: Result<(), BuildError>)
        requires
            self.wf(),
        ensures
            r is Ok <==> self@.can_build(),
    {
        let ghost v = self@;
        let mut n: usize = 0;
        while n < self.node_data.len()
            invariant
                self.wf(),
                v == self@,
                0 <= n <= v.node_data.len(),
                forall|m: int|
                    0 <= m < n ==> {
                        &&& (#[trigger] v.node_data[m]).component_index is Some
                        &&& v.node_data[m].block_indices.len() >= 1
                        &&& v.node_data[m].spqr_node_indices.len() >= 1
                    },
                forall|m: int|
                    0 <= m < n ==> ((#[trigger] v.node_data[m]).cut_node_index matches Some(k) ==> {
                        &&& v.node_data[m].block_indices.len() >= 2
                        &&& v.cut_nodes[k.0 as int].adjacent_blocks.len() == v.node_data[m].block_indices.len()
                    }),
            decreases v.node_data.len() - n,
        {
            let d = &self.node_data[n];
            assert(d@ == v.node_data[n as int]);
            if d.component_index.is_none() || d.block_indices.len() == 0 || d.spqr_node_indices.len() == 0 {
                return Err(BuildError::Incomplete);
            }
            match d.cut_node_index {
                Some(k) => {
                    assert(k.0 < v.cut_nodes.len());
                    if d.block_indices.len() < 2 || self.cut_nodes[k.0].adjacent_blocks.len() != d.block_indices.len() {
                        return Err(BuildError::CutNodeMismatch);
                    }
                },
                None => {},
            }
            n = n + 1;
        }
        let mut e: usize = 0;
        while e < self.edge_data.len()
            invariant
                self.wf(),
                v == self@,
                0 <= e <= v.edge_data.len(),
                forall|f: int|
                    0 <= f < e ==> {
                        &&& (#[trigger] v.edge_data[f]).component_index is Some
                        &&& v.edge_data[f].block_index is Some
                        &&& v.edge_data[f].spqr_node_index is Some
                    },
            decreases v.edge_data.len() - e,
        {
            let d = &self.edge_data[e];
            assert(d@ == v.edge_data[e as int]);
            if d.component_index.is_none() || d.block_index.is_none() || d.spqr_node_index.is_none() {
                return Err(BuildError::Incomplete);
            }
            e = e + 1;
        }
        if !self.check_poles() {
            return Err(BuildError::PoleMismatch);
        }
        Ok(())
    }

    /// Declares every node that belongs to two or more blocks and has no cut node record a cut
    /// node, in node order.
    #[verifier::rlimit(100)]
    fn infer_cut_nodes(&mut self)
        requires
            old(self).wf(),
            old(self)@.can_build(),
        ensures
            final(self).wf(),
            final(self).spec_graph() == old(self).spec_graph(),
            final(self)@.inferred_from(old(self)@, old(self)@.node_data.len() as int),
    {
        let ghost v = self@;
        let ghost g = self.graph@;
        proof {
            assert forall|c: int| 0 <= c < v.components.len() implies (#[trigger] v.components[c]).cut_nodes.subrange(0, v.components[c].cut_nodes.len() as int)
                == v.components[c].cut_nodes by {
                assert(v.components[c].cut_nodes.subrange(0, v.components[c].cut_nodes.len() as int) =~= v.components[c].cut_nodes);
            }
            assert forall|b: int| 0 <= b < v.blocks.len() implies (#[trigger] v.blocks[b]).cut_nodes.subrange(0, v.blocks[b].cut_nodes.len() as int)
                == v.blocks[b].cut_nodes by {
                assert(v.blocks[b].cut_nodes.subrange(0, v.blocks[b].cut_nodes.len() as int) =~= v.blocks[b].cut_nodes);
            }
            assert(v.cut_nodes.subrange(0, v.cut_nodes.len() as int) =~= v.cut_nodes);
        }
        let count = self.node_data.len();
        let mut i: usize = 0;
        while i < count
            invariant
                self.wf(),
                self.spec_graph() == old(self).spec_graph(),
                v == old(self)@,
                v.wf_for(g),
                g == self.spec_graph()@,
                v.can_build(),
                count == v.node_data.len(),
                0 <= i <= count,
                self@.inferred_from(v, i as int),
            decreases count - i,
        {
            let ghost u = self@;
            let d = &self.node_data[i];
            assert(d@ == u.node_data[i as int]);
            if d.cut_node_index.is_none() && d.block_indices.len() >= 2 {
                let list = copy_blocks(&d.block_indices);
                proof {
                    vstd::std_specs::vec::axiom_spec_len(&self.cut_nodes);
                    lemma_cut_nodes_fit(u);
                    assert(list@.no_duplicates());
                    assert forall|j: int| 0 <= j < list@.len() implies u.node_data[i as int].block_indices.contains(#[trigger] list@[j]) by {}
                    assert(u.can_add_cut_node(i, list@));
                }
                let r = self.add_cut_node(i, list);
                match r {
                    Ok(_) => {},
                    Err(_) => {
                        proof {
                            assert(false);
                        }
                    },
                }
                proof {
                    let w = self@;
                    let k = u.cut_nodes.len() as int;
                    assert(w == u.with_cut_node(i, u.node_data[i as int].block_indices));
                    assert forall|c: int| 0 <= c < v.components.len() implies {
                        &&& (#[trigger] w.components[c]).nodes == v.components[c].nodes
                        &&& w.components[c].blocks == v.components[c].blocks
                        &&& w.components[c].cut_nodes.len() >= v.components[c].cut_nodes.len()
                        &&& w.components[c].cut_nodes.subrange(0, v.components[c].cut_nodes.len() as int)
                            == v.components[c].cut_nodes
                    } by {
                        assert(u.components[c].cut_nodes.subrange(0, v.components[c].cut_nodes.len() as int) == v.components[c].cut_nodes);
                        let cc = u.node_data[i as int].component_index.unwrap().0 as int;
                        if c == cc {
                            assert(w.components[c].cut_nodes.subrange(0, v.components[c].cut_nodes.len() as int)
                                =~= u.components[c].cut_nodes.subrange(0, v.components[c].cut_nodes.len() as int));
                        }
                    }
                    assert forall|b: int| 0 <= b < v.blocks.len() implies {
                        &&& (#[trigger] w.blocks[b]).component == v.blocks[b].component
                        &&& w.blocks[b].nodes == v.blocks[b].nodes
                        &&& w.blocks[b].spqr_nodes == v.blocks[b].spqr_nodes
                        &&& w.blocks[b].spqr_edges == v.blocks[b].spqr_edges
                        &&& w.blocks[b].cut_nodes.len() >= v.blocks[b].cut_nodes.len()
                        &&& w.blocks[b].cut_nodes.subrange(0, v.blocks[b].cut_nodes.len() as int)
                            == v.blocks[b].cut_nodes
                    } by {
                        assert(u.blocks[b].cut_nodes.subrange(0, v.blocks[b].cut_nodes.len() as int) == v.blocks[b].cut_nodes);
                        assert(w.blocks[b].cut_nodes.subrange(0, v.blocks[b].cut_nodes.len() as int)
                            =~= u.blocks[b].cut_nodes.subrange(0, v.blocks[b].cut_nodes.len() as int));
                    }
                    assert(w.cut_nodes.subrange(0, v.cut_nodes.len() as int) =~= u.cut_nodes.subrange(0, v.cut_nodes.len() as int));
                    assert forall|kk: int| v.cut_nodes.len() <= kk < w.cut_nodes.len() implies {
                        let n = (#[trigger] w.cut_nodes[kk]).node as int;
                        &&& 0 <= n < i + 1
                        &&& n < v.node_data.len()
                        &&& v.node_data[n].cut_node_index is None
                        &&& v.node_data[n].block_indices.len() >= 2
                        &&& w.cut_nodes[kk].adjacent_blocks == v.node_data[n].block_indices
                        &&& w.cut_nodes[kk].component == v.node_data[n].component_index.unwrap()
                    } by {
                        if kk < k {
                            assert(w.cut_nodes[kk] == u.cut_nodes[kk]);
                        } else {
                            assert(u.node_data[i as int].cut_node_index == v.node_data[i as int].cut_node_index);
                        }
                    }
                    assert forall|kk: int, j: int|
                        v.cut_nodes.len() <= kk < j < w.cut_nodes.len() implies (#[trigger] w.cut_nodes[kk]).node
                            < (#[trigger] w.cut_nodes[j]).node by {
                        if j < k {
                            assert(w.cut_nodes[kk] == u.cut_nodes[kk]);
                            assert(w.cut_nodes[j] == u.cut_nodes[j]);
                        } else {
                            assert(w.cut_nodes[kk] == u.cut_nodes[kk]);
                            assert(u.cut_nodes[kk].node < i);
                        }
                    }
                    assert forall|n: int| 0 <= n < v.node_data.len() implies {
                        &&& (#[trigger] w.node_data[n]).component_index == v.node_data[n].component_index
                        &&& w.node_data[n].block_indices == v.node_data[n].block_indices
                        &&& w.node_data[n].spqr_node_indices == v.node_data[n].spqr_node_indices
                        &&& w.node_data[n].extra_data == v.node_data[n].extra_data
                        &&& (v.node_data[n].cut_node_index is Some ==> w.node_data[n].cut_node_index == v.node_data[n].cut_node_index)
                        &&& (n >= i + 1 ==> w.node_data[n].cut_node_index == v.node_data[n].cut_node_index)
                        &&& (n < i + 1 ==> (w.node_data[n].cut_node_index is Some <==> v.node_data[n].block_indices.len() >= 2))
                    } by {
                    }
                    let base = v.cut_nodes.len() as int;
                    let su = u.cut_nodes.subrange(base, k);
                    let sw = w.cut_nodes.subrange(base, k + 1);
                    assert(sw.drop_last() =~= su);
                    assert(sw.last() == w.cut_nodes[k]);
                    let cc = u.node_data[i as int].component_index.unwrap().0 as int;
                    assert forall|c: int| 0 <= c < v.components.len() implies (#[trigger] w.components[c]).cut_nodes
                        == v.components[c].cut_nodes + component_cut_list(sw, base, c) by {
                        assert(u.components[c].cut_nodes == v.components[c].cut_nodes + component_cut_list(su, base, c));
                        if c == cc {
                            assert(w.components[c].cut_nodes =~= v.components[c].cut_nodes + component_cut_list(sw, base, c));
                        } else {
                            assert(w.components[c].cut_nodes =~= v.components[c].cut_nodes + component_cut_list(sw, base, c));
                        }
                    }
                    assert forall|b: int| 0 <= b < v.blocks.len() implies (#[trigger] w.blocks[b]).cut_nodes
                        == v.blocks[b].cut_nodes + block_cut_list(sw, base, b) by {
                        assert(u.blocks[b].cut_nodes == v.blocks[b].cut_nodes + block_cut_list(su, base, b));
                        assert(w.blocks[b].cut_nodes =~= v.blocks[b].cut_nodes + block_cut_list(sw, base, b));
                    }
                    assert(w.inferred_from(v, i + 1));
                }
            } else {
                proof {
                    let w = self@;
                    assert forall|n: int| 0 <= n < v.node_data.len() implies {
                        &&& (#[trigger] w.node_data[n]).component_index == v.node_data[n].component_index
                        &&& w.node_data[n].block_indices == v.node_data[n].block_indices
                        &&& w.node_data[n].spqr_node_indices == v.node_data[n].spqr_node_indices
                        &&& w.node_data[n].extra_data == v.node_data[n].extra_data
                        &&& (v.node_data[n].cut_node_index is Some ==> w.node_data[n].cut_node_index == v.node_data[n].cut_node_index)
                        &&& (n >= i + 1 ==> w.node_data[n].cut_node_index == v.node_data[n].cut_node_index)
                        &&& (n < i + 1 ==> (w.node_data[n].cut_node_index is Some <==> v.node_data[n].block_indices.len() >= 2))
                    } by {
                        if n == i {
                            assert(v.node_data[n].cut_node_index matches Some(k) ==> v.node_data[n].block_indices.len() >= 2);
                        }
                    }
                    assert forall|kk: int| v.cut_nodes.len() <= kk < w.cut_nodes.len() implies {
                        let n = (#[trigger] w.cut_nodes[kk]).node as int;
                        &&& 0 <= n < i + 1
                    } by {}
                }
            }
            i = i + 1;
        }
    }

    /// Finishes the decomposition.
    ///
    /// Fails unless every node has a component, a block and an SPQR node, every edge has a
    /// component, a block and an SPQR node, and every declared cut node belongs to two or more
    /// blocks, as many as its record lists. Then each remaining node in two or more blocks is
    /// declared a cut node, in node order, and the records become final.
    pub fn build(self) -> (r: Result<SPQRDecomposition<'graph>, BuildError>)
        requires
            self.wf(),
        ensures
            r is Ok <==> self@.can_build(),
            r matches Ok(d) ==> {
                &&& d.spec_graph() == self.spec_graph()
                &&& d@.valid_for(self.spec_graph()@)
                &&& d@.well_indexed(self.spec_graph()@)
                &&& self@.built_as(d@)
            },
    {
        let ghost v = self@;
        let ghost g = self.graph@;
        match self.check_complete() {
            Ok(()) => {},
            Err(e) => {
                return Err(e);
            },
        }
        let mut b = self;
        b.infer_cut_nodes();
        let ghost w = b@;
        proof {
            vstd::std_specs::vec::axiom_spec_len(&b.cut_nodes);
            vstd::std_specs::vec::axiom_spec_len(&b.components);
            lemma_cut_nodes_fit(w);
        }
        assert(w.components.len() <= usize::MAX);
        let SPQRDecompositionBuilder {
            graph,
            components,
            blocks,
            cut_nodes,
            spqr_nodes,
            spqr_edges,
            mut node_data,
            mut edge_data,
        } = b;
        let mut nodes_out: Vec<SPQRDecompositionNodeData> = Vec::new();
        let count = node_data.len();
        let mut i: usize = 0;
        while i < count
            invariant
                count == w.node_data.len(),
                node_data@.len() == count,
                nodes_out@.len() == i,
                0 <= i <= count,
                w.cut_nodes.len() <= count,
                count < usize::MAX,
                w.bounds_ok(),
                w.inferred_from(v, v.node_data.len() as int),
                v.can_build(),
                forall|j: int| 0 <= j < i ==> (#[trigger] nodes_out@[j])@ == finished_node(w.node_data[j]),
                forall|j: int| i <= j < count ==> (#[trigger] node_data@[j])@ == w.node_data[j],
            decreases count - i,
        {
            let mut rec = SPQRDecompositionNodeDataBuilder {
                component_index: None,
                block_indices: Vec::new(),
                cut_node_index: None,
                spqr_node_indices: Vec::new(),
                extra_data: String::new(),
            };
            node_data.set_and_swap(i, &mut rec);
            proof {
                assert(rec@ == w.node_data[i as int]);
                assert(v.node_data[i as int].component_index is Some);
            }
            nodes_out.push(rec.build());
            i = i + 1;
        }
        let mut edges_out: Vec<SPQRDecompositionEdgeData> = Vec::new();
        let count = edge_data.len();
        let mut i: usize = 0;
        while i < count
            invariant
                count == w.edge_data.len(),
                edge_data@.len() == count,
                edges_out@.len() == i,
                0 <= i <= count,
                w.edge_data == v.edge_data,
                v.can_build(),
                forall|j: int| 0 <= j < i ==> (#[trigger] edges_out@[j])@ == finished_edge(w.edge_data[j]),
                forall|j: int| i <= j < count ==> (#[trigger] edge_data@[j])@ == w.edge_data[j],
            decreases count - i,
        {
            let mut rec = SPQRDecompositionEdgeDataBuilder {
                component_index: None,
                block_index: None,
                spqr_node_index: None,
                extra_data: String::new(),
            };
            edge_data.set_and_swap(i, &mut rec);
            proof {
                assert(rec@ == w.edge_data[i as int]);
            }
            edges_out.push(rec.build());
            i = i + 1;
        }
        let d = SPQRDecomposition::from_parts(
            graph,
            components,
            blocks,
            cut_nodes,
            spqr_nodes,
            spqr_edges,
            nodes_out,
            edges_out,
        );
        proof {
            assert(d@.components =~= w.components);
            assert(d@.blocks =~= w.blocks);
            assert(d@.cut_nodes =~= w.cut_nodes);
            assert(d@.spqr_nodes =~= w.spqr_nodes);
            lemma_finished(v, w, d@, g);
        }
        Ok(d)
    }

    /// Setting a node's annotation text keeps the builder's rules.
    proof fn lemma_text_set(&self, v0: BuilderView, node: int, text: Seq<char>)
        requires
            self.spec_graph().wf(),
            v0.wf_for(self.spec_graph()@),
            0 <= node < v0.node_data.len(),
            self@ == v0.with_node_text(node, text),
        ensures
            self.wf(),
    {
        let g = self.spec_graph()@;
        let v = self@;
        assert forall|n: int| 0 <= n < v.node_data.len() implies (#[trigger] v.node_data[n]).component_index
            == v0.node_data[n].component_index && v.node_data[n].block_indices == v0.node_data[n].block_indices
            && v.node_data[n].spqr_node_indices == v0.node_data[n].spqr_node_indices
            && v.node_data[n].cut_node_index == v0.node_data[n].cut_node_index by {}
        assert(v.bounds_ok()) by {
            assert forall|n: int| 0 <= n < v.node_data.len() implies {
                &&& ((#[trigger] v.node_data[n]).component_index matches Some(c) ==> c.0
                    < v.components.len())
                &&& (v.node_data[n].cut_node_index matches Some(k) ==> k.0 < v.cut_nodes.len())
                &&& forall|i: int|
                    0 <= i < v.node_data[n].block_indices.len() ==> (
                    #[trigger] v.node_data[n].block_indices[i]).0 < v.blocks.len()
                &&& forall|i: int|
                    0 <= i < v.node_data[n].spqr_node_indices.len() ==> (
                    #[trigger] v.node_data[n].spqr_node_indices[i]).0 < v.spqr_nodes.len()
                &&& v.node_data[n].block_indices.no_duplicates()
            } by {
            }
        }
        assert(v.components_partition()) by {
            assert forall|n: int, c2: int|
                0 <= n < v.node_data.len() && 0 <= c2 < v.components.len() implies (
                #[trigger] v.components[c2].nodes.contains(n as usize) <==> (#[trigger] v.node_data[n]).component_index
                    == Some(ComponentIndex(c2 as usize))) by {
                assert(v0.components[c2].nodes.contains(n as usize) <==> v0.node_data[n].component_index
                    == Some(ComponentIndex(c2 as usize)));
            }
        }
        assert(v.edge_components_ok(g)) by {
            assert forall|e: int| 0 <= e < v.edge_data.len() implies {
                let x = g.endpoints[e].0 as int;
                let y = g.endpoints[e].1 as int;
                &&& (v.node_data[x].component_index is Some ==> (#[trigger] v.edge_data[e]).component_index
                    == v.node_data[x].component_index)
                &&& (v.node_data[y].component_index is Some ==> v.edge_data[e].component_index
                    == v.node_data[y].component_index)
                &&& (v.node_data[x].component_index is None
                    && v.node_data[y].component_index is None
                    ==> v.edge_data[e].component_index is None)
            } by {
                assert(v0.edge_data[e] == v.edge_data[e]);
                assert(v.node_data[g.endpoints[e].0 as int].component_index == v0.node_data[g.endpoints[e].0 as int].component_index);
                assert(v.node_data[g.endpoints[e].1 as int].component_index == v0.node_data[g.endpoints[e].1 as int].component_index);
            }
        }
        assert(v.edge_blocks_ok(g)) by {
            assert forall|e: int, bb: BlockIndex|
                #![trigger v.edge_data[e], v.node_data[g.endpoints[e].0 as int].block_indices.contains(bb)]
                0 <= e < v.edge_data.len() implies (v.edge_data[e].block_index == Some(bb) <==> {
                    &&& v.node_data[g.endpoints[e].0 as int].block_indices.contains(bb)
                    &&& v.node_data[g.endpoints[e].1 as int].block_indices.contains(bb)
                }) by {
                assert(v0.edge_data[e] == v.edge_data[e]);
                assert(v0.edge_data[e].block_index == Some(bb) <==> {
                    &&& v0.node_data[g.endpoints[e].0 as int].block_indices.contains(bb)
                    &&& v0.node_data[g.endpoints[e].1 as int].block_indices.contains(bb)
                });
            }
        }
        assert(v.cut_nodes_linked()) by {
            assert forall|k: int| 0 <= k < v.cut_nodes.len() implies {
                &&& (#[trigger] v.cut_nodes[k]).node < v.node_data.len()
                &&& v.node_data[v.cut_nodes[k].node as int].cut_node_index == Some(CutNodeIndex(k as usize))
            } by {
                assert(v0.cut_nodes[k].node < v0.node_data.len());
                assert(v.node_data[v.cut_nodes[k].node as int].cut_node_index == v0.node_data[v.cut_nodes[k].node as int].cut_node_index);
            }
        }
    }

    /// The block that an SPQR node lies in.
    pub fn spqr_node_block_index(&self, spqr_node_index: SPQRNodeIndex) -> (r: BlockIndex)
        requires
            spqr_node_index.0 < self@.spqr_nodes.len(),
        ensures
            r == self@.spqr_nodes[spqr_node_index.0 as int].block,
    {
        self.spqr_nodes[spqr_node_index.0].block
    }
}

impl SPQRDecompositionNodeDataBuilder {
    /// The finished record of a node whose component is known.
    fn build(self) -> (r: SPQRDecompositionNodeData)
        requires
            self@.component_index is Some,
            self@.cut_node_index matches Some(k) ==> k.0 != NO_INDEX,
        ensures
            r@ == finished_node(self@),
    {
        let cut_node_index = OptionalCutNodeIndex::from_option(self.cut_node_index);
        match self.component_index {
            Some(component_index) => SPQRDecompositionNodeData {
                component_index,
                block_indices: self.block_indices,
                cut_node_index,
                spqr_node_indices: self.spqr_node_indices,
                extra_data: self.extra_data,
            },
            None => {
                proof {
                    assert(false);
                }
                SPQRDecompositionNodeData {
                    component_index: ComponentIndex(0),
                    block_indices: self.block_indices,
                    cut_node_index,
                    spqr_node_indices: self.spqr_node_indices,
                    extra_data: self.extra_data,
                }
            },
        }
    }
}

impl SPQRDecompositionEdgeDataBuilder {
    /// The finished record of an edge whose component, block and SPQR node are known.
    fn build(self) -> (r: SPQRDecompositionEdgeData)
        requires
            self@.component_index is Some,
            self@.block_index is Some,
            self@.spqr_node_index is Some,
        ensures
            r@ == finished_edge(self@),
    {
        match (self.component_index, self.block_index, self.spqr_node_index) {
            (Some(component_index), Some(block_index), Some(spqr_node_index)) => SPQRDecompositionEdgeData {
                component_index,
                block_index,
                spqr_node_index,
                extra_data: self.extra_data,
            },
            _ => {
                proof {
                    assert(false);
                }
                SPQRDecompositionEdgeData {
                    component_index: ComponentIndex(0),
                    block_index: BlockIndex(0),
                    spqr_node_index: SPQRNodeIndex(0),
                    extra_data: self.extra_data,
                }
            },
        }
    }
}

/// The finished record of a node.
pub open spec fn finished_node(d: NodeScratchView) -> NodeDataView {
    NodeDataView {
        component_index: d.component_index.unwrap(),
        block_indices: d.block_indices,
        cut_node_index: OptionalCutNodeIndex(
            match d.cut_node_index {
                Some(k) => k.0,
                None => NO_INDEX,
            },
        ),
        spqr_node_indices: d.spqr_node_indices,
        extra_data: d.extra_data,
    }
}

/// The finished record of an edge.
pub open spec fn finished_edge(d: EdgeScratchView) -> EdgeDataView {
    EdgeDataView {
        component_index: d.component_index.unwrap(),
        block_index: d.block_index.unwrap(),
        spqr_node_index: d.spqr_node_index.unwrap(),
        extra_data: d.extra_data,
    }
}

} // verus!
