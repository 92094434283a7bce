//! Reading and writing a decomposition in the line-oriented `.spqr` text format, version v0.1.
//!
//! Each line holds one record of whitespace-separated tokens; `#` starts a comment and blank
//! lines are skipped. The first record is the header `H v0.1 <url>`, the URL documenting the format. Components,
//! blocks and SPQR nodes carry names that later records refer to; nodes and edges are named as
//! in the graph.
use crate::builder::{BuildError, BuilderView, SPQRDecompositionBuilder};
use crate::decomposition::{DecompositionView, SPQRDecomposition, SPQRNodeType};
use crate::graph::{GraphView, StaticGraph};
use crate::indices::{BlockIndex, ComponentIndex, CutNodeIndex, SPQREdgeIndex, SPQRNodeIndex};
use crate::text::{chars_of, next_record, read_next_line, string_from_chars};
use vstd::prelude::*;

verus! {

/// Why a text could not be read as a decomposition.
#[derive(Clone, Debug, PartialEq, Eq)]
pub enum ReadError {
    /// A record starts with a token that is no record type.
    InvalidLineType(String),
    /// The first record is not a header.
    MissingHeader,
    /// The header names another version than v0.1.
    UnsupportedVersion,
    /// The header lacks the URL that documents the format.
    MissingHeaderUrl,
    MissingComponentNameInGLine,
    /// A component was declared without nodes.
    EmptyComponent,
    MissingNodeNameInNLine,
    /// A node name that the graph does not know.
    UnknownNodeName(String),
    MissingBlockNameInBLine,
    MissingComponentNameInBLine,
    /// A component name that no earlier record declared.
    UnknownComponentName(String),
    /// A block was declared without nodes.
    EmptyBlock,
    MissingNodeNameInCLine,
    /// A block name that no earlier record declared.
    UnknownBlockName(String),
    /// A cut node was declared without blocks.
    EmptyCutNode,
    MissingSPQRNodeNameInSPRLine,
    MissingBlockNameInSPRLine,
    /// An S, P or R node was declared with fewer than two nodes.
    LessThanTwoNodesInSPQRNode,
    MissingSPQREdgeNameInVLine,
    MissingSPQRNodeNameInVLine,
    MissingNodeNameInVLine,
    /// An SPQR node name that no earlier record declared.
    UnknownSPQRNodeName(String),
    /// The named SPQR edge joins SPQR nodes of different blocks.
    SPQREdgeBetweenDifferentBlocks(String),
    MissingEdgeNameInELine,
    MissingSPQRNodeNameInELine,
    MissingBlockNameInELine,
    MissingNodeNameInELine,
    /// The named edge does not join its two nodes in the graph.
    EdgeDoesNotExist(String),
    /// The records are well formed but do not fit together as a decomposition.
    InvalidDecomposition(BuildError),
}

/// A read error as plain values: each name it carries as its characters.
pub enum ReadFailure {
    InvalidLineType(Seq<char>),
    MissingHeader,
    UnsupportedVersion,
    MissingHeaderUrl,
    MissingComponentNameInGLine,
    EmptyComponent,
    MissingNodeNameInNLine,
    UnknownNodeName(Seq<char>),
    MissingBlockNameInBLine,
    MissingComponentNameInBLine,
    UnknownComponentName(Seq<char>),
    EmptyBlock,
    MissingNodeNameInCLine,
    UnknownBlockName(Seq<char>),
    EmptyCutNode,
    MissingSPQRNodeNameInSPRLine,
    MissingBlockNameInSPRLine,
    LessThanTwoNodesInSPQRNode,
    MissingSPQREdgeNameInVLine,
    MissingSPQRNodeNameInVLine,
    MissingNodeNameInVLine,
    UnknownSPQRNodeName(Seq<char>),
    SPQREdgeBetweenDifferentBlocks(Seq<char>),
    MissingEdgeNameInELine,
    MissingSPQRNodeNameInELine,
    MissingBlockNameInELine,
    MissingNodeNameInELine,
    EdgeDoesNotExist(Seq<char>),
    /// The builder rejected the record.
    InvalidDecomposition,
}

impl View for ReadError {
    type V = ReadFailure;

    open spec fn view(&self) -> ReadFailure {
        match self {
            ReadError::InvalidLineType(s) => ReadFailure::InvalidLineType(s@),
            ReadError::MissingHeader => ReadFailure::MissingHeader,
            ReadError::UnsupportedVersion => ReadFailure::UnsupportedVersion,
            ReadError::MissingHeaderUrl => ReadFailure::MissingHeaderUrl,
            ReadError::MissingComponentNameInGLine => ReadFailure::MissingComponentNameInGLine,
            ReadError::EmptyComponent => ReadFailure::EmptyComponent,
            ReadError::MissingNodeNameInNLine => ReadFailure::MissingNodeNameInNLine,
            ReadError::UnknownNodeName(s) => ReadFailure::UnknownNodeName(s@),
            ReadError::MissingBlockNameInBLine => ReadFailure::MissingBlockNameInBLine,
            ReadError::MissingComponentNameInBLine => ReadFailure::MissingComponentNameInBLine,
            ReadError::UnknownComponentName(s) => ReadFailure::UnknownComponentName(s@),
            ReadError::EmptyBlock => ReadFailure::EmptyBlock,
            ReadError::MissingNodeNameInCLine => ReadFailure::MissingNodeNameInCLine,
            ReadError::UnknownBlockName(s) => ReadFailure::UnknownBlockName(s@),
            ReadError::EmptyCutNode => ReadFailure::EmptyCutNode,
            ReadError::MissingSPQRNodeNameInSPRLine => ReadFailure::MissingSPQRNodeNameInSPRLine,
            ReadError::MissingBlockNameInSPRLine => ReadFailure::MissingBlockNameInSPRLine,
            ReadError::LessThanTwoNodesInSPQRNode => ReadFailure::LessThanTwoNodesInSPQRNode,
            ReadError::MissingSPQREdgeNameInVLine => ReadFailure::MissingSPQREdgeNameInVLine,
            ReadError::MissingSPQRNodeNameInVLine => ReadFailure::MissingSPQRNodeNameInVLine,
            ReadError::MissingNodeNameInVLine => ReadFailure::MissingNodeNameInVLine,
            ReadError::UnknownSPQRNodeName(s) => ReadFailure::UnknownSPQRNodeName(s@),
            ReadError::SPQREdgeBetweenDifferentBlocks(s) => ReadFailure::SPQREdgeBetweenDifferentBlocks(s@),
            ReadError::MissingEdgeNameInELine => ReadFailure::MissingEdgeNameInELine,
            ReadError::MissingSPQRNodeNameInELine => ReadFailure::MissingSPQRNodeNameInELine,
            ReadError::MissingBlockNameInELine => ReadFailure::MissingBlockNameInELine,
            ReadError::MissingNodeNameInELine => ReadFailure::MissingNodeNameInELine,
            ReadError::EdgeDoesNotExist(s) => ReadFailure::EdgeDoesNotExist(s@),
            ReadError::InvalidDecomposition(_) => ReadFailure::InvalidDecomposition,
        }
    }
}

/// The header's record type.
pub open spec fn header_tag() -> Seq<char> {
    seq!['H']
}

/// The only version this format has.
pub open spec fn version_tag() -> Seq<char> {
    seq!['v', '0', '.', '1']
}

/// What is wrong with the header record of a text, or `None` when it is fine.
pub open spec fn header_failure(t: Seq<char>) -> Option<ReadFailure> {
    match next_record(t, 0) {
        None => Some(ReadFailure::MissingHeader),
        Some((tokens, _)) => if tokens[0] != header_tag() {
            Some(ReadFailure::MissingHeader)
        } else if tokens.len() < 2 || tokens[1] != version_tag() {
            Some(ReadFailure::UnsupportedVersion)
        } else if tokens.len() < 3 {
            Some(ReadFailure::MissingHeaderUrl)
        } else {
            None
        },
    }
}

/// The single character of a one-character token.
fn tag_of(token: &String) -> (r: Option<char>)
    ensures
        r == if token@.len() == 1 {
            Some(token@[0])
        } else {
            None::<char>
        },
{
    let s = token.as_str();
    if s.unicode_len() == 1 {
        Some(s.get_char(0))
    } else {
        None
    }
}

/// Whether `token` consists of exactly the characters of `expected`.
fn token_is(token: &String, expected: &Vec<char>) -> (r: bool)
    ensures
        r == (token@ == expected@),
{
    let s = token.as_str();
    let n = s.unicode_len();
    if n != expected.len() {
        return false;
    }
    let mut i: usize = 0;
    while i < n
        invariant
            n == s@.len(),
            n == expected@.len(),
            s@ == token@,
            0 <= i <= n,
            forall|j: int| 0 <= j < i ==> s@[j] == expected@[j],
        decreases n - i,
    {
        if s.get_char(i) != expected[i] {
            return false;
        }
        i = i + 1;
    }
    assert(s@ =~= expected@);
    true
}

/// The names declared so far, as plain values, each with what it names.
pub struct NamesView {
    pub components: Seq<(Seq<char>, ComponentIndex)>,
    pub blocks: Seq<(Seq<char>, BlockIndex)>,
    pub spqr_nodes: Seq<(Seq<char>, SPQRNodeIndex)>,
}

/// What reading carries from one record to the next.
pub struct ReadState {
    pub names: NamesView,
    pub builder: BuilderView,
}

/// What was last declared under `name`.
pub open spec fn last_named<T>(table: Seq<(Seq<char>, T)>, name: Seq<char>) -> Option<T>
    decreases table.len(),
{
    if table.len() == 0 {
        None
    } else if table.last().0 == name {
        Some(table.last().1)
    } else {
        last_named(table.drop_last(), name)
    }
}

/// The nodes that `tokens` name, or the first token that names no node of `g`.
pub open spec fn nodes_resolved(g: GraphView, tokens: Seq<Seq<char>>) -> Result<Seq<usize>, Seq<char>>
    decreases tokens.len(),
{
    if tokens.len() == 0 {
        Ok(Seq::empty())
    } else {
        match nodes_resolved(g, tokens.drop_last()) {
            Ok(ns) => match g.first_node_named(tokens.last()) {
                Some(n) => Ok(ns.push(n)),
                None => Err(tokens.last()),
            },
            Err(t) => Err(t),
        }
    }
}

/// The blocks that `tokens` name, or the first token that is no declared block name.
pub open spec fn blocks_resolved(names: NamesView, tokens: Seq<Seq<char>>) -> Result<
    Seq<BlockIndex>,
    Seq<char>,
>
    decreases tokens.len(),
{
    if tokens.len() == 0 {
        Ok(Seq::empty())
    } else {
        match blocks_resolved(names, tokens.drop_last()) {
            Ok(bs) => match last_named(names.blocks, tokens.last()) {
                Some(b) => Ok(bs.push(b)),
                None => Err(tokens.last()),
            },
            Err(t) => Err(t),
        }
    }
}

/// Tokens joined by single spaces.
pub open spec fn joined(tokens: Seq<Seq<char>>) -> Seq<char>
    decreases tokens.len(),
{
    if tokens.len() == 0 {
        Seq::empty()
    } else if tokens.len() == 1 {
        tokens[0]
    } else {
        joined(tokens.drop_last()) + seq![' '] + tokens.last()
    }
}

/// The tokens of `line` from position `from` on.
pub open spec fn tokens_from(line: Seq<Seq<char>>, from: int) -> Seq<Seq<char>> {
    if from <= line.len() {
        line.subrange(from, line.len() as int)
    } else {
        Seq::empty()
    }
}

/// The state after a G record `G <name> <node>...`, or why it is rejected.
pub open spec fn g_record(g: GraphView, st: ReadState, line: Seq<Seq<char>>) -> Result<ReadState, ReadFailure> {
    if line.len() < 2 {
        Err(ReadFailure::MissingComponentNameInGLine)
    } else {
        match nodes_resolved(g, tokens_from(line, 2)) {
            Err(t) => Err(ReadFailure::UnknownNodeName(t)),
            Ok(ns) => if ns.len() == 0 {
                Err(ReadFailure::EmptyComponent)
            } else if st.builder.can_add_component(g, ns) {
                Ok(
                    ReadState {
                        names: NamesView {
                            components: st.names.components.push(
                                (line[1], ComponentIndex(st.builder.components.len() as usize)),
                            ),
                            ..st.names
                        },
                        builder: st.builder.with_component(g, ns),
                    },
                )
            } else {
                Err(ReadFailure::InvalidDecomposition)
            },
        }
    }
}

/// The state after an N record `N <node> <text>...`, or why it is rejected.
pub open spec fn n_record(g: GraphView, st: ReadState, line: Seq<Seq<char>>) -> Result<ReadState, ReadFailure> {
    if line.len() < 2 {
        Err(ReadFailure::MissingNodeNameInNLine)
    } else {
        match g.first_node_named(line[1]) {
            None => Err(ReadFailure::UnknownNodeName(line[1])),
            Some(n) => if n < st.builder.node_data.len() && st.builder.node_data[n as int].extra_data.len() == 0 {
                Ok(
                    ReadState {
                        builder: st.builder.with_node_text(n as int, joined(tokens_from(line, 2))),
                        ..st
                    },
                )
            } else {
                Err(ReadFailure::InvalidDecomposition)
            },
        }
    }
}

/// The state after a B record `B <name> <component> <node>...`, or why it is rejected.
pub open spec fn b_record(g: GraphView, st: ReadState, line: Seq<Seq<char>>) -> Result<ReadState, ReadFailure> {
    if line.len() < 2 {
        Err(ReadFailure::MissingBlockNameInBLine)
    } else if line.len() < 3 {
        Err(ReadFailure::MissingComponentNameInBLine)
    } else {
        match last_named(st.names.components, line[2]) {
            None => Err(ReadFailure::UnknownComponentName(line[2])),
            Some(c) => match nodes_resolved(g, tokens_from(line, 3)) {
                Err(t) => Err(ReadFailure::UnknownNodeName(t)),
                Ok(ns) => if ns.len() == 0 {
                    Err(ReadFailure::EmptyBlock)
                } else if st.builder.can_add_block(g, c, ns) {
                    Ok(
                        ReadState {
                            names: NamesView {
                                blocks: st.names.blocks.push(
                                    (line[1], BlockIndex(st.builder.blocks.len() as usize)),
                                ),
                                ..st.names
                            },
                            builder: st.builder.with_block(g, c, ns),
                        },
                    )
                } else {
                    Err(ReadFailure::InvalidDecomposition)
                },
            },
        }
    }
}

/// The state after a C record `C <node> <block>...`, or why it is rejected.
pub open spec fn c_record(g: GraphView, st: ReadState, line: Seq<Seq<char>>) -> Result<ReadState, ReadFailure> {
    if line.len() < 2 {
        Err(ReadFailure::MissingNodeNameInCLine)
    } else {
        match g.first_node_named(line[1]) {
            None => Err(ReadFailure::UnknownNodeName(line[1])),
            Some(n) => match blocks_resolved(st.names, tokens_from(line, 2)) {
                Err(t) => Err(ReadFailure::UnknownBlockName(t)),
                Ok(bs) => if bs.len() == 0 {
                    Err(ReadFailure::EmptyCutNode)
                } else if st.builder.can_add_cut_node(n, bs) {
                    Ok(ReadState { builder: st.builder.with_cut_node(n, bs), ..st })
                } else {
                    Err(ReadFailure::InvalidDecomposition)
                },
            },
        }
    }
}

/// The state after an S, P or R record `<type> <name> <block> <node>...`, or why it is
/// rejected.
pub open spec fn skeleton_record(
    g: GraphView,
    st: ReadState,
    line: Seq<Seq<char>>,
    t: SPQRNodeType,
) -> Result<ReadState, ReadFailure> {
    if line.len() < 2 {
        Err(ReadFailure::MissingSPQRNodeNameInSPRLine)
    } else if line.len() < 3 {
        Err(ReadFailure::MissingBlockNameInSPRLine)
    } else {
        match last_named(st.names.blocks, line[2]) {
            None => Err(ReadFailure::UnknownBlockName(line[2])),
            Some(b) => match nodes_resolved(g, tokens_from(line, 3)) {
                Err(x) => Err(ReadFailure::UnknownNodeName(x)),
                Ok(ns) => if ns.len() < 2 {
                    Err(ReadFailure::LessThanTwoNodesInSPQRNode)
                } else if st.builder.can_add_spqr_node(b, ns) {
                    Ok(
                        ReadState {
                            names: NamesView {
                                spqr_nodes: st.names.spqr_nodes.push(
                                    (line[1], SPQRNodeIndex(st.builder.spqr_nodes.len() as usize)),
                                ),
                                ..st.names
                            },
                            builder: st.builder.with_spqr_node(b, ns, t),
                        },
                    )
                } else {
                    Err(ReadFailure::InvalidDecomposition)
                },
            },
        }
    }
}

/// The state after a V record `V <name> <spqr-node> <spqr-node> <node> <node>`, or why it is
/// rejected.
pub open spec fn v_record(g: GraphView, st: ReadState, line: Seq<Seq<char>>) -> Result<ReadState, ReadFailure> {
    if line.len() < 2 {
        Err(ReadFailure::MissingSPQREdgeNameInVLine)
    } else if line.len() < 4 {
        Err(ReadFailure::MissingSPQRNodeNameInVLine)
    } else if line.len() < 6 {
        Err(ReadFailure::MissingNodeNameInVLine)
    } else {
        match (
            last_named(st.names.spqr_nodes, line[2]),
            last_named(st.names.spqr_nodes, line[3]),
            g.first_node_named(line[4]),
            g.first_node_named(line[5]),
        ) {
            (None, _, _, _) => Err(ReadFailure::UnknownSPQRNodeName(line[2])),
            (_, None, _, _) => Err(ReadFailure::UnknownSPQRNodeName(line[3])),
            (_, _, None, _) => Err(ReadFailure::UnknownNodeName(line[4])),
            (_, _, _, None) => Err(ReadFailure::UnknownNodeName(line[5])),
            (Some(u), Some(w), Some(a), Some(b)) => if st.builder.can_add_spqr_edge(None, (u, w), (a, b)) {
                Ok(
                    ReadState {
                        builder: st.builder.with_spqr_edge(
                            st.builder.spqr_edge_block(None, (u, w)),
                            (u, w),
                            (a, b),
                        ),
                        ..st
                    },
                )
            } else if st.builder.spqr_edge_error(None, (u, w)) == BuildError::SPQREdgeBetweenDifferentBlocks {
                Err(ReadFailure::SPQREdgeBetweenDifferentBlocks(line[1]))
            } else {
                Err(ReadFailure::InvalidDecomposition)
            },
        }
    }
}

/// The state after an E record `E <label> <spqr-node> <block> <node> <node> <text>...`, or
/// why it is rejected. The edge is the graph's edge between the two nodes; the label only
/// names the record in an error.
pub open spec fn e_record(g: GraphView, st: ReadState, line: Seq<Seq<char>>) -> Result<ReadState, ReadFailure> {
    if line.len() < 2 {
        Err(ReadFailure::MissingEdgeNameInELine)
    } else if line.len() < 3 {
        Err(ReadFailure::MissingSPQRNodeNameInELine)
    } else if line.len() < 4 {
        Err(ReadFailure::MissingBlockNameInELine)
    } else if line.len() < 6 {
        Err(ReadFailure::MissingNodeNameInELine)
    } else {
        match (g.first_node_named(line[4]), g.first_node_named(line[5])) {
            (None, _) => Err(ReadFailure::UnknownNodeName(line[4])),
            (_, None) => Err(ReadFailure::UnknownNodeName(line[5])),
            (Some(u), Some(v)) => match g.smallest_edge_between(u as int, v as int) {
                None => Err(ReadFailure::EdgeDoesNotExist(line[1])),
                Some(e) => match (
                    last_named(st.names.spqr_nodes, line[2]),
                    last_named(st.names.blocks, line[3]),
                ) {
                    (None, _) => Err(ReadFailure::UnknownSPQRNodeName(line[2])),
                    (_, None) => Err(ReadFailure::UnknownBlockName(line[3])),
                    (Some(s), Some(_)) => if st.builder.can_add_edge_to_spqr_node(g, e, s) {
                        Ok(ReadState { builder: st.builder.with_edge_in_spqr_node(e, s), ..st })
                    } else {
                        Err(ReadFailure::InvalidDecomposition)
                    },
                },
            },
        }
    }
}

/// The state after a record other than the header, or why it is rejected.
pub open spec fn record_step(g: GraphView, st: ReadState, line: Seq<Seq<char>>) -> Result<ReadState, ReadFailure> {
    let tag = line[0];
    if tag == seq!['G'] {
        g_record(g, st, line)
    } else if tag == seq!['N'] {
        n_record(g, st, line)
    } else if tag == seq!['B'] {
        b_record(g, st, line)
    } else if tag == seq!['C'] {
        c_record(g, st, line)
    } else if tag == seq!['S'] {
        skeleton_record(g, st, line, SPQRNodeType::SNode)
    } else if tag == seq!['P'] {
        skeleton_record(g, st, line, SPQRNodeType::PNode)
    } else if tag == seq!['R'] {
        skeleton_record(g, st, line, SPQRNodeType::RNode)
    } else if tag == seq!['V'] {
        v_record(g, st, line)
    } else if tag == seq!['E'] {
        e_record(g, st, line)
    } else {
        Err(ReadFailure::InvalidLineType(tag))
    }
}

/// The state after the records from position `p` of text `t` on, or why the first rejected one
/// is rejected.
pub open spec fn records_from(g: GraphView, t: Seq<char>, p: int, st: ReadState) -> Result<ReadState, ReadFailure>
    decreases t.len() - p,
{
    match next_record(t, p) {
        None => Ok(st),
        Some((line, q)) => if p < q <= t.len() && line.len() >= 1 {
            match record_step(g, st, line) {
                Ok(next) => records_from(g, t, q, next),
                Err(f) => Err(f),
            }
        } else {
            Ok(st)
        },
    }
}

/// The state before any record: no names, and a builder that has nothing yet.
pub open spec fn initial_state(g: GraphView) -> ReadState {
    ReadState {
        names: NamesView { components: Seq::empty(), blocks: Seq::empty(), spqr_nodes: Seq::empty() },
        builder: BuilderView::initial(g),
    }
}

/// The state after all records of text `t`, or why its header or its first rejected record is
/// rejected.
pub open spec fn read_result(g: GraphView, t: Seq<char>) -> Result<ReadState, ReadFailure> {
    match header_failure(t) {
        Some(f) => Err(f),
        None => match next_record(t, 0) {
            Some((_, q)) => records_from(g, t, q, initial_state(g)),
            None => Err(ReadFailure::MissingHeader),
        },
    }
}

/// The value last entered under `name`, if any.
fn lookup<T: Copy>(table: &Vec<(String, T)>, name: &String) -> (r: Option<T>)
    ensures
        r == last_named(table@.map_values(|p: (String, T)| (p.0@, p.1)), name@),
{
    let ghost tv = table@.map_values(|p: (String, T)| (p.0@, p.1));
    let mut i: usize = table.len();
    proof {
        assert(tv.subrange(0, i as int) =~= tv);
    }
    while i > 0
        invariant
            0 <= i <= table@.len(),
            tv == table@.map_values(|p: (String, T)| (p.0@, p.1)),
            last_named(tv, name@) == last_named(tv.subrange(0, i as int), name@),
        decreases i,
    {
        proof {
            let sub = tv.subrange(0, i as int);
            assert(sub.drop_last() =~= tv.subrange(0, i - 1));
            assert(sub.last() == tv[i - 1]);
        }
        i = i - 1;
        if table[i].0 == *name {
            return Some(table[i].1);
        }
    }
    None
}

/// The names declared so far.
struct NameTables {
    components: Vec<(String, ComponentIndex)>,
    blocks: Vec<(String, BlockIndex)>,
    spqr_nodes: Vec<(String, SPQRNodeIndex)>,
}

spec fn names_view(t: NameTables) -> NamesView {
    NamesView {
        components: t.components@.map_values(|p: (String, ComponentIndex)| (p.0@, p.1)),
        blocks: t.blocks@.map_values(|p: (String, BlockIndex)| (p.0@, p.1)),
        spqr_nodes: t.spqr_nodes@.map_values(|p: (String, SPQRNodeIndex)| (p.0@, p.1)),
    }
}

proof fn lemma_nodes_resolved_err(g: GraphView, x: Seq<Seq<char>>, k: int, t: Seq<char>)
    requires
        0 <= k <= x.len(),
        nodes_resolved(g, x.subrange(0, k)) == Err::<Seq<usize>, Seq<char>>(t),
    ensures
        nodes_resolved(g, x) == Err::<Seq<usize>, Seq<char>>(t),
    decreases x.len(),
{
    if k == x.len() {
        assert(x.subrange(0, k) =~= x);
    } else {
        assert(x.drop_last().subrange(0, k) =~= x.subrange(0, k));
        lemma_nodes_resolved_err(g, x.drop_last(), k, t);
    }
}

proof fn lemma_blocks_resolved_err(names: NamesView, x: Seq<Seq<char>>, k: int, t: Seq<char>)
    requires
        0 <= k <= x.len(),
        blocks_resolved(names, x.subrange(0, k)) == Err::<Seq<BlockIndex>, Seq<char>>(t),
    ensures
        blocks_resolved(names, x) == Err::<Seq<BlockIndex>, Seq<char>>(t),
    decreases x.len(),
{
    if k == x.len() {
        assert(x.subrange(0, k) =~= x);
    } else {
        assert(x.drop_last().subrange(0, k) =~= x.subrange(0, k));
        lemma_blocks_resolved_err(names, x.drop_last(), k, t);
    }
}

/// The graph nodes that the tokens from `from` on name.
#[verifier::rlimit(40)]
fn resolve_nodes(graph: &StaticGraph, tokens: &Vec<String>, from: usize) -> (r: Result<Vec<usize>, ReadError>)
    ensures
        match nodes_resolved(graph@, tokens_from(tokens@.map_values(|s: String| s@), from as int)) {
            Ok(ns) => r matches Ok(nodes) && nodes@ == ns,
            Err(t) => r matches Err(e) && e@ == ReadFailure::UnknownNodeName(t),
        },
{
    let ghost tv = tokens@.map_values(|s: String| s@);
    let mut nodes: Vec<usize> = Vec::new();
    if from >= tokens.len() {
        assert(tokens_from(tv, from as int) =~= Seq::<Seq<char>>::empty());
        return Ok(nodes);
    }
    let ghost x = tokens_from(tv, from as int);
    let mut i: usize = from;
    proof {
        assert(x.subrange(0, 0) =~= Seq::<Seq<char>>::empty());
    }
    while i < tokens.len()
        invariant
            from <= i <= tokens@.len(),
            tv == tokens@.map_values(|s: String| s@),
            x == tokens_from(tv, from as int),
            x.len() == tokens@.len() - from,
            nodes_resolved(graph@, x.subrange(0, i - from)) == Ok::<Seq<usize>, Seq<char>>(nodes@),
        decreases tokens@.len() - i,
    {
        let ghost sub = x.subrange(0, i + 1 - from);
        proof {
            assert(sub.drop_last() =~= x.subrange(0, i - from));
            assert(sub.last() == tokens@[i as int]@);
        }
        match graph.node_index_from_name(tokens[i].as_str()) {
            Some(n) => {
                nodes.push(n);
            },
            None => {
                proof {
                    lemma_nodes_resolved_err(graph@, x, i + 1 - from, tokens@[i as int]@);
                }
                return Err(ReadError::UnknownNodeName(tokens[i].clone()));
            },
        }
        i = i + 1;
    }
    assert(x.subrange(0, x.len() as int) =~= x);
    Ok(nodes)
}

/// The graph node that a token names.
fn resolve_node(graph: &StaticGraph, token: &String) -> (r: Result<usize, ReadError>)
    ensures
        match graph@.first_node_named(token@) {
            Some(n) => r == Ok::<usize, ReadError>(n) && n < graph@.node_count(),
            None => r matches Err(e) && e@ == ReadFailure::UnknownNodeName(token@),
        },
{
    match graph.node_index_from_name(token.as_str()) {
        Some(n) => Ok(n),
        None => Err(ReadError::UnknownNodeName(token.clone())),
    }
}

/// The blocks that the tokens from position 2 on name.
fn resolve_blocks(names: &NameTables, tokens: &Vec<String>) -> (r: Result<Vec<BlockIndex>, ReadError>)
    ensures
        match blocks_resolved(names_view(*names), tokens_from(tokens@.map_values(|s: String| s@), 2)) {
            Ok(bs) => r matches Ok(blocks) && blocks@ == bs,
            Err(t) => r matches Err(e) && e@ == ReadFailure::UnknownBlockName(t),
        },
{
    let ghost tv = tokens@.map_values(|s: String| s@);
    let mut blocks: Vec<BlockIndex> = Vec::new();
    if tokens.len() <= 2 {
        assert(tokens_from(tv, 2) =~= Seq::<Seq<char>>::empty());
        return Ok(blocks);
    }
    let ghost x = tokens_from(tv, 2);
    let mut i: usize = 2;
    proof {
        assert(x.subrange(0, 0) =~= Seq::<Seq<char>>::empty());
    }
    while i < tokens.len()
        invariant
            2 <= i <= tokens@.len(),
            tv == tokens@.map_values(|s: String| s@),
            x == tokens_from(tv, 2),
            x.len() == tokens@.len() - 2,
            blocks_resolved(names_view(*names), x.subrange(0, i - 2)) == Ok::<Seq<BlockIndex>, Seq<char>>(blocks@),
        decreases tokens@.len() - i,
    {
        let ghost sub = x.subrange(0, i + 1 - 2);
        proof {
            assert(sub.drop_last() =~= x.subrange(0, i - 2));
            assert(sub.last() == tokens@[i as int]@);
        }
        match lookup(&names.blocks, &tokens[i]) {
            Some(b) => {
                blocks.push(b);
            },
            None => {
                proof {
                    lemma_blocks_resolved_err(names_view(*names), x, i + 1 - 2, tokens@[i as int]@);
                }
                return Err(ReadError::UnknownBlockName(tokens[i].clone()));
            },
        }
        i = i + 1;
    }
    assert(x.subrange(0, x.len() as int) =~= x);
    Ok(blocks)
}

/// The tokens from position 2 on, joined by single spaces.
fn join_tokens(tokens: &Vec<String>) -> (r: String)
    ensures
        r@ == joined(tokens_from(tokens@.map_values(|s: String| s@), 2)),
{
    let ghost tv = tokens@.map_values(|s: String| s@);
    let mut text = String::new();
    if tokens.len() <= 2 {
        assert(tokens_from(tv, 2) =~= Seq::<Seq<char>>::empty());
        return text;
    }
    let ghost x = tokens_from(tv, 2);
    let mut i: usize = 2;
    proof {
        assert(x.subrange(0, 0) =~= Seq::<Seq<char>>::empty());
    }
    while i < tokens.len()
        invariant
            2 <= i <= tokens@.len(),
            tv == tokens@.map_values(|s: String| s@),
            x == tokens_from(tv, 2),
            x.len() == tokens@.len() - 2,
            text@ == joined(x.subrange(0, i - 2)),
        decreases tokens@.len() - i,
    {
        let ghost sub = x.subrange(0, i + 1 - 2);
        proof {
            assert(sub.drop_last() =~= x.subrange(0, i - 2));
            assert(sub.last() == tokens@[i as int]@);
        }
        if i > 2 {
            text.append(" ");
            proof {
                reveal_strlit(" ");
            }
        }
        text.append(tokens[i].as_str());
        proof {
            if i == 2 {
                assert(sub =~= seq![tokens@[i as int]@]);
            }
            assert(text@ =~= joined(sub));
        }
        i = i + 1;
    }
    assert(x.subrange(0, x.len() as int) =~= x);
    text
}

/// A one-character token is exactly its character.
proof fn lemma_tag(t: Seq<char>, c: char)
    ensures
        (t == seq![c]) == (t.len() == 1 && t[0] == c),
{
    if t.len() == 1 && t[0] == c {
        assert(t =~= seq![c]);
    }
}

/// Hands a G record to the builder.
#[verifier::rlimit(60)]
fn apply_g<'graph>(
    graph: &'graph StaticGraph,
    builder: &mut SPQRDecompositionBuilder<'graph>,
    names: &mut NameTables,
    line: &Vec<String>,
) -> (r: Result<(), ReadError>)
    requires
        graph.wf(),
        old(builder).wf(),
        old(builder).spec_graph() == *graph,
        line@.len() >= 1,
    ensures
        final(builder).spec_graph() == *graph,
        match g_record(
            graph@,
            ReadState { names: names_view(*old(names)), builder: old(builder)@ },
            line@.map_values(|s: String| s@),
        ) {
            Ok(next) => {
                &&& r is Ok
                &&& final(builder).wf()
                &&& next == (ReadState { names: names_view(*final(names)), builder: final(builder)@ })
            },
            Err(f) => r matches Err(e) && e@ == f,
        },
{
    let ghost g = graph@;
    let ghost st = ReadState { names: names_view(*names), builder: builder@ };
    let ghost lv = line@.map_values(|s: String| s@);
    proof {
        if line.len() > 1 {
            assert(lv[1] == line@[1]@);
        }
        if line.len() > 2 {
            assert(lv[2] == line@[2]@);
        }
        if line.len() > 3 {
            assert(lv[3] == line@[3]@);
        }
        if line.len() > 4 {
            assert(lv[4] == line@[4]@);
        }
        if line.len() > 5 {
            assert(lv[5] == line@[5]@);
        }
    }
        if line.len() < 2 {
            return Err(ReadError::MissingComponentNameInGLine);
        }
        let nodes = resolve_nodes(graph, line, 2)?;
        if nodes.len() == 0 {
            return Err(ReadError::EmptyComponent);
        }
        match builder.add_component(nodes) {
            Ok(c) => {
                let ghost before = names.components@;
                names.components.push((line[1].clone(), c));
                proof {
                    assert(names.components@.map_values(|p: (String, ComponentIndex)| (p.0@, p.1))
                        =~= before.map_values(|p: (String, ComponentIndex)| (p.0@, p.1)).push((lv[1], c)));
                }
                Ok(())
            },
            Err(e) => Err(ReadError::InvalidDecomposition(e)),
        }
}

/// Hands an N record to the builder.
#[verifier::rlimit(60)]
fn apply_n<'graph>(
    graph: &'graph StaticGraph,
    builder: &mut SPQRDecompositionBuilder<'graph>,
    names: &mut NameTables,
    line: &Vec<String>,
) -> (r: Result<(), ReadError>)
    requires
        graph.wf(),
        old(builder).wf(),
        old(builder).spec_graph() == *graph,
        line@.len() >= 1,
    ensures
        final(builder).spec_graph() == *graph,
        match n_record(
            graph@,
            ReadState { names: names_view(*old(names)), builder: old(builder)@ },
            line@.map_values(|s: String| s@),
        ) {
            Ok(next) => {
                &&& r is Ok
                &&& final(builder).wf()
                &&& next == (ReadState { names: names_view(*final(names)), builder: final(builder)@ })
            },
            Err(f) => r matches Err(e) && e@ == f,
        },
{
    let ghost g = graph@;
    let ghost st = ReadState { names: names_view(*names), builder: builder@ };
    let ghost lv = line@.map_values(|s: String| s@);
    proof {
        if line.len() > 1 {
            assert(lv[1] == line@[1]@);
        }
        if line.len() > 2 {
            assert(lv[2] == line@[2]@);
        }
        if line.len() > 3 {
            assert(lv[3] == line@[3]@);
        }
        if line.len() > 4 {
            assert(lv[4] == line@[4]@);
        }
        if line.len() > 5 {
            assert(lv[5] == line@[5]@);
        }
    }
        if line.len() < 2 {
            return Err(ReadError::MissingNodeNameInNLine);
        }
        let node = resolve_node(graph, &line[1])?;
        let extra_data = join_tokens(line);
        match builder.add_extra_data_to_node(node, extra_data) {
            Ok(()) => Ok(()),
            Err(e) => Err(ReadError::InvalidDecomposition(e)),
        }
}

/// Hands a B record to the builder.
#[verifier::rlimit(60)]
fn apply_b<'graph>(
    graph: &'graph StaticGraph,
    builder: &mut SPQRDecompositionBuilder<'graph>,
    names: &mut NameTables,
    line: &Vec<String>,
) -> (r: Result<(), ReadError>)
    requires
        graph.wf(),
        old(builder).wf(),
        old(builder).spec_graph() == *graph,
        line@.len() >= 1,
    ensures
        final(builder).spec_graph() == *graph,
        match b_record(
            graph@,
            ReadState { names: names_view(*old(names)), builder: old(builder)@ },
            line@.map_values(|s: String| s@),
        ) {
            Ok(next) => {
                &&& r is Ok
                &&& final(builder).wf()
                &&& next == (ReadState { names: names_view(*final(names)), builder: final(builder)@ })
            },
            Err(f) => r matches Err(e) && e@ == f,
        },
{
    let ghost g = graph@;
    let ghost st = ReadState { names: names_view(*names), builder: builder@ };
    let ghost lv = line@.map_values(|s: String| s@);
    proof {
        if line.len() > 1 {
            assert(lv[1] == line@[1]@);
        }
        if line.len() > 2 {
            assert(lv[2] == line@[2]@);
        }
        if line.len() > 3 {
            assert(lv[3] == line@[3]@);
        }
        if line.len() > 4 {
            assert(lv[4] == line@[4]@);
        }
        if line.len() > 5 {
            assert(lv[5] == line@[5]@);
        }
    }
        if line.len() < 2 {
            return Err(ReadError::MissingBlockNameInBLine);
        }
        if line.len() < 3 {
            return Err(ReadError::MissingComponentNameInBLine);
        }
        let component = match lookup(&names.components, &line[2]) {
            Some(c) => c,
            None => {
                return Err(ReadError::UnknownComponentName(line[2].clone()));
            },
        };
        let nodes = resolve_nodes(graph, line, 3)?;
        if nodes.len() == 0 {
            return Err(ReadError::EmptyBlock);
        }
        match builder.add_block(component, nodes) {
            Ok(b) => {
                let ghost before = names.blocks@;
                names.blocks.push((line[1].clone(), b));
                proof {
                    assert(names.blocks@.map_values(|p: (String, BlockIndex)| (p.0@, p.1))
                        =~= before.map_values(|p: (String, BlockIndex)| (p.0@, p.1)).push((lv[1], b)));
                }
                Ok(())
            },
            Err(e) => Err(ReadError::InvalidDecomposition(e)),
        }
}

/// Hands a C record to the builder.
#[verifier::rlimit(60)]
fn apply_c<'graph>(
    graph: &'graph StaticGraph,
    builder: &mut SPQRDecompositionBuilder<'graph>,
    names: &mut NameTables,
    line: &Vec<String>,
) -> (r: Result<(), ReadError>)
    requires
        graph.wf(),
        old(builder).wf(),
        old(builder).spec_graph() == *graph,
        line@.len() >= 1,
    ensures
        final(builder).spec_graph() == *graph,
        match c_record(
            graph@,
            ReadState { names: names_view(*old(names)), builder: old(builder)@ },
            line@.map_values(|s: String| s@),
        ) {
            Ok(next) => {
                &&& r is Ok
                &&& final(builder).wf()
                &&& next == (ReadState { names: names_view(*final(names)), builder: final(builder)@ })
            },
            Err(f) => r matches Err(e) && e@ == f,
        },
{
    let ghost g = graph@;
    let ghost st = ReadState { names: names_view(*names), builder: builder@ };
    let ghost lv = line@.map_values(|s: String| s@);
    proof {
        if line.len() > 1 {
            assert(lv[1] == line@[1]@);
        }
        if line.len() > 2 {
            assert(lv[2] == line@[2]@);
        }
        if line.len() > 3 {
            assert(lv[3] == line@[3]@);
        }
        if line.len() > 4 {
            assert(lv[4] == line@[4]@);
        }
        if line.len() > 5 {
            assert(lv[5] == line@[5]@);
        }
    }
        if line.len() < 2 {
            return Err(ReadError::MissingNodeNameInCLine);
        }
        let node = resolve_node(graph, &line[1])?;
        let blocks = resolve_blocks(names, line)?;
        if blocks.len() == 0 {
            return Err(ReadError::EmptyCutNode);
        }
        match builder.add_cut_node(node, blocks) {
            Ok(_) => Ok(()),
            Err(e) => Err(ReadError::InvalidDecomposition(e)),
        }
}

/// Hands an S, P or R record of the given type to the builder.
#[verifier::rlimit(60)]
fn apply_skeleton<'graph>(
    graph: &'graph StaticGraph,
    builder: &mut SPQRDecompositionBuilder<'graph>,
    names: &mut NameTables,
    line: &Vec<String>,
    spqr_node_type: SPQRNodeType,
) -> (r: Result<(), ReadError>)
    requires
        graph.wf(),
        old(builder).wf(),
        old(builder).spec_graph() == *graph,
        line@.len() >= 1,
    ensures
        final(builder).spec_graph() == *graph,
        match skeleton_record(
            graph@,
            ReadState { names: names_view(*old(names)), builder: old(builder)@ },
            line@.map_values(|s: String| s@),
            spqr_node_type,
        ) {
            Ok(next) => {
                &&& r is Ok
                &&& final(builder).wf()
                &&& next == (ReadState { names: names_view(*final(names)), builder: final(builder)@ })
            },
            Err(f) => r matches Err(e) && e@ == f,
        },
{
    let ghost g = graph@;
    let ghost st = ReadState { names: names_view(*names), builder: builder@ };
    let ghost lv = line@.map_values(|s: String| s@);
    proof {
        if line.len() > 1 {
            assert(lv[1] == line@[1]@);
        }
        if line.len() > 2 {
            assert(lv[2] == line@[2]@);
        }
        if line.len() > 3 {
            assert(lv[3] == line@[3]@);
        }
        if line.len() > 4 {
            assert(lv[4] == line@[4]@);
        }
        if line.len() > 5 {
            assert(lv[5] == line@[5]@);
        }
    }
        if line.len() < 2 {
            return Err(ReadError::MissingSPQRNodeNameInSPRLine);
        }
        if line.len() < 3 {
            return Err(ReadError::MissingBlockNameInSPRLine);
        }
        let block = match lookup(&names.blocks, &line[2]) {
            Some(b) => b,
            None => {
                return Err(ReadError::UnknownBlockName(line[2].clone()));
            },
        };
        let nodes = resolve_nodes(graph, line, 3)?;
        if nodes.len() < 2 {
            return Err(ReadError::LessThanTwoNodesInSPQRNode);
        }
        match builder.add_spqr_node(block, nodes, spqr_node_type) {
            Ok(s) => {
                let ghost before = names.spqr_nodes@;
                names.spqr_nodes.push((line[1].clone(), s));
                proof {
                    assert(names.spqr_nodes@.map_values(|p: (String, SPQRNodeIndex)| (p.0@, p.1))
                        =~= before.map_values(|p: (String, SPQRNodeIndex)| (p.0@, p.1)).push((lv[1], s)));
                }
                Ok(())
            },
            Err(e) => Err(ReadError::InvalidDecomposition(e)),
        }
}

/// Hands a V record to the builder.
#[verifier::rlimit(60)]
fn apply_v<'graph>(
    graph: &'graph StaticGraph,
    builder: &mut SPQRDecompositionBuilder<'graph>,
    names: &mut NameTables,
    line: &Vec<String>,
) -> (r: Result<(), ReadError>)
    requires
        graph.wf(),
        old(builder).wf(),
        old(builder).spec_graph() == *graph,
        line@.len() >= 1,
    ensures
        final(builder).spec_graph() == *graph,
        match v_record(
            graph@,
            ReadState { names: names_view(*old(names)), builder: old(builder)@ },
            line@.map_values(|s: String| s@),
        ) {
            Ok(next) => {
                &&& r is Ok
                &&& final(builder).wf()
                &&& next == (ReadState { names: names_view(*final(names)), builder: final(builder)@ })
            },
            Err(f) => r matches Err(e) && e@ == f,
        },
{
    let ghost g = graph@;
    let ghost st = ReadState { names: names_view(*names), builder: builder@ };
    let ghost lv = line@.map_values(|s: String| s@);
    proof {
        if line.len() > 1 {
            assert(lv[1] == line@[1]@);
        }
        if line.len() > 2 {
            assert(lv[2] == line@[2]@);
        }
        if line.len() > 3 {
            assert(lv[3] == line@[3]@);
        }
        if line.len() > 4 {
            assert(lv[4] == line@[4]@);
        }
        if line.len() > 5 {
            assert(lv[5] == line@[5]@);
        }
    }
        if line.len() < 2 {
            return Err(ReadError::MissingSPQREdgeNameInVLine);
        }
        if line.len() < 4 {
            return Err(ReadError::MissingSPQRNodeNameInVLine);
        }
        if line.len() < 6 {
            return Err(ReadError::MissingNodeNameInVLine);
        }
        let u = match lookup(&names.spqr_nodes, &line[2]) {
            Some(s) => s,
            None => {
                return Err(ReadError::UnknownSPQRNodeName(line[2].clone()));
            },
        };
        let w = match lookup(&names.spqr_nodes, &line[3]) {
            Some(s) => s,
            None => {
                return Err(ReadError::UnknownSPQRNodeName(line[3].clone()));
            },
        };
        let a = resolve_node(graph, &line[4])?;
        let b = resolve_node(graph, &line[5])?;
        match builder.add_spqr_edge(None, (u, w), (a, b)) {
            Ok(_) => Ok(()),
            Err(BuildError::SPQREdgeBetweenDifferentBlocks) => Err(
                ReadError::SPQREdgeBetweenDifferentBlocks(line[1].clone()),
            ),
            Err(e) => Err(ReadError::InvalidDecomposition(e)),
        }
}

/// Hands an E record to the builder.
#[verifier::rlimit(100)]
fn apply_e<'graph>(
    graph: &'graph StaticGraph,
    builder: &mut SPQRDecompositionBuilder<'graph>,
    names: &mut NameTables,
    line: &Vec<String>,
) -> (r: Result<(), ReadError>)
    requires
        graph.wf(),
        old(builder).wf(),
        old(builder).spec_graph() == *graph,
        line@.len() >= 1,
    ensures
        final(builder).spec_graph() == *graph,
        match e_record(
            graph@,
            ReadState { names: names_view(*old(names)), builder: old(builder)@ },
            line@.map_values(|s: String| s@),
        ) {
            Ok(next) => {
                &&& r is Ok
                &&& final(builder).wf()
                &&& next == (ReadState { names: names_view(*final(names)), builder: final(builder)@ })
            },
            Err(f) => r matches Err(e) && e@ == f,
        },
{
    let ghost g = graph@;
    let ghost st = ReadState { names: names_view(*names), builder: builder@ };
    let ghost lv = line@.map_values(|s: String| s@);
    proof {
        if line.len() > 1 {
            assert(lv[1] == line@[1]@);
        }
        if line.len() > 2 {
            assert(lv[2] == line@[2]@);
        }
        if line.len() > 3 {
            assert(lv[3] == line@[3]@);
        }
        if line.len() > 4 {
            assert(lv[4] == line@[4]@);
        }
        if line.len() > 5 {
            assert(lv[5] == line@[5]@);
        }
    }
        if line.len() < 2 {
            return Err(ReadError::MissingEdgeNameInELine);
        }
        if line.len() < 3 {
            return Err(ReadError::MissingSPQRNodeNameInELine);
        }
        if line.len() < 4 {
            return Err(ReadError::MissingBlockNameInELine);
        }
        if line.len() < 6 {
            return Err(ReadError::MissingNodeNameInELine);
        }
        let u = resolve_node(graph, &line[4])?;
        let v = resolve_node(graph, &line[5])?;
        let edge = match graph.edge_between(u, v) {
            Some(e) => e,
            None => {
                return Err(ReadError::EdgeDoesNotExist(line[1].clone()));
            },
        };
        let s = match lookup(&names.spqr_nodes, &line[2]) {
            Some(s) => s,
            None => {
                return Err(ReadError::UnknownSPQRNodeName(line[2].clone()));
            },
        };
        if lookup(&names.blocks, &line[3]).is_none() {
            return Err(ReadError::UnknownBlockName(line[3].clone()));
        }
        match builder.add_edge_to_spqr_node(edge, s) {
            Ok(()) => Ok(()),
            Err(e) => Err(ReadError::InvalidDecomposition(e)),
        }
}

/// Hands one record other than the header to the builder.
fn apply_record<'graph>(
    graph: &'graph StaticGraph,
    builder: &mut SPQRDecompositionBuilder<'graph>,
    names: &mut NameTables,
    line: &Vec<String>,
) -> (r: Result<(), ReadError>)
    requires
        graph.wf(),
        old(builder).wf(),
        old(builder).spec_graph() == *graph,
        line@.len() >= 1,
    ensures
        final(builder).spec_graph() == *graph,
        match record_step(
            graph@,
            ReadState { names: names_view(*old(names)), builder: old(builder)@ },
            line@.map_values(|s: String| s@),
        ) {
            Ok(next) => {
                &&& r is Ok
                &&& final(builder).wf()
                &&& next == (ReadState { names: names_view(*final(names)), builder: final(builder)@ })
            },
            Err(f) => r matches Err(e) && e@ == f,
        },
{
    let ghost lv = line@.map_values(|s: String| s@);
    let tag = tag_of(&line[0]);
    proof {
        assert(lv[0] == line@[0]@);
        lemma_tag(lv[0], 'G');
        lemma_tag(lv[0], 'N');
        lemma_tag(lv[0], 'B');
        lemma_tag(lv[0], 'C');
        lemma_tag(lv[0], 'S');
        lemma_tag(lv[0], 'P');
        lemma_tag(lv[0], 'R');
        lemma_tag(lv[0], 'V');
        lemma_tag(lv[0], 'E');
    }
    match tag {
        Some('G') => apply_g(graph, builder, names, line),
        Some('N') => apply_n(graph, builder, names, line),
        Some('B') => apply_b(graph, builder, names, line),
        Some('C') => apply_c(graph, builder, names, line),
        Some('S') => apply_skeleton(graph, builder, names, line, SPQRNodeType::SNode),
        Some('P') => apply_skeleton(graph, builder, names, line, SPQRNodeType::PNode),
        Some('R') => apply_skeleton(graph, builder, names, line, SPQRNodeType::RNode),
        Some('V') => apply_v(graph, builder, names, line),
        Some('E') => apply_e(graph, builder, names, line),
        _ => Err(ReadError::InvalidLineType(line[0].clone())),
    }
}

/// Reads a decomposition of `graph` from `.spqr` text.
///
/// The header must be `H v0.1 <url>`; every later record is handed to a
/// [`SPQRDecompositionBuilder`] in the order it stands, reading stops at the first rejected
/// record with the error that [`record_step`] names, and last the builder finishes.
#[verifier::rlimit(100)]
pub fn read<'graph>(graph: &'graph StaticGraph, text: &str) -> (r: Result<
    SPQRDecomposition<'graph>,
    ReadError,
>)
    requires
        graph.wf(),
    ensures
        match read_result(graph@, text@) {
            Err(f) => r matches Err(e) && e@ == f,
            Ok(st) => {
                &&& (r is Ok <==> st.builder.can_build())
                &&& (r matches Err(e) ==> e@ == ReadFailure::InvalidDecomposition)
                &&& (r matches Ok(d) ==> st.builder.built_as(d@))
            },
        },
        r matches Ok(d) ==> {
            &&& d.spec_graph() == *graph
            &&& d@.valid_for(graph@)
            &&& d@.well_indexed(graph@)
        },
{
    let chars = chars_of(text);
    let mut pos: usize = 0;
    let header = match read_next_line(&chars, &mut pos) {
        Some(h) => h,
        None => {
            return Err(ReadError::MissingHeader);
        },
    };
    let mut h_tag: Vec<char> = Vec::new();
    h_tag.push('H');
    let mut version: Vec<char> = Vec::new();
    version.push('v');
    version.push('0');
    version.push('.');
    version.push('1');
    assert(h_tag@ =~= header_tag());
    assert(version@ =~= version_tag());
    if !token_is(&header[0], &h_tag) {
        return Err(ReadError::MissingHeader);
    }
    if header.len() < 2 {
        return Err(ReadError::UnsupportedVersion);
    }
    if !token_is(&header[1], &version) {
        return Err(ReadError::UnsupportedVersion);
    }
    if header.len() < 3 {
        return Err(ReadError::MissingHeaderUrl);
    }
    assert(header_failure(text@) is None);
    let mut builder = SPQRDecompositionBuilder::new(graph);
    let mut names = NameTables { components: Vec::new(), blocks: Vec::new(), spqr_nodes: Vec::new() };
    proof {
        let nv = names_view(names);
        assert(nv.components =~= Seq::<(Seq<char>, ComponentIndex)>::empty());
        assert(nv.blocks =~= Seq::<(Seq<char>, BlockIndex)>::empty());
        assert(nv.spqr_nodes =~= Seq::<(Seq<char>, SPQRNodeIndex)>::empty());
        assert(nv == initial_state(graph@).names);
    }
    loop
        invariant
            graph.wf(),
            builder.wf(),
            builder.spec_graph() == *graph,
            pos <= chars@.len(),
            chars@ == text@,
            header_failure(text@) is None,
            read_result(graph@, text@) == records_from(
                graph@,
                text@,
                pos as int,
                ReadState { names: names_view(names), builder: builder@ },
            ),
        ensures
            builder.wf(),
            builder.spec_graph() == *graph,
            read_result(graph@, text@) == Ok::<ReadState, ReadFailure>(
                ReadState { names: names_view(names), builder: builder@ },
            ),
        decreases chars@.len() - pos,
    {
        let ghost before = pos as int;
        let ghost st_old = ReadState { names: names_view(names), builder: builder@ };
        let line = match read_next_line(&chars, &mut pos) {
            Some(l) => l,
            None => {
                proof {
                    assert(records_from(graph@, text@, before, st_old) == Ok::<ReadState, ReadFailure>(st_old));
                    assert(next_record(text@, pos as int) is None);
                }
                break ;
            },
        };
        let ghost lv = line@.map_values(|s: String| s@);
        proof {
            assert(next_record(text@, before) == Some((lv, pos as int)));
            assert(lv.len() >= 1);
            assert(records_from(graph@, text@, before, st_old) == match record_step(graph@, st_old, lv) {
                Ok(next) => records_from(graph@, text@, pos as int, next),
                Err(f) => Err(f),
            });
        }
        match apply_record(graph, &mut builder, &mut names, &line) {
            Ok(()) => {},
            Err(e) => {
                return Err(e);
            },
        }
    }
    match builder.build() {
        Ok(d) => Ok(d),
        Err(e) => Err(ReadError::InvalidDecomposition(e)),
    }
}

/// The decimal digit `d`.
pub open spec fn digit(d: nat) -> char {
    if d == 0 {
        '0'
    } else if d == 1 {
        '1'
    } else if d == 2 {
        '2'
    } else if d == 3 {
        '3'
    } else if d == 4 {
        '4'
    } else if d == 5 {
        '5'
    } else if d == 6 {
        '6'
    } else if d == 7 {
        '7'
    } else if d == 8 {
        '8'
    } else {
        '9'
    }
}

/// `n` in decimal, without leading zeros.
pub open spec fn decimal(n: nat) -> Seq<char>
    decreases n,
{
    if n < 10 {
        seq![digit(n)]
    } else {
        decimal(n / 10).push(digit(n % 10))
    }
}

/// The letter of an SPQR node type.
pub open spec fn type_tag(t: SPQRNodeType) -> char {
    match t {
        SPQRNodeType::SNode => 'S',
        SPQRNodeType::PNode => 'P',
        SPQRNodeType::RNode => 'R',
    }
}

/// The name under which SPQR node `s` is written: its type letter and its index.
pub open spec fn spqr_name(d: DecompositionView, s: int) -> Seq<char> {
    seq![type_tag(d.spqr_nodes[s].spqr_node_type)] + decimal(s as nat)
}

/// The names of nodes `ns`, each after a space.
pub open spec fn name_list(g: GraphView, ns: Seq<usize>) -> Seq<char>
    decreases ns.len(),
{
    if ns.len() == 0 {
        Seq::empty()
    } else {
        name_list(g, ns.drop_last()) + seq![' '] + g.node_names[ns.last() as int]
    }
}

/// The names of blocks `bs`, each after a space.
pub open spec fn block_refs(bs: Seq<BlockIndex>) -> Seq<char>
    decreases bs.len(),
{
    if bs.len() == 0 {
        Seq::empty()
    } else {
        block_refs(bs.drop_last()) + seq![' ', 'B'] + decimal(bs.last().0 as nat)
    }
}

/// The N line of node `n`, or nothing when it carries no text.
pub open spec fn node_line(d: DecompositionView, g: GraphView, n: int) -> Seq<char> {
    if d.node_data[n].extra_data.len() == 0 {
        Seq::empty()
    } else {
        seq!['N', ' '] + g.node_names[n] + seq![' '] + d.node_data[n].extra_data + seq!['\n']
    }
}

/// The N lines of the first `k` nodes.
pub open spec fn node_lines(d: DecompositionView, g: GraphView, k: nat) -> Seq<char>
    decreases k,
{
    if k == 0 {
        Seq::empty()
    } else {
        node_lines(d, g, (k - 1) as nat) + node_line(d, g, k - 1)
    }
}

/// The E line of edge `e` in SPQR node `s` of block `b`.
pub open spec fn e_line(d: DecompositionView, g: GraphView, b: int, s: int, e: int) -> Seq<char> {
    seq!['E', ' '] + g.edge_names[e] + seq![' '] + spqr_name(d, s) + seq![' ', 'B'] + decimal(b as nat)
        + seq![' '] + g.node_names[g.endpoints[e].0 as int] + seq![' '] + g.node_names[g.endpoints[e].1 as int]
        + (if d.edge_data[e].extra_data.len() == 0 {
        Seq::empty()
    } else {
        seq![' '] + d.edge_data[e].extra_data
    }) + seq!['\n']
}

/// The E lines of the first `k` edges of SPQR node `s` of block `b`.
pub open spec fn e_lines(d: DecompositionView, g: GraphView, b: int, s: int, k: nat) -> Seq<char>
    decreases k,
{
    if k == 0 {
        Seq::empty()
    } else {
        e_lines(d, g, b, s, (k - 1) as nat) + e_line(d, g, b, s, d.spqr_nodes[s].edges[k - 1] as int)
    }
}

/// The S, P or R line of SPQR node `s` of block `b`, followed by its E lines.
pub open spec fn skeleton_text(d: DecompositionView, g: GraphView, b: int, s: int) -> Seq<char> {
    seq![type_tag(d.spqr_nodes[s].spqr_node_type), ' '] + spqr_name(d, s) + seq![' ', 'B'] + decimal(
        b as nat,
    ) + name_list(g, d.spqr_nodes[s].nodes) + seq!['\n'] + e_lines(
        d,
        g,
        b,
        s,
        d.spqr_nodes[s].edges.len(),
    )
}

/// The texts of the first `k` SPQR nodes of block `b`.
pub open spec fn skeletons_text(d: DecompositionView, g: GraphView, b: int, k: nat) -> Seq<char>
    decreases k,
{
    if k == 0 {
        Seq::empty()
    } else {
        skeletons_text(d, g, b, (k - 1) as nat) + skeleton_text(d, g, b, d.blocks[b].spqr_nodes[k - 1].0 as int)
    }
}

/// The V line of SPQR edge `x`.
pub open spec fn v_line(d: DecompositionView, g: GraphView, x: int) -> Seq<char> {
    let t = d.spqr_edges[x];
    seq!['V', ' ', 'V'] + decimal(x as nat) + seq![' '] + spqr_name(d, t.endpoints.0.0 as int) + seq![' ']
        + spqr_name(d, t.endpoints.1.0 as int) + seq![' '] + g.node_names[t.virtual_edge.0 as int] + seq![' ']
        + g.node_names[t.virtual_edge.1 as int] + seq!['\n']
}

/// The V lines of the first `k` SPQR edges of block `b`.
pub open spec fn v_lines(d: DecompositionView, g: GraphView, b: int, k: nat) -> Seq<char>
    decreases k,
{
    if k == 0 {
        Seq::empty()
    } else {
        v_lines(d, g, b, (k - 1) as nat) + v_line(d, g, d.blocks[b].spqr_edges[k - 1].0 as int)
    }
}

/// The B line of block `b` in component `c`, then its SPQR nodes, then its SPQR edges.
pub open spec fn block_text(d: DecompositionView, g: GraphView, c: int, b: int) -> Seq<char> {
    seq!['B', ' ', 'B'] + decimal(b as nat) + seq![' ', 'G'] + decimal(c as nat) + name_list(
        g,
        d.blocks[b].nodes,
    ) + seq!['\n'] + skeletons_text(d, g, b, d.blocks[b].spqr_nodes.len()) + v_lines(
        d,
        g,
        b,
        d.blocks[b].spqr_edges.len(),
    )
}

/// The texts of the first `k` blocks of component `c`.
pub open spec fn blocks_text(d: DecompositionView, g: GraphView, c: int, k: nat) -> Seq<char>
    decreases k,
{
    if k == 0 {
        Seq::empty()
    } else {
        blocks_text(d, g, c, (k - 1) as nat) + block_text(d, g, c, d.components[c].blocks[k - 1].0 as int)
    }
}

/// The C line of cut node `k`.
pub open spec fn c_line(d: DecompositionView, g: GraphView, k: int) -> Seq<char> {
    seq!['C', ' '] + g.node_names[d.cut_nodes[k].node as int] + block_refs(d.cut_nodes[k].adjacent_blocks)
        + seq!['\n']
}

/// The C lines of the first `k` cut nodes of component `c`.
pub open spec fn c_lines(d: DecompositionView, g: GraphView, c: int, k: nat) -> Seq<char>
    decreases k,
{
    if k == 0 {
        Seq::empty()
    } else {
        c_lines(d, g, c, (k - 1) as nat) + c_line(d, g, d.components[c].cut_nodes[k - 1].0 as int)
    }
}

/// The G line of component `c`, then its blocks, then its cut nodes, which refer to the blocks.
pub open spec fn component_text(d: DecompositionView, g: GraphView, c: int) -> Seq<char> {
    seq!['G', ' ', 'G'] + decimal(c as nat) + name_list(g, d.components[c].nodes) + seq!['\n']
        + blocks_text(d, g, c, d.components[c].blocks.len()) + c_lines(
        d,
        g,
        c,
        d.components[c].cut_nodes.len(),
    )
}

/// The texts of the first `k` components.
pub open spec fn components_text(d: DecompositionView, g: GraphView, k: nat) -> Seq<char>
    decreases k,
{
    if k == 0 {
        Seq::empty()
    } else {
        components_text(d, g, (k - 1) as nat) + component_text(d, g, k - 1)
    }
}

/// The whole text of a decomposition: the header, the N lines, then each component.
pub open spec fn spqr_text(d: DecompositionView, g: GraphView) -> Seq<char> {
    "H v0.1 https://github.com/sebschmi/SPQR-tree-file-format\n"@ + node_lines(d, g, g.node_count())
        + components_text(d, g, d.components.len())
}

fn push_str(out: &mut Vec<char>, s: &str)
    ensures
        final(out)@ == old(out)@ + s@,
{
    let mut cs = chars_of(s);
    out.append(&mut cs);
}

fn digit_char(d: usize) -> (r: char)
    requires
        d < 10,
    ensures
        r == digit(d as nat),
{
    if d == 0 {
        '0'
    } else if d == 1 {
        '1'
    } else if d == 2 {
        '2'
    } else if d == 3 {
        '3'
    } else if d == 4 {
        '4'
    } else if d == 5 {
        '5'
    } else if d == 6 {
        '6'
    } else if d == 7 {
        '7'
    } else if d == 8 {
        '8'
    } else {
        '9'
    }
}

fn push_decimal(out: &mut Vec<char>, n: usize)
    ensures
        final(out)@ == old(out)@ + decimal(n as nat),
    decreases n,
{
    if n >= 10 {
        push_decimal(out, n / 10);
    }
    out.push(digit_char(n % 10));
    assert(final(out)@ =~= old(out)@ + decimal(n as nat));
}

fn push_names(out: &mut Vec<char>, g: &StaticGraph, ns: &Vec<usize>)
    requires
        forall|i: int| 0 <= i < ns@.len() ==> (#[trigger] ns@[i]) < g@.node_count(),
    ensures
        final(out)@ == old(out)@ + name_list(g@, ns@),
{
    let ghost start = out@;
    let mut i: usize = 0;
    while i < ns.len()
        invariant
            0 <= i <= ns@.len(),
            forall|j: int| 0 <= j < ns@.len() ==> (#[trigger] ns@[j]) < g@.node_count(),
            out@ == start + name_list(g@, ns@.subrange(0, i as int)),
        decreases ns@.len() - i,
    {
        out.push(' ');
        let name = g.node_name(ns[i]);
        push_str(out, name.as_str());
        proof {
            let t = ns@.subrange(0, i + 1);
            assert(t.drop_last() =~= ns@.subrange(0, i as int));
            assert(out@ =~= start + name_list(g@, t));
        }
        i = i + 1;
    }
    assert(ns@.subrange(0, ns@.len() as int) =~= ns@);
}

fn push_block_refs(out: &mut Vec<char>, bs: &Vec<BlockIndex>)
    ensures
        final(out)@ == old(out)@ + block_refs(bs@),
{
    let ghost start = out@;
    let mut i: usize = 0;
    while i < bs.len()
        invariant
            0 <= i <= bs@.len(),
            out@ == start + block_refs(bs@.subrange(0, i as int)),
        decreases bs@.len() - i,
    {
        out.push(' ');
        out.push('B');
        push_decimal(out, bs[i].0);
        proof {
            let t = bs@.subrange(0, i + 1);
            assert(t.drop_last() =~= bs@.subrange(0, i as int));
            assert(out@ =~= start + block_refs(t));
        }
        i = i + 1;
    }
    assert(bs@.subrange(0, bs@.len() as int) =~= bs@);
}

fn tag_char(t: SPQRNodeType) -> (r: char)
    ensures
        r == type_tag(t),
{
    match t {
        SPQRNodeType::SNode => 'S',
        SPQRNodeType::PNode => 'P',
        SPQRNodeType::RNode => 'R',
    }
}

fn push_spqr_name(out: &mut Vec<char>, d: &SPQRDecomposition, s: usize)
    requires
        s < d@.spqr_nodes.len(),
    ensures
        final(out)@ == old(out)@ + spqr_name(d@, s as int),
{
    out.push(tag_char(d.spqr_node(SPQRNodeIndex(s)).spqr_node_type()));
    push_decimal(out, s);
    assert(final(out)@ =~= old(out)@ + spqr_name(d@, s as int));
}

fn write_e_line(out: &mut Vec<char>, d: &SPQRDecomposition, b: usize, s: usize, e: usize)
    requires
        d@.well_indexed(d.spec_graph()@),
        s < d@.spqr_nodes.len(),
        e < d.spec_graph()@.edge_count(),
    ensures
        final(out)@ == old(out)@ + e_line(d@, d.spec_graph()@, b as int, s as int, e as int),
{
    let g = d.graph();
    let (x, y) = g.edge_endpoints(e);
    assert(g@.endpoints[e as int] == (x, y));
    out.push('E');
    out.push(' ');
    let name = g.edge_name(e);
    push_str(out, name.as_str());
    out.push(' ');
    push_spqr_name(out, d, s);
    out.push(' ');
    out.push('B');
    push_decimal(out, b);
    out.push(' ');
    let nx = g.node_name(x);
    push_str(out, nx.as_str());
    out.push(' ');
    let ny = g.node_name(y);
    push_str(out, ny.as_str());
    let extra = d.edge_extra_data(e);
    if !extra.is_empty() {
        out.push(' ');
        push_str(out, extra);
    }
    out.push('\n');
    assert(final(out)@ =~= old(out)@ + e_line(d@, g@, b as int, s as int, e as int));
}

fn write_skeleton(out: &mut Vec<char>, d: &SPQRDecomposition, b: usize, s: usize)
    requires
        d@.well_indexed(d.spec_graph()@),
        s < d@.spqr_nodes.len(),
    ensures
        final(out)@ == old(out)@ + skeleton_text(d@, d.spec_graph()@, b as int, s as int),
{
    let g = d.graph();
    let node = d.spqr_node(SPQRNodeIndex(s));
    let ghost sv = d@.spqr_nodes[s as int];
    out.push(tag_char(node.spqr_node_type()));
    out.push(' ');
    push_spqr_name(out, d, s);
    out.push(' ');
    out.push('B');
    push_decimal(out, b);
    push_names(out, g, node.iter_nodes());
    out.push('\n');
    let ghost start = out@;
    let edges = node.iter_edges();
    let mut i: usize = 0;
    while i < edges.len()
        invariant
            d@.well_indexed(d.spec_graph()@),
            *g == d.spec_graph(),
            s < d@.spqr_nodes.len(),
            edges@ == d@.spqr_nodes[s as int].edges,
            0 <= i <= edges@.len(),
            out@ == start + e_lines(d@, g@, b as int, s as int, i as nat),
        decreases edges@.len() - i,
    {
        write_e_line(out, d, b, s, edges[i]);
        i = i + 1;
    }
    assert(final(out)@ =~= old(out)@ + skeleton_text(d@, g@, b as int, s as int));
}

fn write_v_line(out: &mut Vec<char>, d: &SPQRDecomposition, x: usize)
    requires
        d@.well_indexed(d.spec_graph()@),
        x < d@.spqr_edges.len(),
    ensures
        final(out)@ == old(out)@ + v_line(d@, d.spec_graph()@, x as int),
{
    let g = d.graph();
    let t = d.spqr_edge(SPQREdgeIndex(x));
    out.push('V');
    out.push(' ');
    out.push('V');
    push_decimal(out, x);
    out.push(' ');
    push_spqr_name(out, d, t.endpoints.0.0);
    out.push(' ');
    push_spqr_name(out, d, t.endpoints.1.0);
    out.push(' ');
    let na = g.node_name(t.virtual_edge.0);
    push_str(out, na.as_str());
    out.push(' ');
    let nb = g.node_name(t.virtual_edge.1);
    push_str(out, nb.as_str());
    out.push('\n');
    assert(final(out)@ =~= old(out)@ + v_line(d@, g@, x as int));
}

#[verifier::rlimit(80)]
fn write_block(out: &mut Vec<char>, d: &SPQRDecomposition, c: usize, b: usize)
    requires
        d@.well_indexed(d.spec_graph()@),
        b < d@.blocks.len(),
    ensures
        final(out)@ == old(out)@ + block_text(d@, d.spec_graph()@, c as int, b as int),
{
    let g = d.graph();
    let block = d.block(BlockIndex(b));
    out.push('B');
    out.push(' ');
    out.push('B');
    push_decimal(out, b);
    out.push(' ');
    out.push('G');
    push_decimal(out, c);
    push_names(out, g, block.iter_nodes());
    out.push('\n');
    let ghost start = out@;
    let nodes = d.iter_spqr_nodes_in_block(BlockIndex(b));
    let mut i: usize = 0;
    while i < nodes.len()
        invariant
            d@.well_indexed(d.spec_graph()@),
            *g == d.spec_graph(),
            b < d@.blocks.len(),
            nodes@ == d@.blocks[b as int].spqr_nodes,
            0 <= i <= nodes@.len(),
            out@ == start + skeletons_text(d@, g@, b as int, i as nat),
        decreases nodes@.len() - i,
    {
        write_skeleton(out, d, b, nodes[i].0);
        i = i + 1;
    }
    let ghost middle = out@;
    let edges = d.iter_spqr_edges_in_block(BlockIndex(b));
    let mut i: usize = 0;
    while i < edges.len()
        invariant
            d@.well_indexed(d.spec_graph()@),
            *g == d.spec_graph(),
            b < d@.blocks.len(),
            edges@ == d@.blocks[b as int].spqr_edges,
            0 <= i <= edges@.len(),
            out@ == middle + v_lines(d@, g@, b as int, i as nat),
        decreases edges@.len() - i,
    {
        write_v_line(out, d, edges[i].0);
        i = i + 1;
    }
    assert(final(out)@ =~= old(out)@ + block_text(d@, g@, c as int, b as int));
}

fn write_c_line(out: &mut Vec<char>, d: &SPQRDecomposition, k: usize)
    requires
        d@.well_indexed(d.spec_graph()@),
        k < d@.cut_nodes.len(),
    ensures
        final(out)@ == old(out)@ + c_line(d@, d.spec_graph()@, k as int),
{
    let g = d.graph();
    let cut = d.cut_node(CutNodeIndex(k));
    out.push('C');
    out.push(' ');
    let name = g.node_name(cut.node());
    push_str(out, name.as_str());
    push_block_refs(out, cut.iter_adjacent_blocks());
    out.push('\n');
    assert(final(out)@ =~= old(out)@ + c_line(d@, g@, k as int));
}

#[verifier::rlimit(80)]
fn write_component(out: &mut Vec<char>, d: &SPQRDecomposition, c: usize)
    requires
        d@.well_indexed(d.spec_graph()@),
        c < d@.components.len(),
    ensures
        final(out)@ == old(out)@ + component_text(d@, d.spec_graph()@, c as int),
{
    let g = d.graph();
    let component = d.component(ComponentIndex(c));
    out.push('G');
    out.push(' ');
    out.push('G');
    push_decimal(out, c);
    push_names(out, g, component.iter_nodes());
    out.push('\n');
    let ghost start = out@;
    let blocks = d.iter_blocks_in_component(ComponentIndex(c));
    let mut i: usize = 0;
    while i < blocks.len()
        invariant
            d@.well_indexed(d.spec_graph()@),
            *g == d.spec_graph(),
            c < d@.components.len(),
            blocks@ == d@.components[c as int].blocks,
            0 <= i <= blocks@.len(),
            out@ == start + blocks_text(d@, g@, c as int, i as nat),
        decreases blocks@.len() - i,
    {
        write_block(out, d, c, blocks[i].0);
        i = i + 1;
    }
    let ghost middle = out@;
    let cuts = component.iter_cut_nodes();
    let mut i: usize = 0;
    while i < cuts.len()
        invariant
            d@.well_indexed(d.spec_graph()@),
            *g == d.spec_graph(),
            c < d@.components.len(),
            cuts@ == d@.components[c as int].cut_nodes,
            0 <= i <= cuts@.len(),
            out@ == middle + c_lines(d@, g@, c as int, i as nat),
        decreases cuts@.len() - i,
    {
        write_c_line(out, d, cuts[i].0);
        i = i + 1;
    }
    assert(final(out)@ =~= old(out)@ + component_text(d@, g@, c as int));
}

/// Writes a decomposition as `.spqr` text: the header, an N line for each node with text, then
/// for each component its G line, its blocks, each followed by its SPQR nodes with their edges
/// and by its SPQR edges, and last its cut nodes.
pub fn write(decomposition: &SPQRDecomposition) -> (r: String)
    requires
        decomposition@.well_indexed(decomposition.spec_graph()@),
    ensures
        r@ == spqr_text(decomposition@, decomposition.spec_graph()@),
{
    let d = decomposition;
    let g = d.graph();
    let mut out: Vec<char> = Vec::new();
    push_str(&mut out, "H v0.1 https://github.com/sebschmi/SPQR-tree-file-format\n");
    let ghost start = out@;
    let n = g.node_count();
    let mut i: usize = 0;
    while i < n
        invariant
            d@.well_indexed(d.spec_graph()@),
            *g == d.spec_graph(),
            n == g@.node_count(),
            0 <= i <= n,
            out@ == start + node_lines(d@, g@, i as nat),
        decreases n - i,
    {
        let extra = d.node_extra_data(i);
        if !extra.is_empty() {
            out.push('N');
            out.push(' ');
            let name = g.node_name(i);
            push_str(&mut out, name.as_str());
            out.push(' ');
            push_str(&mut out, extra);
            out.push('\n');
        }
        assert(out@ =~= start + node_lines(d@, g@, (i + 1) as nat));
        i = i + 1;
    }
    let ghost middle = out@;
    let components = d.iter_components();
    let count = components.len();
    let mut c: usize = 0;
    while c < count
        invariant
            d@.well_indexed(d.spec_graph()@),
            *g == d.spec_graph(),
            count == d@.components.len(),
            0 <= c <= count,
            out@ == middle + components_text(d@, g@, c as nat),
        decreases count - c,
    {
        write_component(&mut out, d, c);
        c = c + 1;
    }
    assert(out@ =~= spqr_text(d@, g@));
    string_from_chars(&out)
}

impl<'graph> SPQRDecomposition<'graph> {
    /// The name under which an SPQR node is written: its type letter and its index.
    pub fn spqr_node_name(&self, spqr_node_index: SPQRNodeIndex) -> (r: String)
        requires
            spqr_node_index.0 < self@.spqr_nodes.len(),
        ensures
            r@ == spqr_name(self@, spqr_node_index.0 as int),
    {
        let mut out: Vec<char> = Vec::new();
        push_spqr_name(&mut out, self, spqr_node_index.0);
        assert(out@ =~= spqr_name(self@, spqr_node_index.0 as int));
        string_from_chars(&out)
    }
}

} // verus!
