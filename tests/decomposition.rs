use spqr_tree::builder::{BuildError, SPQRDecompositionBuilder};
use spqr_tree::decomposition::{SPQRDecomposition, SPQRNodeType};
use spqr_tree::graph::StaticGraph;
use spqr_tree::indices::{BlockIndex, ComponentIndex, CutNodeIndex, SPQREdgeIndex, SPQRNodeIndex};
use spqr_tree::plain_spqr_file::{read, ReadError};

fn graph(node_count: usize, edges: &[(usize, usize)]) -> StaticGraph {
    let node_names = (0..node_count).map(|n| format!("N{n}")).collect();
    let edge_names = (0..edges.len()).map(|e| format!("E{e}")).collect();
    StaticGraph::new(node_names, edge_names, edges.to_vec()).unwrap()
}

fn cycle() -> StaticGraph {
    graph(4, &[(0, 1), (1, 2), (2, 3), (3, 0)])
}

fn two_triangles() -> StaticGraph {
    graph(5, &[(0, 1), (1, 2), (2, 0), (2, 3), (3, 4), (4, 2)])
}

fn build_cycle(g: &StaticGraph) -> SPQRDecomposition<'_> {
    let mut b = SPQRDecompositionBuilder::new(g);
    let c = b.add_component(vec![0, 1, 2, 3]).unwrap();
    let block = b.add_block(c, vec![0, 1, 2, 3]).unwrap();
    let s = b.add_spqr_node(block, vec![0, 1, 2, 3], SPQRNodeType::SNode).unwrap();
    for e in 0..4 {
        b.add_edge_to_spqr_node(e, s).unwrap();
    }
    b.build().unwrap()
}

fn build_two_triangles(g: &StaticGraph) -> SPQRDecomposition<'_> {
    let mut b = SPQRDecompositionBuilder::new(g);
    let c = b.add_component(vec![0, 1, 2, 3, 4]).unwrap();
    let first = b.add_block(c, vec![0, 1, 2]).unwrap();
    let second = b.add_block(c, vec![2, 3, 4]).unwrap();
    let s = b.add_spqr_node(first, vec![0, 1, 2], SPQRNodeType::SNode).unwrap();
    let t = b.add_spqr_node(second, vec![2, 3, 4], SPQRNodeType::SNode).unwrap();
    for e in 0..3 {
        b.add_edge_to_spqr_node(e, s).unwrap();
    }
    for e in 3..6 {
        b.add_edge_to_spqr_node(e, t).unwrap();
    }
    b.build().unwrap()
}

fn count_lines(text: &str, tag: &str) -> usize {
    text.lines().filter(|l| l.split(' ').next() == Some(tag)).count()
}

fn sorted_lines(text: &str) -> Vec<String> {
    let mut lines: Vec<String> = text.trim().lines().map(|l| l.trim().to_string()).collect();
    lines.sort();
    lines
}

#[test]
fn cycle_has_one_series_skeleton() {
    let g = cycle();
    let d = build_cycle(&g);
    assert_eq!(d.iter_components().len(), 1);
    let c = ComponentIndex(0);
    assert_eq!(d.iter_blocks_in_component(c).len(), 1);
    assert_eq!(d.component(c).iter_cut_nodes().len(), 0);
    let block = d.iter_blocks_in_component(c)[0];
    assert_eq!(d.iter_spqr_nodes_in_block(block).len(), 1);
    assert_eq!(d.iter_spqr_edges_in_block(block).len(), 0);
    let s = d.spqr_node(d.iter_spqr_nodes_in_block(block)[0]);
    assert_eq!(s.spqr_node_type(), SPQRNodeType::SNode);
    assert_eq!(s.iter_nodes().len(), 4);
    assert_eq!(s.iter_edges().len(), 4);
    for n in 0..4 {
        assert!(!d.is_cut_node(n));
    }
    let text = spqr_tree::plain_spqr_file::write(&d);
    assert_eq!(count_lines(&text, "G"), 1);
    assert_eq!(count_lines(&text, "B"), 1);
    assert_eq!(count_lines(&text, "S"), 1);
    assert_eq!(count_lines(&text, "E"), 4);
    assert_eq!(count_lines(&text, "V"), 0);
    assert_eq!(count_lines(&text, "C"), 0);
}

#[test]
fn cycle_text_is_exact() {
    let g = cycle();
    let d = build_cycle(&g);
    let expected = "H v0.1 https://github.com/sebschmi/SPQR-tree-file-format\n\
                    G G0 N0 N1 N2 N3\n\
                    B B0 G0 N0 N1 N2 N3\n\
                    S S0 B0 N0 N1 N2 N3\n\
                    E E0 S0 B0 N0 N1\n\
                    E E1 S0 B0 N1 N2\n\
                    E E2 S0 B0 N2 N3\n\
                    E E3 S0 B0 N3 N0\n";
    assert_eq!(spqr_tree::plain_spqr_file::write(&d), expected);
}

#[test]
fn two_triangles_share_a_cut_node() {
    let g = two_triangles();
    let d = build_two_triangles(&g);
    let c = ComponentIndex(0);
    assert_eq!(d.iter_components().len(), 1);
    assert_eq!(d.iter_blocks_in_component(c).len(), 2);
    assert_eq!(d.component(c).iter_cut_nodes().len(), 1);
    let k = d.component(c).iter_cut_nodes()[0];
    assert_eq!(d.cut_node_index_to_node_index(k), 2);
    assert_eq!(d.cut_node(k).iter_adjacent_blocks(), &vec![BlockIndex(0), BlockIndex(1)]);
    assert_eq!(d.cut_node(k).component(), c);
    for &block in d.iter_blocks_in_component(c) {
        assert_eq!(d.iter_spqr_nodes_in_block(block).len(), 1);
        assert_eq!(d.iter_spqr_edges_in_block(block).len(), 0);
        let s = d.spqr_node(d.iter_spqr_nodes_in_block(block)[0]);
        assert_eq!(s.spqr_node_type(), SPQRNodeType::SNode);
        assert_eq!(s.iter_nodes().len(), 3);
        assert_eq!(s.iter_edges().len(), 3);
        assert_eq!(d.block(block).iter_cut_nodes(), &vec![CutNodeIndex(0)]);
    }
    assert!(d.is_cut_node(2));
    for n in [0, 1, 3, 4] {
        assert!(!d.is_cut_node(n));
        assert_eq!(d.node_block_indices(n).len(), 1);
    }
    assert_eq!(d.node_block_indices(2), &vec![BlockIndex(0), BlockIndex(1)]);
}

#[test]
fn empty_component_line_is_rejected() {
    let g = cycle();
    assert!(matches!(read(&g, "H v0.1 url\nG g1"), Err(ReadError::EmptyComponent)));
}

#[test]
fn header_errors() {
    let g = cycle();
    assert!(matches!(read(&g, ""), Err(ReadError::MissingHeader)));
    assert!(matches!(read(&g, "# only a comment\n\n"), Err(ReadError::MissingHeader)));
    assert!(matches!(read(&g, "G g1 N0"), Err(ReadError::MissingHeader)));
    assert!(matches!(read(&g, "H v0.2 url"), Err(ReadError::UnsupportedVersion)));
    assert!(matches!(read(&g, "H"), Err(ReadError::UnsupportedVersion)));
    assert!(matches!(read(&g, "H v0.1"), Err(ReadError::MissingHeaderUrl)));
}

#[test]
fn record_errors() {
    let g = cycle();
    let h = "H v0.1 url\n";
    let cases: Vec<(String, ReadError)> = vec![
        (format!("{h}X a"), ReadError::InvalidLineType("X".to_string())),
        (format!("{h}G"), ReadError::MissingComponentNameInGLine),
        (format!("{h}G g N9"), ReadError::UnknownNodeName("N9".to_string())),
        (format!("{h}N"), ReadError::MissingNodeNameInNLine),
        (format!("{h}B"), ReadError::MissingBlockNameInBLine),
        (format!("{h}B b"), ReadError::MissingComponentNameInBLine),
        (format!("{h}B b g N0"), ReadError::UnknownComponentName("g".to_string())),
        (format!("{h}G g N0 N1 N2 N3\nB b g"), ReadError::EmptyBlock),
        (format!("{h}C"), ReadError::MissingNodeNameInCLine),
        (format!("{h}C N0 b"), ReadError::UnknownBlockName("b".to_string())),
        (format!("{h}C N0"), ReadError::EmptyCutNode),
        (format!("{h}S"), ReadError::MissingSPQRNodeNameInSPRLine),
        (format!("{h}S s"), ReadError::MissingBlockNameInSPRLine),
        (format!("{h}G g N0 N1 N2 N3\nB b g N0 N1 N2 N3\nS s b N0"), ReadError::LessThanTwoNodesInSPQRNode),
        (format!("{h}V"), ReadError::MissingSPQREdgeNameInVLine),
        (format!("{h}V v s"), ReadError::MissingSPQRNodeNameInVLine),
        (format!("{h}V v s t N0"), ReadError::MissingNodeNameInVLine),
        (format!("{h}V v s t N0 N1"), ReadError::UnknownSPQRNodeName("s".to_string())),
        (format!("{h}E"), ReadError::MissingEdgeNameInELine),
        (format!("{h}E e"), ReadError::MissingSPQRNodeNameInELine),
        (format!("{h}E e s"), ReadError::MissingBlockNameInELine),
        (format!("{h}E e s b N0"), ReadError::MissingNodeNameInELine),
        (format!("{h}E e s b N0 N2"), ReadError::EdgeDoesNotExist("e".to_string())),
        (format!("{h}G g N0 N1\nG h N1 N2"), ReadError::InvalidDecomposition(BuildError::NodeAlreadyInComponent)),
        (format!("{h}G g N0 N1 N2 N3"), ReadError::InvalidDecomposition(BuildError::Incomplete)),
    ];
    for (text, expected) in cases {
        match read(&g, &text) {
            Err(e) => assert_eq!(e, expected, "{text}"),
            Ok(_) => panic!("accepted {text}"),
        }
    }
}

#[test]
fn spqr_edge_between_blocks_is_named() {
    let g = two_triangles();
    let text = "H v0.1 url\nG g N0 N1 N2 N3 N4\nB a g N0 N1 N2\nB b g N2 N3 N4\n\
                S s a N0 N1 N2\nS t b N2 N3 N4\nV v s t N2 N2\n";
    assert_eq!(
        read(&g, text).err(),
        Some(ReadError::SPQREdgeBetweenDifferentBlocks("v".to_string()))
    );
}

#[test]
fn text_round_trip_keeps_lines() {
    let g = two_triangles();
    let mut b = SPQRDecompositionBuilder::new(&g);
    b.add_extra_data_to_node(3, "some text".to_string()).unwrap();
    let d0 = {
        let c = b.add_component(vec![0, 1, 2, 3, 4]).unwrap();
        let first = b.add_block(c, vec![0, 1, 2]).unwrap();
        let second = b.add_block(c, vec![2, 3, 4]).unwrap();
        b.add_cut_node(2, vec![first, second]).unwrap();
        let s = b.add_spqr_node(first, vec![0, 1, 2], SPQRNodeType::SNode).unwrap();
        let t = b.add_spqr_node(second, vec![2, 3, 4], SPQRNodeType::RNode).unwrap();
        for e in 0..3 {
            b.add_edge_to_spqr_node(e, s).unwrap();
        }
        for e in 3..6 {
            b.add_edge_to_spqr_node(e, t).unwrap();
        }
        b.build().unwrap()
    };
    let first = spqr_tree::plain_spqr_file::write(&d0);
    let d1 = read(&g, &first).unwrap();
    let second = spqr_tree::plain_spqr_file::write(&d1);
    assert_eq!(sorted_lines(&first), sorted_lines(&second));
    assert!(first.contains("N N3 some text\n"));
    assert!(first.contains("C N2 B0 B1\n"));
    assert_eq!(d1.node_extra_data(3), "some text");
    assert!(d1.is_cut_node(2));
}

#[test]
fn text_with_comments_and_order() {
    let g = cycle();
    let text = "# a cycle\n\nH v0.1 url   \n  G g N0 N1 N2 N3 # all nodes\nB b g N0 N1 N2 N3\n\
                S s b N0 N1 N2 N3\nE E0 s b N1 N0\nE E1 s b N1 N2\nE E2 s b N2 N3\nE E3 s b N3 N0\n";
    let d = read(&g, text).unwrap();
    let block = d.iter_blocks_in_component(ComponentIndex(0))[0];
    let s = d.spqr_node(d.iter_spqr_nodes_in_block(block)[0]);
    assert_eq!(s.iter_edges(), &vec![0, 1, 2, 3]);
}

#[test]
fn binary_round_trip_keeps_everything() {
    let g = two_triangles();
    let mut b = SPQRDecompositionBuilder::new(&g);
    b.add_extra_data_to_node(0, "ä text".to_string()).unwrap();
    let c = b.add_component(vec![0, 1, 2, 3, 4]).unwrap();
    let first = b.add_block(c, vec![0, 1, 2]).unwrap();
    let second = b.add_block(c, vec![2, 3, 4]).unwrap();
    let s = b.add_spqr_node(first, vec![0, 1, 2], SPQRNodeType::SNode).unwrap();
    let p = b.add_spqr_node(first, vec![0, 1], SPQRNodeType::PNode).unwrap();
    let t = b.add_spqr_node(second, vec![2, 3, 4], SPQRNodeType::RNode).unwrap();
    b.add_spqr_edge(None, (s, p), (0, 1)).unwrap();
    b.add_edge_to_spqr_node(0, p).unwrap();
    b.add_edge_to_spqr_node(1, s).unwrap();
    b.add_edge_to_spqr_node(2, s).unwrap();
    for e in 3..6 {
        b.add_edge_to_spqr_node(e, t).unwrap();
    }
    let d = b.build().unwrap();
    let bytes = d.write_binary();
    let r = SPQRDecomposition::read_binary(&g, &bytes).unwrap();
    assert_eq!(d.iter_components(), r.iter_components());
    for i in 0..2 {
        assert_eq!(d.block(BlockIndex(i)), r.block(BlockIndex(i)));
    }
    assert_eq!(d.cut_node(CutNodeIndex(0)), r.cut_node(CutNodeIndex(0)));
    for i in 0..3 {
        assert_eq!(d.spqr_node(SPQRNodeIndex(i)), r.spqr_node(SPQRNodeIndex(i)));
    }
    assert_eq!(d.spqr_edge(SPQREdgeIndex(0)), r.spqr_edge(SPQREdgeIndex(0)));
    for n in 0..5 {
        assert_eq!(d.node_component_index(n), r.node_component_index(n));
        assert_eq!(d.node_block_indices(n), r.node_block_indices(n));
        assert_eq!(d.node_spqr_node_indices(n), r.node_spqr_node_indices(n));
        assert_eq!(d.is_cut_node(n), r.is_cut_node(n));
        assert_eq!(d.node_extra_data(n), r.node_extra_data(n));
    }
    for e in 0..6 {
        assert_eq!(d.edge_extra_data(e), r.edge_extra_data(e));
    }
    assert_eq!(r.node_extra_data(0), "ä text");
    assert_eq!(r.write_binary(), bytes);
    assert!(r.has_incident_virtual_edge(0));
    assert!(!r.has_incident_virtual_edge(3));
}

#[test]
fn binary_read_rejects_short_and_bad_bytes() {
    let g = cycle();
    let d = build_cycle(&g);
    let bytes = d.write_binary();
    assert!(SPQRDecomposition::read_binary(&g, &bytes[..bytes.len() - 1].to_vec()).is_none());
    assert!(SPQRDecomposition::read_binary(&g, &Vec::new()).is_none());
    let mut g2 = bytes.clone();
    let len = g2.len();
    g2[len - 1] = 0xff;
    assert!(SPQRDecomposition::read_binary(&g, &g2).is_none());
}

#[test]
fn p_node_poles_are_the_first_two_vertices() {
    let g = cycle();
    let mut b = SPQRDecompositionBuilder::new(&g);
    let c = b.add_component(vec![0, 1, 2, 3]).unwrap();
    let block = b.add_block(c, vec![0, 1, 2, 3]).unwrap();
    let p = b.add_spqr_node(block, vec![3, 1], SPQRNodeType::PNode).unwrap();
    let s = b.add_spqr_node(block, vec![0, 1, 2, 3], SPQRNodeType::SNode).unwrap();
    assert_eq!(b.spqr_node_block_index(p), block);
    b.add_spqr_edge(Some(block), (p, s), (3, 1)).unwrap();
    for e in 0..4 {
        b.add_edge_to_spqr_node(e, s).unwrap();
    }
    let d = b.build().unwrap();
    assert_eq!(d.spqr_node(p).p_node_poles(), Some((3, 1)));
    assert_eq!(d.spqr_node(s).p_node_poles(), None);
    let x = d.spqr_edge(SPQREdgeIndex(0));
    assert_eq!(x.endpoints(), (p, s));
    assert_eq!(x.min_endpoint(), SPQRNodeIndex(0));
    assert_eq!(x.max_endpoint(), SPQRNodeIndex(1));
    assert_eq!(x.virtual_edge(), (3, 1));
    assert_eq!(x.ordered_virtual_edge(), (1, 3));
    assert_eq!(d.spqr_node(s).iter_incident_spqr_edges(), &vec![SPQREdgeIndex(0)]);
    assert!(spqr_tree::plain_spqr_file::write(&d).contains("V V0 P0 S1 N3 N1\n"));
}

#[test]
fn builder_rejects_inconsistent_pieces() {
    let g = two_triangles();
    let mut b = SPQRDecompositionBuilder::new(&g);
    assert_eq!(b.add_component(vec![]), Err(BuildError::EmptyComponent));
    assert_eq!(b.add_component(vec![0, 9]), Err(BuildError::NodeOutOfRange));
    let c = b.add_component(vec![0, 1, 2, 3, 4]).unwrap();
    assert_eq!(b.add_block(c, vec![]), Err(BuildError::EmptyBlock));
    assert_eq!(b.add_block(ComponentIndex(7), vec![0]), Err(BuildError::UnknownComponent));
    let first = b.add_block(c, vec![0, 1, 2]).unwrap();
    assert_eq!(b.add_cut_node(2, vec![]), Err(BuildError::EmptyCutNode));
    assert_eq!(b.add_cut_node(3, vec![first]), Err(BuildError::NodeNotInBlock));
    assert_eq!(b.add_spqr_node(first, vec![0], SPQRNodeType::SNode), Err(BuildError::TooFewSPQRNodeVertices));
    assert_eq!(b.add_spqr_node(first, vec![0, 3], SPQRNodeType::SNode), Err(BuildError::NodeNotInBlock));
    let s = b.add_spqr_node(first, vec![0, 1, 2], SPQRNodeType::SNode).unwrap();
    assert_eq!(b.add_edge_to_spqr_node(3, s), Err(BuildError::EdgeOutsideBlock));
    let p = b.add_spqr_node(first, vec![0, 1], SPQRNodeType::PNode).unwrap();
    assert_eq!(b.add_edge_to_spqr_node(1, p), Err(BuildError::EdgeNotInSPQRNode));
    b.add_edge_to_spqr_node(0, s).unwrap();
    assert_eq!(b.add_edge_to_spqr_node(0, s), Err(BuildError::EdgeAlreadyInSPQRNode));
    assert_eq!(b.add_spqr_edge(None, (s, s), (0, 4)), Err(BuildError::PoleNotShared));
    b.add_extra_data_to_node(1, "x".to_string()).unwrap();
    assert_eq!(b.add_extra_data_to_node(1, "y".to_string()), Err(BuildError::ExtraDataAlreadySet));
}

#[test]
fn builder_rejects_reused_nodes() {
    let g = two_triangles();
    let mut b = SPQRDecompositionBuilder::new(&g);
    assert_eq!(b.add_component(vec![0, 1, 0]), Err(BuildError::NodeAlreadyInComponent));
    let mut b = SPQRDecompositionBuilder::new(&g);
    b.add_component(vec![0, 1, 2, 3, 4]).unwrap();
    assert_eq!(b.add_component(vec![2]), Err(BuildError::NodeAlreadyInComponent));
    let mut b = SPQRDecompositionBuilder::new(&g);
    let c = b.add_component(vec![0, 1, 2, 3, 4]).unwrap();
    assert_eq!(b.add_block(c, vec![0, 1, 1]), Err(BuildError::NodeAlreadyInBlock));
    let mut b = SPQRDecompositionBuilder::new(&g);
    let c = b.add_component(vec![0, 1, 2, 3, 4]).unwrap();
    b.add_block(c, vec![0, 1, 2]).unwrap();
    assert_eq!(b.add_block(c, vec![0, 1, 4]), Err(BuildError::EdgeInTwoBlocks));
    let mut b = SPQRDecompositionBuilder::new(&g);
    let c = b.add_component(vec![0, 1, 2, 3, 4]).unwrap();
    let block = b.add_block(c, vec![0, 1, 2]).unwrap();
    assert_eq!(b.add_spqr_node(block, vec![0, 1, 0], SPQRNodeType::RNode), Err(BuildError::NodeAlreadyInSPQRNode));
    let mut b = SPQRDecompositionBuilder::new(&g);
    b.add_component(vec![0, 1]).unwrap();
    assert_eq!(b.add_component(vec![2, 3, 4]), Err(BuildError::EdgeInTwoComponents));
}

#[test]
fn build_checks_declared_cut_nodes_and_completeness() {
    let g = two_triangles();
    let mut b = SPQRDecompositionBuilder::new(&g);
    let c = b.add_component(vec![0, 1, 2, 3, 4]).unwrap();
    let first = b.add_block(c, vec![0, 1, 2]).unwrap();
    b.add_block(c, vec![2, 3, 4]).unwrap();
    b.add_cut_node(2, vec![first]).unwrap();
    let s = b.add_spqr_node(first, vec![0, 1, 2], SPQRNodeType::SNode).unwrap();
    let t = b.add_spqr_node(BlockIndex(1), vec![2, 3, 4], SPQRNodeType::SNode).unwrap();
    for e in 0..3 {
        b.add_edge_to_spqr_node(e, s).unwrap();
    }
    for e in 3..6 {
        b.add_edge_to_spqr_node(e, t).unwrap();
    }
    assert_eq!(b.build().err(), Some(BuildError::CutNodeMismatch));
    let b = SPQRDecompositionBuilder::new(&g);
    assert_eq!(b.build().err(), Some(BuildError::Incomplete));
}

#[test]
fn graph_lookups() {
    let g = cycle();
    assert_eq!(g.node_index_from_name("N2"), Some(2));
    assert_eq!(g.node_index_from_name("N7"), None);
    assert_eq!(g.edge_index_from_name("E3"), Some(3));
    assert_eq!(g.edge_between(0, 3), Some(3));
    assert_eq!(g.edge_between(0, 2), None);
    assert_eq!(g.incident_edges(1), &vec![0, 1]);
    assert_eq!(g.node_count(), 4);
    assert_eq!(g.edge_count(), 4);
    assert_eq!(g.node_name(1), "N1");
    assert_eq!(g.edge_name(2), "E2");
    assert_eq!(g.edge_endpoints(2), (2, 3));
    assert!(g.is_valid());
    assert!(StaticGraph::new(vec!["a".to_string()], vec!["e".to_string()], vec![(0, 0)]).is_err());
    assert!(StaticGraph::new(vec!["a".to_string()], vec!["e".to_string()], vec![(0, 1)]).is_err());
    assert!(StaticGraph::new(vec!["a".to_string()], vec![], vec![]).is_ok());
}

#[test]
fn decomposition_accessors() {
    let g = cycle();
    let d = build_cycle(&g);
    assert_eq!(d.iter_component_indices(), vec![ComponentIndex(0)]);
    assert_eq!(d.iter_nodes(), vec![0, 1, 2, 3]);
    assert_eq!(d.component(ComponentIndex(0)).iter_nodes(), &vec![0, 1, 2, 3]);
    assert_eq!(d.block(BlockIndex(0)).iter_nodes(), &vec![0, 1, 2, 3]);
    assert_eq!(d.spqr_node(SPQRNodeIndex(0)).block(), BlockIndex(0));
    assert_eq!(d.node_component_index(3), ComponentIndex(0));
    assert_eq!(d.node_spqr_node_indices(3), &vec![SPQRNodeIndex(0)]);
    assert!(!d.has_incident_virtual_edge(3));
    assert_eq!(d.edge_extra_data(0), "");
    assert_eq!(d.graph().node_count(), 4);
    assert!(d.is_well_indexed());
}

#[test]
fn names_refer_to_their_last_declaration() {
    let g = graph(4, &[(0, 1), (2, 3)]);
    let text = "H v0.1 url\nG g N0 N1\nG g N2 N3\nB b g N2 N3\nB b g N2 N3\n";
    assert_eq!(
        read(&g, text).err(),
        Some(ReadError::InvalidDecomposition(BuildError::EdgeInTwoBlocks))
    );
    let text = "H v0.1 url\nG g N0 N1\nB b g N0 N1\nS s b N0 N1\nE E0 s b N1 N0\n\
                G g N2 N3\nB b g N2 N3\nS s b N2 N3\nE E1 s b N2 N3\n";
    let d = read(&g, text).unwrap();
    assert_eq!(d.node_component_index(3), ComponentIndex(1));
    assert_eq!(d.node_block_indices(2), &vec![BlockIndex(1)]);
    assert_eq!(d.spqr_node(SPQRNodeIndex(1)).iter_edges(), &vec![1]);
    assert_eq!(d.spqr_node(SPQRNodeIndex(0)).iter_edges(), &vec![0]);
}

#[test]
fn edge_lines_attach_the_edge_between_their_nodes() {
    let g = cycle();
    let text = "H v0.1 url\nG g N0 N1 N2 N3\nB b g N0 N1 N2 N3\nS s b N0 N1 N2 N3\n\
                E x s b N3 N2\nE y s b N0 N3\nE E s b N2 N1\nE E s b N1 N0\n";
    let d = read(&g, text).unwrap();
    assert_eq!(d.spqr_node(SPQRNodeIndex(0)).iter_edges(), &vec![2, 3, 1, 0]);
    let twice = "H v0.1 url\nG g N0 N1 N2 N3\nB b g N0 N1 N2 N3\nS s b N0 N1 N2 N3\nE a s b N3 N2\nE b s b N2 N3\n";
    assert_eq!(
        read(&g, twice).err(),
        Some(ReadError::InvalidDecomposition(BuildError::EdgeAlreadyInSPQRNode))
    );
    let missing = "H v0.1 url\nG g N0 N1 N2 N3\nB b g N0 N1 N2 N3\nS s b N0 N1 N2 N3\nE z s b N0 N2\n";
    assert_eq!(read(&g, missing).err(), Some(ReadError::EdgeDoesNotExist("z".to_string())));
}

#[test]
fn tokens_are_separated_by_any_white_space() {
    let g = cycle();
    let text = "H\tv0.1   url\nG  g\tN0 N1  N2 N3\n";
    assert_eq!(read(&g, text).err(), Some(ReadError::InvalidDecomposition(BuildError::Incomplete)));
}

#[test]
fn scenario_errors_from_the_description() {
    let g = graph(3, &[(0, 1), (1, 2)]);
    assert_eq!(
        read(&g, "H v0.1 url\nB b1 g1 N0").err(),
        Some(ReadError::UnknownComponentName("g1".to_string()))
    );
    assert_eq!(
        read(&g, "H v0.1 url\nG g1 N0 N1\nB b1 g1 N0 N1\nS s1 b1 N0").err(),
        Some(ReadError::LessThanTwoNodesInSPQRNode)
    );
    assert_eq!(
        read(&g, "H v0.1 url\nG g N0 N1 N2\nB b g N0 N1 N2\nS s b N0 N1 N2\nE e1 s b N0 N2").err(),
        Some(ReadError::EdgeDoesNotExist("e1".to_string()))
    );
}

#[test]
fn spqr_node_names() {
    let g = two_triangles();
    let d = build_two_triangles(&g);
    assert_eq!(d.spqr_node_name(SPQRNodeIndex(0)), "S0");
    assert_eq!(d.spqr_node_name(SPQRNodeIndex(1)), "S1");
}

#[test]
fn build_checks_poles_of_single_block_nodes() {
    let g = cycle();
    let mut b = SPQRDecompositionBuilder::new(&g);
    let c = b.add_component(vec![0, 1, 2, 3]).unwrap();
    let block = b.add_block(c, vec![0, 1, 2, 3]).unwrap();
    let s = b.add_spqr_node(block, vec![0, 1, 2, 3], SPQRNodeType::SNode).unwrap();
    b.add_spqr_node(block, vec![0, 1], SPQRNodeType::PNode).unwrap();
    for e in 0..4 {
        b.add_edge_to_spqr_node(e, s).unwrap();
    }
    assert_eq!(b.build().err(), Some(BuildError::PoleMismatch));
}

#[test]
fn graph_well_formedness() {
    assert!(cycle().is_well_formed());
    assert!(two_triangles().is_well_formed());
}
