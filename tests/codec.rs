use spqr_tree::binary::{read_string_binary, read_usize_binary, write_str_binary, write_usize_binary};
use spqr_tree::decomposition::SPQRNodeType;
use spqr_tree::indices::{CutNodeIndex, OptionalCutNodeIndex};
use spqr_tree::text::{read_next_line, white_space};

#[test]
fn next_line_skips_comments_and_blanks() {
    let text: Vec<char> = "  # note\n\n\tG  a b # rest\r\nB x\n   ".chars().collect();
    let mut pos: usize = 0;
    let first = read_next_line(&text, &mut pos).unwrap();
    assert_eq!(first, vec!["G", "a", "b"]);
    let second = read_next_line(&text, &mut pos).unwrap();
    assert_eq!(second, vec!["B", "x"]);
    assert_eq!(read_next_line(&text, &mut pos), None);
    assert_eq!(pos, text.len());
}

#[test]
fn next_line_at_end_without_line_feed() {
    let text: Vec<char> = "H v0.1 url".chars().collect();
    let mut pos: usize = 0;
    assert_eq!(read_next_line(&text, &mut pos).unwrap(), vec!["H", "v0.1", "url"]);
    assert_eq!(pos, text.len());
}

#[test]
fn white_space_matches_std() {
    for c in ['\t', '\n', ' ', '\u{85}', '\u{2003}', '\u{3000}', 'a', '0', '#', '\u{200B}'] {
        assert_eq!(white_space(c), c.is_whitespace());
    }
}

#[test]
fn node_type_bytes() {
    let mut out = Vec::new();
    SPQRNodeType::SNode.write_binary(&mut out);
    SPQRNodeType::PNode.write_binary(&mut out);
    SPQRNodeType::RNode.write_binary(&mut out);
    assert_eq!(out, vec![0, 1, 2]);
    assert_eq!(SPQRNodeType::read_binary(&out, 1), Some((SPQRNodeType::PNode, 2)));
    assert_eq!(SPQRNodeType::read_binary(&vec![3], 0), None);
    assert_eq!(SPQRNodeType::read_binary(&out, 3), None);
}

#[test]
fn integers_and_strings() {
    let mut out = Vec::new();
    write_usize_binary(0x0102, &mut out);
    assert_eq!(out, vec![2, 1, 0, 0, 0, 0, 0, 0]);
    assert_eq!(read_usize_binary(&out, 0), Some((0x0102, 8)));
    assert_eq!(read_usize_binary(&out, 1), None);
    let mut out = Vec::new();
    write_str_binary("aé", &mut out);
    assert_eq!(out, vec![3, 0, 0, 0, 0, 0, 0, 0, b'a', 0xc3, 0xa9]);
    assert_eq!(read_string_binary(&out, 0), Some(("aé".to_string(), 11)));
    let bad = vec![1, 0, 0, 0, 0, 0, 0, 0, 0xff];
    assert_eq!(read_string_binary(&bad, 0), None);
}

#[test]
fn optional_cut_node_index() {
    let none = OptionalCutNodeIndex::none();
    assert!(none.is_none());
    assert_eq!(none.to_option(), None);
    let some = OptionalCutNodeIndex::from_option(Some(CutNodeIndex(4)));
    assert!(some.is_some());
    assert_eq!(some.to_option(), Some(CutNodeIndex(4)));
}
