use graphtie::error::ParseError;
use graphtie::path::{
    node_ids, parse_path_line, sign_byte, split_node, Orientation, OrientedNode,
};

fn fwd(node_id: usize) -> OrientedNode {
    OrientedNode { node_id, orientation: Orientation::Forward }
}

fn rev(node_id: usize) -> OrientedNode {
    OrientedNode { node_id, orientation: Orientation::Reverse }
}

#[test]
fn split_node_reads_id_and_orientation() {
    assert_eq!(split_node(b"1+"), Some(fwd(1)));
    assert_eq!(split_node(b"250-"), Some(rev(250)));
    assert_eq!(split_node(b"0+"), Some(fwd(0)));
}

#[test]
fn split_node_refuses_a_missing_orientation() {
    assert_eq!(split_node(b"12"), None);
    assert_eq!(split_node(b"12*"), None);
    assert_eq!(split_node(b""), None);
}

#[test]
fn split_node_refuses_a_bad_id() {
    assert_eq!(split_node(b"+"), None);
    assert_eq!(split_node(b"-"), None);
    assert_eq!(split_node(b"a+"), None);
    assert_eq!(split_node(b"1+-"), None);
    assert_eq!(split_node(b"++"), None);
    assert_eq!(split_node(b"99999999999999999999999999+"), None);
}

#[test]
fn sign_byte_writes_the_orientation() {
    assert_eq!(sign_byte(Orientation::Forward), b'+');
    assert_eq!(sign_byte(Orientation::Reverse), b'-');
}

#[test]
fn parse_path_line_reads_identifier_and_nodes() {
    let p = parse_path_line(b"Q\t1+ 2- 3+\n").unwrap();
    assert_eq!(p.identifier, b"Q".to_vec());
    assert_eq!(p.nodes, vec![fwd(1), rev(2), fwd(3)]);
}

#[test]
fn parse_path_line_with_one_node() {
    let p = parse_path_line(b"sample#1#chr1\t77-").unwrap();
    assert_eq!(p.identifier, b"sample#1#chr1".to_vec());
    assert_eq!(p.nodes, vec![rev(77)]);
}

#[test]
fn parse_path_line_with_empty_identifier() {
    let p = parse_path_line(b"x\t1+").unwrap();
    assert_eq!(p.identifier, b"x".to_vec());
    let p = parse_path_line(b"a b\t1+").unwrap();
    assert_eq!(p.identifier, b"a b".to_vec());
}

#[test]
fn parse_path_line_without_tab_is_refused() {
    assert_eq!(parse_path_line(b"Q 1+ 2+"), Err(ParseError::MissingTab));
    assert_eq!(parse_path_line(b""), Err(ParseError::MissingTab));
    assert_eq!(parse_path_line(b"Q\t"), Err(ParseError::MissingTab));
}

#[test]
fn parse_path_line_names_the_first_bad_node() {
    assert_eq!(parse_path_line(b"Q\t1+ 2 3+"), Err(ParseError::BadNodeRef { index: 1 }));
    assert_eq!(parse_path_line(b"Q\tx+ 2 3+"), Err(ParseError::BadNodeRef { index: 0 }));
    assert_eq!(parse_path_line(b"Q\t1+ 2+ 3"), Err(ParseError::BadNodeRef { index: 2 }));
}

#[test]
fn parse_path_line_refuses_two_spaces_in_a_row() {
    assert_eq!(parse_path_line(b"Q\t1+  2+"), Err(ParseError::BadNodeRef { index: 1 }));
}

#[test]
fn node_ids_drops_the_orientation() {
    assert_eq!(node_ids(&[fwd(3), rev(1), fwd(3)]), vec![3, 1, 3]);
    assert_eq!(node_ids(&[]), Vec::<usize>::new());
}
