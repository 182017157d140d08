use graphtie::error::{Error, ParseError};
use graphtie::nodes::{load_nodes, parse_node_line, NodeStore};

fn lines(text: &[&str]) -> Vec<Vec<u8>> {
    text.iter().map(|l| l.as_bytes().to_vec()).collect()
}

#[test]
fn parse_node_line_reads_id_and_sequence() {
    assert_eq!(parse_node_line(b"1\tAAAA\n"), Ok((1, b"AAAA".to_vec())));
    assert_eq!(parse_node_line(b"  42\tACGT"), Ok((42, b"ACGT".to_vec())));
}

#[test]
fn parse_node_line_keeps_what_stands_behind_the_first_tab() {
    assert_eq!(parse_node_line(b"7\tAC\tGT"), Ok((7, b"AC\tGT".to_vec())));
}

#[test]
fn parse_node_line_without_tab_is_refused() {
    assert_eq!(parse_node_line(b"1 AAAA"), Err(ParseError::MissingTab));
    assert_eq!(parse_node_line(b""), Err(ParseError::MissingTab));
    assert_eq!(parse_node_line(b"5\t\n"), Err(ParseError::MissingTab));
}

#[test]
fn parse_node_line_with_bad_id_is_refused() {
    assert_eq!(parse_node_line(b"x\tAAAA"), Err(ParseError::BadNodeId));
    assert_eq!(parse_node_line(b"-1\tAAAA"), Err(ParseError::BadNodeId));
    assert_eq!(parse_node_line(b"1.5\tAAAA"), Err(ParseError::BadNodeId));
    assert_eq!(parse_node_line(b"1 \tAAAA"), Err(ParseError::BadNodeId));
}

#[test]
fn node_store_insert_and_get() {
    let mut store = NodeStore::new();
    assert_eq!(store.len(), 0);
    assert_eq!(store.get(1), None);
    store.insert(1, b"AAAA".to_vec());
    store.insert(2, b"CC".to_vec());
    assert_eq!(store.len(), 2);
    assert_eq!(store.get(1), Some(&b"AAAA".to_vec()));
    assert_eq!(store.get(2), Some(&b"CC".to_vec()));
    assert_eq!(store.get(3), None);
}

#[test]
fn node_store_insert_replaces() {
    let mut store = NodeStore::new();
    store.insert(1, b"AAAA".to_vec());
    store.insert(1, b"T".to_vec());
    assert_eq!(store.len(), 1);
    assert_eq!(store.get(1), Some(&b"T".to_vec()));
}

#[test]
fn load_nodes_fills_the_store() {
    let store = load_nodes(&lines(&["1\tAAAA\n", "2\tCCCC\n", "3\tGGGG\n"])).unwrap();
    assert_eq!(store.len(), 3);
    assert_eq!(store.get(1), Some(&b"AAAA".to_vec()));
    assert_eq!(store.get(2), Some(&b"CCCC".to_vec()));
    assert_eq!(store.get(3), Some(&b"GGGG".to_vec()));
    assert_eq!(store.get(4), None);
}

#[test]
fn load_nodes_of_no_lines_is_empty() {
    let store = load_nodes(&Vec::new()).unwrap();
    assert_eq!(store.len(), 0);
}

#[test]
fn load_nodes_later_line_wins() {
    let store = load_nodes(&lines(&["1\tAAAA", "1\tTT"])).unwrap();
    assert_eq!(store.len(), 1);
    assert_eq!(store.get(1), Some(&b"TT".to_vec()));
}

#[test]
fn load_nodes_fails_at_the_first_bad_line() {
    let r = load_nodes(&lines(&["1\tAAAA", "2 CCCC", "x\tGGGG"]));
    assert!(matches!(r, Err(Error::Parse { line: 1, fault: ParseError::MissingTab })));
    let r = load_nodes(&lines(&["1\tAAAA", "two\tCCCC", "3 GGGG"]));
    assert!(matches!(r, Err(Error::Parse { line: 1, fault: ParseError::BadNodeId })));
}

#[test]
fn load_nodes_refuses_an_empty_line() {
    let r = load_nodes(&lines(&["1\tAAAA", "", "3\tGGGG"]));
    assert!(matches!(r, Err(Error::Parse { line: 1, fault: ParseError::MissingTab })));
}
