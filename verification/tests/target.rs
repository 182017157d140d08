use graphtie::error::{Error, ParseError};
use graphtie::target::{find_target, target_in_line, TargetWindow};

fn lines(text: &[&str]) -> Vec<Vec<u8>> {
    text.iter().map(|l| l.as_bytes().to_vec()).collect()
}

#[test]
fn target_window_holds_path_and_set() {
    let t = TargetWindow::new(&[1, 2, 3, 2]);
    assert_eq!(t.len(), 4);
    assert_eq!(t.node_count(), 3);
    assert_eq!(t.path(), &vec![1, 2, 3, 2]);
    assert!(t.contains(1));
    assert!(t.contains(2));
    assert!(t.contains(3));
    assert!(!t.contains(4));
}

#[test]
fn target_window_of_nothing() {
    let t = TargetWindow::new(&[]);
    assert_eq!(t.len(), 0);
    assert_eq!(t.node_count(), 0);
    assert!(!t.contains(0));
}

#[test]
fn target_in_line_passes_another_path() {
    assert_eq!(target_in_line(b"Q\t1+ 2+ 3+", 0, b"T", 0, 3), Ok(None));
    assert_eq!(target_in_line(b"TT\t1+ 2+ 3+", 0, b"T", 0, 3), Ok(None));
    assert_eq!(target_in_line(b"Q\tnot nodes", 5, b"T", 0, 3), Ok(None));
}

#[test]
fn target_in_line_takes_the_range() {
    assert_eq!(target_in_line(b"T\t1+ 2+ 3+\n", 0, b"T", 0, 3), Ok(Some(vec![1, 2, 3])));
    assert_eq!(target_in_line(b"T\t10+ 20- 30+ 40-", 0, b"T", 1, 3), Ok(Some(vec![20, 30])));
    assert_eq!(target_in_line(b"T\t10+ 20- 30+ 40-", 0, b"T", 3, 4), Ok(Some(vec![40])));
}

#[test]
fn target_in_line_reads_only_the_range() {
    assert_eq!(target_in_line(b"T\tbad 2+ 3+ worse", 0, b"T", 1, 3), Ok(Some(vec![2, 3])));
}

#[test]
fn target_in_line_refuses_a_range_past_the_path() {
    assert_eq!(
        target_in_line(b"T\t1+ 2+ 3+", 0, b"T", 0, 4),
        Err(Error::Range { start: 0, stop: 4, count: 3 })
    );
    assert_eq!(
        target_in_line(b"T\t1+ 2+ 3+", 0, b"T", 5, 9),
        Err(Error::Range { start: 5, stop: 9, count: 3 })
    );
}

#[test]
fn target_in_line_refuses_an_empty_range() {
    assert_eq!(
        target_in_line(b"T\t1+ 2+ 3+", 0, b"T", 2, 2),
        Err(Error::Range { start: 2, stop: 2, count: 3 })
    );
    assert_eq!(
        target_in_line(b"T\t1+ 2+ 3+", 0, b"T", 2, 1),
        Err(Error::Range { start: 2, stop: 1, count: 3 })
    );
}

#[test]
fn target_in_line_reports_a_bad_node_in_the_range() {
    assert_eq!(
        target_in_line(b"T\t1+ 2 3+", 7, b"T", 0, 3),
        Err(Error::Parse { line: 7, fault: ParseError::BadNodeRef { index: 1 } })
    );
}

#[test]
fn target_in_line_reports_a_missing_tab() {
    assert_eq!(
        target_in_line(b"T 1+ 2+ 3+", 4, b"T", 0, 3),
        Err(Error::Parse { line: 4, fault: ParseError::MissingTab })
    );
}

#[test]
fn find_target_finds_the_path() {
    let graph = lines(&["Q\t9+ 8+\n", "T\t1+ 2+ 3+\n", "R\t1+ 2+\n"]);
    assert_eq!(find_target(&graph, b"T", 0, 3), Ok(vec![1, 2, 3]));
    assert_eq!(find_target(&graph, b"T", 1, 2), Ok(vec![2]));
    assert_eq!(find_target(&graph, b"R", 0, 2), Ok(vec![1, 2]));
}

#[test]
fn find_target_takes_the_first_of_two() {
    let graph = lines(&["T\t1+ 2+", "T\t5+ 6+"]);
    assert_eq!(find_target(&graph, b"T", 0, 2), Ok(vec![1, 2]));
}

#[test]
fn find_target_does_not_read_behind_the_target() {
    let graph = lines(&["T\t1+ 2+", "no tab in this line"]);
    assert_eq!(find_target(&graph, b"T", 0, 2), Ok(vec![1, 2]));
}

#[test]
fn find_target_without_the_path_fails() {
    let graph = lines(&["Q\t9+ 8+", "R\t1+ 2+"]);
    assert_eq!(find_target(&graph, b"T", 0, 1), Err(Error::TargetNotFound));
    assert_eq!(find_target(&Vec::new(), b"T", 0, 1), Err(Error::TargetNotFound));
}

#[test]
fn find_target_fails_at_a_line_without_tab_before_the_target() {
    let graph = lines(&["Q\t9+ 8+", "broken", "T\t1+ 2+"]);
    assert_eq!(
        find_target(&graph, b"T", 0, 2),
        Err(Error::Parse { line: 1, fault: ParseError::MissingTab })
    );
}

#[test]
fn find_target_reports_a_bad_node_with_its_line() {
    let graph = lines(&["Q\t9+ 8+", "T\t1+ 2+ z"]);
    assert_eq!(
        find_target(&graph, b"T", 0, 3),
        Err(Error::Parse { line: 1, fault: ParseError::BadNodeRef { index: 2 } })
    );
    assert_eq!(find_target(&graph, b"T", 0, 2), Ok(vec![1, 2]));
}

#[test]
fn range_past_the_target_path_fails_and_is_not_cut() {
    let graph = lines(&["T\t1+ 2+ 3+", "Q\t1+ 2+ 3+ 4+"]);
    assert_eq!(
        find_target(&graph, b"T", 0, 4),
        Err(Error::Range { start: 0, stop: 4, count: 3 })
    );
    assert_eq!(
        find_target(&graph, b"T", 2, 7),
        Err(Error::Range { start: 2, stop: 7, count: 3 })
    );
}
