use graphtie::coords::{calc_location, CoordError};
use graphtie::nodes::NodeStore;

fn store() -> NodeStore {
    let mut s = NodeStore::new();
    s.insert(1, b"AAAA".to_vec());
    s.insert(2, b"CCCC".to_vec());
    s.insert(3, b"GGGG".to_vec());
    s.insert(4, b"TT".to_vec());
    s.insert(5, Vec::new());
    s
}

#[test]
fn calc_location_without_overlap_adds_the_lengths() {
    let s = store();
    let path = vec![1, 2, 3];
    assert_eq!(calc_location(&path, 0, 2, &s, 0), Ok((1, 12)));
    assert_eq!(calc_location(&path, 0, 0, &s, 0), Ok((1, 4)));
    assert_eq!(calc_location(&path, 1, 1, &s, 0), Ok((5, 8)));
    assert_eq!(calc_location(&path, 1, 2, &s, 0), Ok((5, 12)));
    assert_eq!(calc_location(&path, 2, 2, &s, 0), Ok((9, 12)));
}

#[test]
fn calc_location_with_k_takes_the_overlap_off() {
    let s = store();
    let path = vec![1, 2, 3];
    assert_eq!(calc_location(&path, 0, 2, &s, 3), Ok((1, 8)));
    assert_eq!(calc_location(&path, 1, 2, &s, 3), Ok((3, 8)));
    assert_eq!(calc_location(&path, 2, 2, &s, 3), Ok((5, 8)));
    assert_eq!(calc_location(&path, 0, 2, &s, 4), Ok((1, 6)));
}

#[test]
fn calc_location_with_k_one_is_as_without_overlap() {
    let s = store();
    let path = vec![1, 4, 3];
    assert_eq!(calc_location(&path, 0, 2, &s, 1), Ok((1, 10)));
    assert_eq!(calc_location(&path, 0, 2, &s, 0), Ok((1, 10)));
    assert_eq!(calc_location(&path, 2, 2, &s, 1), Ok((7, 10)));
}

#[test]
fn calc_location_node_within_the_overlap_does_not_move_the_cursor() {
    let s = store();
    // node 4 has 2 bases; with k = 4 the overlap is 3
    assert_eq!(calc_location(&vec![4, 4, 1], 2, 2, &s, 4), Ok((1, 4)));
    assert_eq!(calc_location(&vec![1, 2, 3], 2, 2, &s, 10), Ok((1, 4)));
    assert_eq!(calc_location(&vec![1, 2, 3], 2, 2, &s, usize::MAX), Ok((1, 4)));
}

#[test]
fn calc_location_of_an_empty_sequence() {
    let s = store();
    assert_eq!(calc_location(&vec![5], 0, 0, &s, 0), Ok((1, 0)));
    assert_eq!(calc_location(&vec![1, 5, 2], 1, 1, &s, 0), Ok((5, 4)));
    assert_eq!(calc_location(&vec![1, 5, 2], 2, 2, &s, 0), Ok((5, 8)));
}

#[test]
fn calc_location_start_behind_end_is_never_reached() {
    let s = store();
    assert_eq!(calc_location(&vec![1, 2, 3], 2, 1, &s, 0), Ok((0, 8)));
    assert_eq!(calc_location(&vec![1, 2, 3], 9, 0, &s, 0), Ok((0, 4)));
}

#[test]
fn calc_location_end_behind_the_path_is_not_reached() {
    let s = store();
    assert_eq!(calc_location(&vec![1, 2, 3], 0, 3, &s, 0), Err(CoordError::IndexNotReached));
    assert_eq!(calc_location(&vec![1, 2, 3], 0, usize::MAX, &s, 0), Err(CoordError::IndexNotReached));
    assert_eq!(calc_location(&Vec::new(), 0, 0, &s, 0), Err(CoordError::IndexNotReached));
}

#[test]
fn calc_location_names_the_first_missing_node() {
    let s = store();
    assert_eq!(calc_location(&vec![1, 9, 8], 0, 2, &s, 0), Err(CoordError::MissingNode { id: 9 }));
    assert_eq!(calc_location(&vec![1, 2, 8], 0, 2, &s, 0), Err(CoordError::MissingNode { id: 8 }));
    assert_eq!(calc_location(&vec![1, 9, 8], 0, 0, &s, 0), Ok((1, 4)));
}

#[test]
fn calc_location_end_behind_the_path_comes_before_a_missing_node() {
    let s = store();
    assert_eq!(calc_location(&vec![9, 9], 0, 2, &s, 0), Err(CoordError::IndexNotReached));
}

#[test]
fn calc_location_start_grows_with_the_start_position() {
    let s = store();
    let path = vec![1, 4, 2, 3, 4, 1];
    for k in [0usize, 1, 2] {
        let mut last = 0u128;
        for a in 0..path.len() {
            let (start, _) = calc_location(&path, a, path.len() - 1, &s, k).unwrap();
            assert!(start > last);
            last = start;
        }
    }
}
