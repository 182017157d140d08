use graphtie::matcher::{count_marked, find_chains, match_mask, shared_count, ChainWindow};
use graphtie::target::TargetWindow;

fn window(left: usize, right: usize, shared: usize) -> ChainWindow {
    ChainWindow { left, right, shared }
}

#[test]
fn match_mask_marks_target_nodes() {
    let t = TargetWindow::new(&[1, 2, 3]);
    assert_eq!(match_mask(&vec![1, 5, 3, 3, 9], &t), vec![true, false, true, true, false]);
    assert_eq!(match_mask(&Vec::new(), &t), Vec::<bool>::new());
}

#[test]
fn count_marked_counts_positions() {
    let mask = vec![true, false, true, true, false];
    assert_eq!(count_marked(&mask, 0, 5), 3);
    assert_eq!(count_marked(&mask, 1, 3), 1);
    assert_eq!(count_marked(&mask, 2, 4), 2);
    assert_eq!(count_marked(&mask, 4, 5), 0);
    assert_eq!(count_marked(&mask, 3, 3), 0);
}

#[test]
fn shared_count_counts_a_repeated_node_once() {
    let t = TargetWindow::new(&[1, 2, 3]);
    let path = vec![1, 1, 1, 2, 7, 1];
    assert_eq!(shared_count(&path, &t, 0, 3), 1);
    assert_eq!(shared_count(&path, &t, 0, 4), 2);
    assert_eq!(shared_count(&path, &t, 0, 6), 2);
    assert_eq!(shared_count(&path, &t, 4, 5), 0);
    assert_eq!(shared_count(&path, &t, 2, 2), 0);
}

#[test]
fn shared_count_is_bounded_by_target_and_window() {
    let t = TargetWindow::new(&[1, 2]);
    let path = vec![1, 2, 1, 2, 1, 2, 3];
    for i in 0..path.len() {
        for r in i..=path.len() {
            let n = shared_count(&path, &t, i, r);
            assert!(n <= t.node_count());
            assert!(n <= r - i);
            assert!(n <= count_marked(&match_mask(&path, &t), i, r));
        }
    }
}

#[test]
fn find_chains_accepts_the_full_match() {
    let t = TargetWindow::new(&[1, 2, 3]);
    assert_eq!(find_chains(&vec![1, 2, 3, 4], &t, 3, 0), vec![window(0, 3, 3)]);
}

#[test]
fn find_chains_takes_the_last_node_of_the_path() {
    let t = TargetWindow::new(&[1, 2, 3]);
    assert_eq!(find_chains(&vec![1, 2, 3], &t, 3, 0), vec![window(0, 3, 3)]);
    assert_eq!(find_chains(&vec![4, 1, 2, 3], &t, 3, 0), vec![window(1, 4, 3)]);
}

#[test]
fn find_chains_without_shared_nodes_finds_nothing() {
    let t = TargetWindow::new(&[1, 2, 3]);
    assert_eq!(find_chains(&vec![9, 8], &t, 1, 2), Vec::<ChainWindow>::new());
    assert_eq!(find_chains(&vec![9, 8], &t, 0, 0), Vec::<ChainWindow>::new());
    assert_eq!(find_chains(&Vec::new(), &t, 0, 0), Vec::<ChainWindow>::new());
}

#[test]
fn find_chains_rejects_below_the_threshold() {
    let t = TargetWindow::new(&[1, 2, 3]);
    assert_eq!(find_chains(&vec![1, 5, 3], &t, 3, 0), Vec::<ChainWindow>::new());
    assert_eq!(find_chains(&vec![1, 5, 3], &t, 2, 0), vec![window(0, 3, 2)]);
}

#[test]
fn find_chains_counts_distinct_nodes_not_positions() {
    let t = TargetWindow::new(&[1, 2, 3]);
    // three marked positions in each trial window, but one or two distinct nodes
    assert_eq!(find_chains(&vec![1, 1, 1], &t, 2, 0), Vec::<ChainWindow>::new());
    assert_eq!(find_chains(&vec![1, 1, 2], &t, 3, 0), Vec::<ChainWindow>::new());
    assert_eq!(find_chains(&vec![1, 1, 2], &t, 2, 0), vec![window(0, 3, 2)]);
}

#[test]
fn find_chains_starts_at_the_earliest_position() {
    let t = TargetWindow::new(&[1, 2, 3]);
    // position 0 holds no target node; 1 is rejected; 2 is the first accepted
    assert_eq!(find_chains(&vec![7, 1, 1, 2, 3, 7], &t, 3, 0), vec![window(2, 5, 3)]);
}

#[test]
fn find_chains_goes_on_behind_the_trial_window() {
    let t = TargetWindow::new(&[1, 2]);
    assert_eq!(
        find_chains(&vec![1, 2, 1, 2, 1], &t, 1, 0),
        vec![window(0, 2, 2), window(2, 4, 2), window(4, 5, 1)]
    );
}

#[test]
fn find_chains_goes_on_behind_the_window_before_widening() {
    let t = TargetWindow::new(&[1, 2]);
    assert_eq!(
        find_chains(&vec![1, 2, 1, 2, 1], &t, 2, 1),
        vec![window(0, 3, 2), window(1, 5, 2)]
    );
}

#[test]
fn find_chains_widens_and_cuts_at_the_ends() {
    let t = TargetWindow::new(&[1, 2, 3]);
    let path = vec![7, 7, 7, 1, 2, 3, 7, 7, 7];
    assert_eq!(find_chains(&path, &t, 3, 0), vec![window(3, 6, 3)]);
    assert_eq!(find_chains(&path, &t, 3, 2), vec![window(1, 8, 3)]);
    assert_eq!(find_chains(&path, &t, 3, 3), vec![window(0, 9, 3)]);
    assert_eq!(find_chains(&path, &t, 3, 100), vec![window(0, 9, 3)]);
    assert_eq!(find_chains(&path, &t, 3, usize::MAX), vec![window(0, 9, 3)]);
}

#[test]
fn find_chains_with_threshold_zero_accepts_every_marked_start() {
    let t = TargetWindow::new(&[1, 2, 3]);
    assert_eq!(
        find_chains(&vec![7, 1, 7, 7, 7, 2], &t, 0, 0),
        vec![window(1, 4, 1), window(5, 6, 1)]
    );
}

#[test]
fn find_chains_windows_lie_within_the_path() {
    let t = TargetWindow::new(&[1, 2, 3, 4]);
    let path = vec![1, 9, 2, 3, 9, 9, 4, 1, 2, 9, 3, 4, 4, 4];
    for min_shared in 0..5 {
        for context in 0..4 {
            for w in find_chains(&path, &t, min_shared, context) {
                assert!(w.left < w.right);
                assert!(w.right <= path.len());
                assert!(w.shared >= min_shared);
                assert!(w.shared <= t.node_count());
            }
        }
    }
}
