//! The chain matcher: one greedy pass from left to right over a path, which
//! finds the windows that share enough distinct nodes with the target window.

use crate::target::TargetWindow;
use std::collections::HashSet;
use vstd::prelude::*;

verus! {

broadcast use vstd::std_specs::hash::group_hash_axioms;

/// A half-open range `[left, right)` of positions of a path, widened by the
/// context, with the number of distinct target nodes that it was accepted for.
#[derive(Clone, Copy, Debug, PartialEq, Eq, Structural)]
pub struct ChainWindow {
    pub left: usize,
    pub right: usize,
    pub shared: usize,
}

/// The end of the trial window that starts at `i`: as long as the target
/// window, cut at the end of the path.
pub open spec fn trial_end(path_len: int, target_len: int, i: int) -> int {
    if i + target_len <= path_len {
        i + target_len
    } else {
        path_len
    }
}

/// The distinct node ids at the positions `[i, r)` of `path` that are in `nodes`.
pub open spec fn shared_nodes(path: Seq<usize>, nodes: Set<usize>, i: int, r: int) -> Set<usize> {
    path.subrange(i, r).to_set().intersect(nodes)
}

/// The match mask of `path`: for each position, whether its node id is in `nodes`.
pub open spec fn mask_of(path: Seq<usize>, nodes: Set<usize>) -> Seq<bool> {
    Seq::new(path.len(), |p: int| nodes.contains(path[p]))
}

/// The number of set entries of `mask` in `[i, r)`.
pub open spec fn marked_count(mask: Seq<bool>, i: int, r: int) -> nat
    decreases r - i,
{
    if r <= i {
        0
    } else {
        marked_count(mask, i, r - 1) + if mask[r - 1] {
            1nat
        } else {
            0nat
        }
    }
}

/// Whether a window is accepted at position `i`: the node there is a target
/// node, and the trial window holds at least `min_shared` distinct target nodes.
pub open spec fn accepts(
    path: Seq<usize>,
    nodes: Set<usize>,
    target_len: int,
    min_shared: int,
    i: int,
) -> bool {
    &&& 0 <= i < path.len()
    &&& nodes.contains(path[i])
    &&& shared_nodes(path, nodes, i, trial_end(path.len() as int, target_len, i)).len()
        >= min_shared
}

/// The window emitted for an acceptance at `i`: the trial window widened by
/// `context` positions on both sides and cut at the ends of the path.
pub open spec fn window_at(
    path: Seq<usize>,
    nodes: Set<usize>,
    target_len: int,
    context: int,
    i: int,
) -> ChainWindow {
    let len = path.len() as int;
    ChainWindow {
        left: (if i >= context {
            i - context
        } else {
            0
        }) as usize,
        right: (if i + target_len + context <= len {
            i + target_len + context
        } else {
            len
        }) as usize,
        shared: shared_nodes(path, nodes, i, trial_end(len, target_len, i)).len() as usize,
    }
}

/// The windows found from position `i` on. The earliest acceptance wins, and
/// the scan goes on at the end of its trial window, before the widening, so
/// that no accepted trial window overlaps another. Behind a position that is
/// not accepted it goes on at the next one. A target without positions has no
/// window.
pub open spec fn scan(
    path: Seq<usize>,
    nodes: Set<usize>,
    target_len: int,
    min_shared: int,
    context: int,
    i: int,
) -> Seq<ChainWindow>
    decreases path.len() - i,
{
    if i < 0 || i >= path.len() {
        Seq::empty()
    } else if accepts(path, nodes, target_len, min_shared, i) && target_len > 0 {
        seq![window_at(path, nodes, target_len, context, i)] + scan(
            path,
            nodes,
            target_len,
            min_shared,
            context,
            trial_end(path.len() as int, target_len, i),
        )
    } else {
        scan(path, nodes, target_len, min_shared, context, i + 1)
    }
}

/// The windows of a whole path.
pub open spec fn chains(
    path: Seq<usize>,
    target: Seq<usize>,
    min_shared: int,
    context: int,
) -> Seq<ChainWindow> {
    scan(path, target.to_set(), target.len() as int, min_shared, context, 0)
}

/// Taking one more position into the range adds its node id to the shared
/// nodes where it is a target node, and nothing else.
proof fn lemma_shared_step(path: Seq<usize>, nodes: Set<usize>, i: int, r: int)
    requires
        0 <= i <= r < path.len(),
    ensures
        shared_nodes(path, nodes, i, r + 1) == if nodes.contains(path[r]) {
            shared_nodes(path, nodes, i, r).insert(path[r])
        } else {
            shared_nodes(path, nodes, i, r)
        },
{
    assert(path.subrange(i, r + 1) == path.subrange(i, r).push(path[r]));
    path.subrange(i, r).lemma_push_to_set_commute(path[r]);
}

/// The number of distinct shared nodes of a range is at most the number of
/// target nodes, at most the length of the range, and at most the number of
/// its positions that hold a target node.
pub proof fn lemma_shared_bounded(path: Seq<usize>, nodes: Set<usize>, i: int, r: int)
    requires
        nodes.finite(),
        0 <= i <= r <= path.len(),
    ensures
        shared_nodes(path, nodes, i, r).finite(),
        shared_nodes(path, nodes, i, r).len() <= nodes.len(),
        shared_nodes(path, nodes, i, r).len() <= marked_count(mask_of(path, nodes), i, r) <= r - i,
    decreases r - i,
{
    let s = shared_nodes(path, nodes, i, r);
    vstd::set_lib::lemma_len_intersect::<usize>(nodes, path.subrange(i, r).to_set());
    assert(s =~= nodes.intersect(path.subrange(i, r).to_set()));
    if r == i {
        assert(s =~= Set::<usize>::empty());
    } else {
        lemma_shared_bounded(path, nodes, i, r - 1);
        lemma_shared_step(path, nodes, i, r - 1);
    }
}

/// The match mask of `path` against the nodes of `target`.
pub fn match_mask(path: &Vec<usize>, target: &TargetWindow) -> (mask: Vec<bool>)
    ensures
        mask@ == mask_of(path@, target.nodes()),
{
    let mut mask: Vec<bool> = Vec::new();
    let mut p: usize = 0;
    while p < path.len()
        invariant
            p <= path.len(),
            mask@.len() == p,
            forall|q: int| 0 <= q < p ==> mask@[q] == target.nodes().contains(path@[q]),
        decreases path.len() - p,
    {
        mask.push(target.contains(path[p]));
        p += 1;
    }
    mask
}

/// The number of set entries of `mask` in `[i, r)`.
pub fn count_marked(mask: &Vec<bool>, i: usize, r: usize) -> (n: usize)
    requires
        i <= r <= mask@.len(),
    ensures
        n == marked_count(mask@, i as int, r as int),
{
    let mut n: usize = 0;
    let mut p: usize = i;
    while p < r
        invariant
            i <= p <= r <= mask@.len(),
            n == marked_count(mask@, i as int, p as int),
            n <= p - i,
        decreases r - p,
    {
        if mask[p] {
            n += 1;
        }
        p += 1;
    }
    n
}

/// The number of distinct node ids at the positions `[i, r)` of `path` that
/// are target nodes. A node that stands there more than once counts once.
pub fn shared_count(path: &Vec<usize>, target: &TargetWindow, i: usize, r: usize) -> (n: usize)
    requires
        i <= r <= path@.len(),
    ensures
        n == shared_nodes(path@, target.nodes(), i as int, r as int).len(),
        n <= target.nodes().len(),
        n <= r - i,
{
    let mut seen: HashSet<usize> = HashSet::new();
    let mut n: usize = 0;
    let mut p: usize = i;
    while p < r
        invariant
            i <= p <= r <= path@.len(),
            target.nodes().finite(),
            seen@ == shared_nodes(path@, target.nodes(), i as int, p as int),
            n == seen@.len(),
            n <= p - i,
        decreases r - p,
    {
        proof {
            lemma_shared_step(path@, target.nodes(), i as int, p as int);
        }
        let id = path[p];
        if target.contains(id) {
            if seen.insert(id) {
                n += 1;
            }
        }
        p += 1;
    }
    proof {
        lemma_shared_bounded(path@, target.nodes(), i as int, r as int);
    }
    n
}

/// What holds of every window that a scan emits: it lies within the path, its
/// left end is before its right end, and its shared nodes are at least the
/// threshold and at most the target nodes.
pub open spec fn sound_window(w: ChainWindow, path_len: int, node_count: int, min_shared: int) -> bool {
    &&& w.left < w.right <= path_len
    &&& min_shared <= w.shared <= node_count
}

/// Every window of a scan is sound.
pub proof fn lemma_scan_sound(
    path: Seq<usize>,
    nodes: Set<usize>,
    target_len: int,
    min_shared: int,
    context: int,
    i: int,
)
    requires
        nodes.finite(),
        path.len() <= usize::MAX,
        0 <= target_len,
        0 <= context,
        0 <= i,
    ensures
        forall|k: int|
            0 <= k < scan(path, nodes, target_len, min_shared, context, i).len() ==> sound_window(
                #[trigger] scan(path, nodes, target_len, min_shared, context, i)[k],
                path.len() as int,
                nodes.len() as int,
                min_shared,
            ),
    decreases path.len() - i,
{
    let all = scan(path, nodes, target_len, min_shared, context, i);
    if i >= path.len() {
        assert(all.len() == 0);
    } else if accepts(path, nodes, target_len, min_shared, i) && target_len > 0 {
        let r = trial_end(path.len() as int, target_len, i);
        lemma_scan_sound(path, nodes, target_len, min_shared, context, r);
        lemma_shared_bounded(path, nodes, i, r);
        let rest = scan(path, nodes, target_len, min_shared, context, r);
        let w = window_at(path, nodes, target_len, context, i);
        assert(all == seq![w] + rest);
        assert(w.shared == shared_nodes(path, nodes, i, r).len());
        assert(sound_window(w, path.len() as int, nodes.len() as int, min_shared));
        assert forall|k: int| 0 <= k < all.len() implies sound_window(
            #[trigger] all[k],
            path.len() as int,
            nodes.len() as int,
            min_shared,
        ) by {
            if k > 0 {
                assert(all[k] == rest[k - 1]);
            } else {
                assert(all[k] == w);
            }
        }
    } else {
        lemma_scan_sound(path, nodes, target_len, min_shared, context, i + 1);
        assert(all == scan(path, nodes, target_len, min_shared, context, i + 1));
    }
}

/// A path that runs through no target node from position `i` on has no
/// window from there on.
pub proof fn lemma_unmarked_scan_is_empty(
    path: Seq<usize>,
    nodes: Set<usize>,
    target_len: int,
    min_shared: int,
    context: int,
    i: int,
)
    requires
        0 <= i,
        forall|p: int| i <= p < path.len() ==> !nodes.contains(#[trigger] path[p]),
    ensures
        scan(path, nodes, target_len, min_shared, context, i) == Seq::<ChainWindow>::empty(),
    decreases path.len() - i,
{
    if i < path.len() {
        lemma_unmarked_scan_is_empty(path, nodes, target_len, min_shared, context, i + 1);
    }
}

/// Whether the window `w` starts at `left` or behind it and ends at `right`
/// or behind it.
pub open spec fn at_or_behind(w: ChainWindow, left: int, right: int) -> bool {
    w.left >= left && w.right >= right
}

/// No window of a scan from `i` on starts before the widened start of a
/// window at `i`, and none ends before its widened end.
proof fn lemma_scan_from(
    path: Seq<usize>,
    nodes: Set<usize>,
    target_len: int,
    min_shared: int,
    context: int,
    i: int,
)
    requires
        path.len() <= usize::MAX,
        0 <= target_len,
        0 <= context,
        0 <= i,
    ensures
        forall|k: int|
            0 <= k < scan(path, nodes, target_len, min_shared, context, i).len() ==> at_or_behind(
                #[trigger] scan(path, nodes, target_len, min_shared, context, i)[k],
                i - context,
                trial_end(path.len() as int, target_len + context, i),
            ),
    decreases path.len() - i,
{
    let all = scan(path, nodes, target_len, min_shared, context, i);
    if i >= path.len() {
        assert(all.len() == 0);
    } else if accepts(path, nodes, target_len, min_shared, i) && target_len > 0 {
        let r = trial_end(path.len() as int, target_len, i);
        lemma_scan_from(path, nodes, target_len, min_shared, context, r);
        let rest = scan(path, nodes, target_len, min_shared, context, r);
        let w = window_at(path, nodes, target_len, context, i);
        assert(all == seq![w] + rest);
        assert forall|k: int| 0 <= k < all.len() implies at_or_behind(
            #[trigger] all[k],
            i - context,
            trial_end(path.len() as int, target_len + context, i),
        ) by {
            if k > 0 {
                assert(all[k] == rest[k - 1]);
            } else {
                assert(all[k] == w);
            }
        }
    } else {
        lemma_scan_from(path, nodes, target_len, min_shared, context, i + 1);
        assert(all == scan(path, nodes, target_len, min_shared, context, i + 1));
    }
}

/// The windows of a scan come in path order: a later window starts no
/// earlier and ends no earlier than one before it.
pub proof fn lemma_scan_ordered(
    path: Seq<usize>,
    nodes: Set<usize>,
    target_len: int,
    min_shared: int,
    context: int,
    i: int,
)
    requires
        path.len() <= usize::MAX,
        0 <= target_len,
        0 <= context,
        0 <= i,
    ensures
        forall|j: int, k: int|
            0 <= j <= k < scan(path, nodes, target_len, min_shared, context, i).len()
                ==> at_or_behind(
                #[trigger] scan(path, nodes, target_len, min_shared, context, i)[k],
                (#[trigger] scan(path, nodes, target_len, min_shared, context, i)[j]).left as int,
                scan(path, nodes, target_len, min_shared, context, i)[j].right as int,
            ),
    decreases path.len() - i,
{
    let all = scan(path, nodes, target_len, min_shared, context, i);
    if i >= path.len() {
        assert(all.len() == 0);
    } else if accepts(path, nodes, target_len, min_shared, i) && target_len > 0 {
        let r = trial_end(path.len() as int, target_len, i);
        lemma_scan_ordered(path, nodes, target_len, min_shared, context, r);
        lemma_scan_from(path, nodes, target_len, min_shared, context, r);
        let rest = scan(path, nodes, target_len, min_shared, context, r);
        let w = window_at(path, nodes, target_len, context, i);
        assert(all == seq![w] + rest);
        assert forall|j: int, k: int| 0 <= j <= k < all.len() implies at_or_behind(
            #[trigger] all[k],
            (#[trigger] all[j]).left as int,
            all[j].right as int,
        ) by {
            if j > 0 {
                assert(all[j] == rest[j - 1]);
                assert(all[k] == rest[k - 1]);
            } else if k > 0 {
                assert(all[j] == w);
                assert(all[k] == rest[k - 1]);
            }
        }
    } else {
        lemma_scan_ordered(path, nodes, target_len, min_shared, context, i + 1);
        assert(all == scan(path, nodes, target_len, min_shared, context, i + 1));
    }
}

/// The windows of `path` against `target`: at each position that holds a
/// target node, a trial window as long as the target is tested, first by its
/// mask entries and then by its distinct shared nodes, and accepted where both
/// reach `min_shared`. An accepted window is widened by `context` positions on
/// both sides, and the scan goes on behind the trial window.
pub fn find_chains(path: &Vec<usize>, target: &TargetWindow, min_shared: usize, context: usize) -> (windows:
    Vec<ChainWindow>)
    ensures
        windows@ == chains(path@, target@, min_shared as int, context as int),
        forall|k: int|
            0 <= k < windows@.len() ==> sound_window(
                #[trigger] windows@[k],
                path@.len() as int,
                target.nodes().len() as int,
                min_shared as int,
            ),
{
    let mask = match_mask(path, target);
    let len = path.len();
    let target_len = target.len();
    let mut windows: Vec<ChainWindow> = Vec::new();
    let mut i: usize = 0;
    let ghost nodes = target.nodes();
    let ghost whole = chains(path@, target@, min_shared as int, context as int);
    while i < len
        invariant
            i <= len == path@.len(),
            target_len == target@.len(),
            nodes == target.nodes(),
            nodes.finite(),
            mask@ == mask_of(path@, nodes),
            whole == chains(path@, target@, min_shared as int, context as int),
            windows@ + scan(
                path@,
                nodes,
                target_len as int,
                min_shared as int,
                context as int,
                i as int,
            ) == whole,
        decreases len - i,
    {
        let ghost rest = scan(
            path@,
            nodes,
            target_len as int,
            min_shared as int,
            context as int,
            i as int,
        );
        let mut next: usize = i + 1;
        if mask[i] {
            // a target node stands at `i`, so the target is not empty and `r` lies behind `i`
            let r: usize = if target_len >= len - i {
                len
            } else {
                i + target_len
            };
            proof {
                lemma_shared_bounded(path@, nodes, i as int, r as int);
            }
            if count_marked(&mask, i, r) >= min_shared {
                let shared = shared_count(path, target, i, r);
                if shared >= min_shared {
                    let left: usize = if i >= context {
                        i - context
                    } else {
                        0
                    };
                    let right: usize = if context >= len - r {
                        len
                    } else if target_len >= len - i {
                        len
                    } else {
                        i + target_len + context
                    };
                    let w = ChainWindow { left, right, shared };
                    windows.push(w);
                    next = r;
                }
            }
        }
        i = next;
    }
    proof {
        lemma_scan_sound(path@, nodes, target_len as int, min_shared as int, context as int, 0);
    }
    windows
}

} // verus!
