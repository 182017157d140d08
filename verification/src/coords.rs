//! The coordinate projector: from positions of a path to genomic coordinates.
//!
//! The cursor stands at 1 before the first node. Each node moves it on by the
//! length of its sequence less the bases that it shares with its neighbour,
//! which are `k - 1` for a graph built from k-mers and none where `k` is 0.

use crate::nodes::NodeStore;
use vstd::prelude::*;

verus! {

/// Why no coordinates were given.
#[derive(Clone, Copy, Debug, PartialEq, Eq, Structural)]
pub enum CoordError {
    /// The end position lies behind the last node of the path.
    IndexNotReached,
    /// The store does not hold this node, which the path runs through at or
    /// before the end position.
    MissingNode { id: usize },
}

/// The number of bases that two neighbours share.
pub open spec fn overlap(k: int) -> int {
    if k > 0 {
        k - 1
    } else {
        0
    }
}

/// How far a node with a sequence of `len` bases moves the cursor: a node no
/// longer than the overlap does not move it.
pub open spec fn advance(len: int, k: int) -> int {
    if len > overlap(k) {
        len - overlap(k)
    } else {
        0
    }
}

/// The genomic position at which the node at position `i` of `path` starts.
pub open spec fn cursor(path: Seq<usize>, store: Map<usize, Seq<u8>>, k: int, i: int) -> int
    decreases i,
{
    if i <= 0 {
        1
    } else {
        cursor(path, store, k, i - 1) + advance(store[path[i - 1]].len() as int, k)
    }
}

/// Whether the store holds each of the first `n` nodes of `path`.
pub open spec fn all_known(path: Seq<usize>, store: Map<usize, Seq<u8>>, n: int) -> bool {
    forall|j: int| 0 <= j < n ==> store.contains_key(#[trigger] path[j])
}

/// The coordinates of the positions `from` to `to` of `path`: where the node
/// at `from` starts, and where the node at `to` ends. A `from` behind `to` is
/// never reached, and the start is then 0.
pub open spec fn location(
    path: Seq<usize>,
    store: Map<usize, Seq<u8>>,
    k: int,
    from: int,
    to: int,
) -> (int, int) {
    (
        if from <= to {
            cursor(path, store, k, from)
        } else {
            0
        },
        cursor(path, store, k, to) + store[path[to]].len() - 1,
    )
}

/// The cursor stays within what `i` sequences can hold, so that with a path
/// and sequences that fit the machine it fits 128 bits with room for one
/// sequence more.
proof fn lemma_cursor_bound(path: Seq<usize>, store: Map<usize, Seq<u8>>, k: int, i: int, max: int)
    requires
        0 <= i,
        0 <= max,
        forall|j: int| 0 <= j < i ==> store[#[trigger] path[j]].len() <= max,
    ensures
        1 <= cursor(path, store, k, i) <= 1 + i * max,
        i < max <= 0xffff_ffff_ffff_ffff ==> cursor(path, store, k, i) + max <= u128::MAX,
    decreases i,
{
    if i > 0 {
        lemma_cursor_bound(path, store, k, i - 1, max);
        assert(1 + (i - 1) * max + max == 1 + i * max) by (nonlinear_arith);
    }
    if i < max && max <= 0xffff_ffff_ffff_ffff {
        assert(i * max + max <= 0xffff_ffff_ffff_ffff * 0xffff_ffff_ffff_ffff) by (nonlinear_arith)
            requires
                0 <= i < max <= 0xffff_ffff_ffff_ffff,
        ;
    }
}

/// The cursor never moves back.
pub proof fn lemma_cursor_monotone(
    path: Seq<usize>,
    store: Map<usize, Seq<u8>>,
    k: int,
    a: int,
    b: int,
)
    requires
        0 <= a <= b,
    ensures
        cursor(path, store, k, a) <= cursor(path, store, k, b),
    decreases b - a,
{
    if a < b {
        lemma_cursor_monotone(path, store, k, a, b - 1);
    }
}

/// Where one sequence between two positions is longer than the overlap, the
/// later position starts at a greater coordinate.
pub proof fn lemma_cursor_increases(
    path: Seq<usize>,
    store: Map<usize, Seq<u8>>,
    k: int,
    a: int,
    b: int,
)
    requires
        0 <= a < b,
        exists|j: int| a <= j < b && store[#[trigger] path[j]].len() > overlap(k),
    ensures
        cursor(path, store, k, a) < cursor(path, store, k, b),
{
    let j = choose|j: int| a <= j < b && store[#[trigger] path[j]].len() > overlap(k);
    lemma_cursor_monotone(path, store, k, a, j);
    lemma_cursor_monotone(path, store, k, j + 1, b);
}

/// For one `k` and one end position, a later start position at or before the
/// end has a greater start coordinate, where one sequence between the two
/// start positions is longer than the overlap.
pub proof fn lemma_start_increases(
    path: Seq<usize>,
    store: Map<usize, Seq<u8>>,
    k: int,
    a1: int,
    a2: int,
    to: int,
)
    requires
        0 <= a1 < a2 <= to,
        exists|j: int| a1 <= j < a2 && store[#[trigger] path[j]].len() > overlap(k),
    ensures
        location(path, store, k, a1, to).0 < location(path, store, k, a2, to).0,
{
    lemma_cursor_increases(path, store, k, a1, a2);
}

/// With `k` at most 1, where neighbours share no base, the start coordinate
/// grows strictly with the start position as soon as no sequence is empty.
pub proof fn lemma_start_increases_without_overlap(
    path: Seq<usize>,
    store: Map<usize, Seq<u8>>,
    k: int,
    a1: int,
    a2: int,
    to: int,
)
    requires
        k <= 1,
        0 <= a1 < a2 <= to,
        forall|j: int| a1 <= j < a2 ==> store[#[trigger] path[j]].len() > 0,
    ensures
        location(path, store, k, a1, to).0 < location(path, store, k, a2, to).0,
{
    lemma_start_increases(path, store, k, a1, a2, to);
}

/// The genomic coordinates, counted from 1, of the stretch of `node_path`
/// from the node at `from_idx` to the node at `to_idx`: the position at which
/// the first starts and the position at which the last ends.
pub fn calc_location(
    node_path: &Vec<usize>,
    from_idx: usize,
    to_idx: usize,
    sequences: &NodeStore,
    k: usize,
) -> (r: Result<(u128, u128), CoordError>)
    ensures
        match r {
            Ok((start, stop)) => {
                &&& to_idx < node_path@.len()
                &&& all_known(node_path@, sequences@, to_idx + 1)
                &&& (start as int, stop as int) == location(
                    node_path@,
                    sequences@,
                    k as int,
                    from_idx as int,
                    to_idx as int,
                )
            },
            Err(CoordError::IndexNotReached) => to_idx >= node_path@.len(),
            Err(CoordError::MissingNode { id }) => exists|j: int|
                {
                    &&& 0 <= j <= to_idx < node_path@.len()
                    &&& all_known(node_path@, sequences@, j)
                    &&& !sequences@.contains_key(#[trigger] node_path@[j])
                    &&& id == node_path@[j]
                },
        },
{
    if to_idx >= node_path.len() {
        return Err(CoordError::IndexNotReached);
    }
    let shared: usize = if k > 0 {
        k - 1
    } else {
        0
    };
    let ghost max = usize::MAX as int;
    let mut position: u128 = 1;
    let mut start: u128 = 0;
    let mut i: usize = 0;
    while i < to_idx
        invariant
            i <= to_idx < node_path@.len(),
            shared == overlap(k as int),
            max == usize::MAX,
            all_known(node_path@, sequences@, i as int),
            forall|j: int| 0 <= j < i ==> sequences@[#[trigger] node_path@[j]].len() <= max,
            position == cursor(node_path@, sequences@, k as int, i as int),
            start == if from_idx < i {
                cursor(node_path@, sequences@, k as int, from_idx as int)
            } else {
                0
            },
        decreases to_idx - i,
    {
        let id = node_path[i];
        let len = match sequences.get(id) {
            Some(sequence) => sequence.len(),
            None => {
                return Err(CoordError::MissingNode { id });
            },
        };
        if i == from_idx {
            start = position;
        }
        proof {
            lemma_cursor_bound(node_path@, sequences@, k as int, i as int, max);
        }
        if len > shared {
            position = position + (len - shared) as u128;
        }
        i += 1;
    }
    let id = node_path[to_idx];
    let len = match sequences.get(id) {
        Some(sequence) => sequence.len(),
        None => {
            return Err(CoordError::MissingNode { id });
        },
    };
    if from_idx == to_idx {
        start = position;
    }
    proof {
        lemma_cursor_bound(node_path@, sequences@, k as int, to_idx as int, max);
    }
    Ok((start, position + len as u128 - 1))
}

} // verus!
