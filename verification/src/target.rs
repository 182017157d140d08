//! The target window: the run of node ids that other paths are compared with.

use crate::error::{Error, ParseError};
use crate::path::{all_tokens, ids_of, is_first_bad, node_ids, nodes_of, parse_nodes, path_tokens};
use crate::text::{bytes_eq, has_fields, head, lines_of, split_fields, split_line, SPACE};
use std::collections::HashSet;
use vstd::prelude::*;

verus! {

broadcast use vstd::std_specs::hash::group_hash_axioms;

/// A run of node ids of the target path, held both in path order and as a set.
pub struct TargetWindow {
    path: Vec<usize>,
    set: HashSet<usize>,
}

impl View for TargetWindow {
    type V = Seq<usize>;

    /// The node ids in path order.
    closed spec fn view(&self) -> Seq<usize> {
        self.path@
    }
}

impl TargetWindow {
    /// The set holds exactly the ids of the path.
    #[verifier::type_invariant]
    spec fn consistent(&self) -> bool {
        self.set@ == self.path@.to_set()
    }

    /// The distinct node ids of the window.
    pub open spec fn nodes(&self) -> Set<usize> {
        self@.to_set()
    }

    /// Builds the window over the node ids `path`.
    pub fn new(path: &[usize]) -> (t: TargetWindow)
        ensures
            t@ == path@,
    {
        let mut own: Vec<usize> = Vec::new();
        let mut set: HashSet<usize> = HashSet::new();
        let mut i: usize = 0;
        while i < path.len()
            invariant
                i <= path@.len(),
                own@ == path@.take(i as int),
                set@ == own@.to_set(),
            decreases path.len() - i,
        {
            proof {
                own@.lemma_push_to_set_commute(path@[i as int]);
            }
            own.push(path[i]);
            set.insert(path[i]);
            i += 1;
        }
        TargetWindow { path: own, set }
    }

    /// The number of positions of the window.
    pub fn len(&self) -> (n: usize)
        ensures
            n == self@.len(),
    {
        self.path.len()
    }

    /// The number of distinct node ids of the window.
    pub fn node_count(&self) -> (n: usize)
        ensures
            n == self.nodes().len(),
    {
        proof {
            use_type_invariant(self);
        }
        self.set.len()
    }

    /// Whether `id` is one of the node ids of the window.
    pub fn contains(&self, id: usize) -> (b: bool)
        ensures
            b == self.nodes().contains(id),
    {
        proof {
            use_type_invariant(self);
        }
        self.set.contains(&id)
    }

    /// The node ids in path order.
    pub fn path(&self) -> (p: &Vec<usize>)
        ensures
            p@ == self@,
    {
        &self.path
    }
}

/// Whether the range `[start, stop)` is a window of a path of `count` node
/// references: not empty, and within the path.
pub open spec fn valid_range(start: usize, stop: usize, count: int) -> bool {
    start < stop <= count
}

/// Whether the search for the target goes past `line`: it has its two
/// fields, and its identifier is another one.
pub open spec fn passes(line: Seq<u8>, target_id: Seq<u8>) -> bool {
    has_fields(line) && head(line) != target_id
}

/// Whether `r` is what the line at place `line_no` gives to the search for
/// the path `target_id` and its window `[start, stop)`: nothing where the
/// line is another path, the node ids of the window where it is the target,
/// and an error where the line has no tab, the range is no window of the
/// path, or a node reference inside the range is malformed.
pub open spec fn target_line_result(
    line: Seq<u8>,
    line_no: usize,
    target_id: Seq<u8>,
    start: usize,
    stop: usize,
    r: Result<Option<Seq<usize>>, Error>,
) -> bool {
    let fields = path_tokens(line);
    let found = has_fields(line) && head(line) == target_id;
    match r {
        Ok(None) => passes(line, target_id),
        Ok(Some(ids)) => {
            &&& found
            &&& valid_range(start, stop, fields.len() as int)
            &&& all_tokens(fields, start as int, stop as int)
            &&& ids == ids_of(nodes_of(fields.subrange(start as int, stop as int)))
        },
        Err(Error::Parse { line: l, fault: ParseError::MissingTab }) => {
            &&& l == line_no
            &&& !has_fields(line)
        },
        Err(Error::Parse { line: l, fault: ParseError::BadNodeRef { index } }) => {
            &&& l == line_no
            &&& found
            &&& valid_range(start, stop, fields.len() as int)
            &&& is_first_bad(fields, start as int, stop as int, index as int)
        },
        Err(Error::Range { start: s, stop: e, count }) => {
            &&& found
            &&& !valid_range(start, stop, fields.len() as int)
            &&& s == start
            &&& e == stop
            &&& count == fields.len()
        },
        Err(_) => false,
    }
}

/// The result of a search step with the node ids as a sequence.
pub open spec fn step_view(r: Result<Option<Vec<usize>>, Error>) -> Result<
    Option<Seq<usize>>,
    Error,
> {
    match r {
        Ok(Some(ids)) => Ok(Some(ids@)),
        Ok(None) => Ok(None),
        Err(e) => Err(e),
    }
}

/// One step of the search for the target: what the line at place `line_no`
/// of the graph file gives. Only the node references inside the range are
/// read.
pub fn target_in_line(
    line: &[u8],
    line_no: usize,
    target_id: &[u8],
    start: usize,
    stop: usize,
) -> (r: Result<Option<Vec<usize>>, Error>)
    ensures
        target_line_result(line@, line_no, target_id@, start, stop, step_view(r)),
{
    match split_line(line) {
        None => Err(Error::Parse { line: line_no, fault: ParseError::MissingTab }),
        Some((identifier, rest)) => {
            if !bytes_eq(identifier, target_id) {
                return Ok(None);
            }
            let spans = split_fields(rest, SPACE);
            let count = spans.len();
            if !(start < stop && stop <= count) {
                return Err(Error::Range { start, stop, count });
            }
            match parse_nodes(rest, &spans, start, stop) {
                Ok(nodes) => Ok(Some(node_ids(nodes.as_slice()))),
                Err(index) => Err(
                    Error::Parse { line: line_no, fault: ParseError::BadNodeRef { index } },
                ),
            }
        },
    }
}

/// Whether `k` is the place of the line at which the search ends: the first
/// line that it does not go past.
pub open spec fn is_first_hit(lines: Seq<Seq<u8>>, target_id: Seq<u8>, k: int) -> bool {
    &&& 0 <= k < lines.len()
    &&& !passes(lines[k], target_id)
    &&& forall|j: int| 0 <= j < k ==> passes(#[trigger] lines[j], target_id)
}

/// Finds the path `target_id` among the lines of the graph file and gives the
/// node ids of its node references `[start, stop)`, counted from 0. The first
/// line with that identifier is the target; the lines behind it are not read.
/// Fails where no line carries the identifier, where a line before the target
/// holds no tab, where the range is empty or runs past the path, and where a
/// node reference inside the range is malformed.
pub fn find_target(lines: &Vec<Vec<u8>>, target_id: &[u8], start: usize, stop: usize) -> (r: Result<
    Vec<usize>,
    Error,
>)
    ensures
        match r {
            Ok(ids) => exists|k: int|
                {
                    &&& is_first_hit(lines_of(lines@), target_id@, k)
                    &&& target_line_result(
                        #[trigger] lines_of(lines@)[k],
                        k as usize,
                        target_id@,
                        start,
                        stop,
                        Ok(Some(ids@)),
                    )
                },
            Err(Error::TargetNotFound) => forall|j: int|
                0 <= j < lines@.len() ==> passes(#[trigger] lines_of(lines@)[j], target_id@),
            Err(e) => exists|k: int|
                {
                    &&& is_first_hit(lines_of(lines@), target_id@, k)
                    &&& target_line_result(
                        #[trigger] lines_of(lines@)[k],
                        k as usize,
                        target_id@,
                        start,
                        stop,
                        Err(e),
                    )
                },
        },
{
    let ghost all = lines_of(lines@);
    let mut k: usize = 0;
    while k < lines.len()
        invariant
            k <= lines@.len(),
            all == lines_of(lines@),
            forall|j: int| 0 <= j < k ==> passes(#[trigger] all[j], target_id@),
        decreases lines.len() - k,
    {
        assert(all[k as int] == lines@[k as int]@);
        match target_in_line(lines[k].as_slice(), k, target_id, start, stop) {
            Ok(None) => {},
            Ok(Some(ids)) => {
                return Ok(ids);
            },
            Err(e) => {
                return Err(e);
            },
        }
        k += 1;
    }
    Err(Error::TargetNotFound)
}

} // verus!
