//! The node store: the sequence of each node, by node id.
//!
//! A node line is a decimal node id, a tab, and the sequence.

use crate::error::{Error, ParseError};
use crate::text::{
    decimal_value, has_fields, head, is_number, lines_of, parse_number, split_line, tail, to_vec,
};
use std::collections::HashMap;
use vstd::prelude::*;

verus! {

broadcast use vstd::std_specs::hash::group_hash_axioms;

/// The sequences of the nodes that were loaded, by node id.
pub struct NodeStore {
    map: HashMap<usize, Vec<u8>>,
}

impl View for NodeStore {
    type V = Map<usize, Seq<u8>>;

    closed spec fn view(&self) -> Map<usize, Seq<u8>> {
        Map::new(|id: usize| self.map@.contains_key(id), |id: usize| self.map@[id]@)
    }
}

impl NodeStore {
    /// A store without nodes.
    pub fn new() -> (s: NodeStore)
        ensures
            s@ == Map::<usize, Seq<u8>>::empty(),
    {
        let s = NodeStore { map: HashMap::new() };
        s
    }

    /// Gives node `id` the sequence `sequence`, in place of the one it had.
    pub fn insert(&mut self, id: usize, sequence: Vec<u8>)
        ensures
            final(self)@ == old(self)@.insert(id, sequence@),
    {
        self.map.insert(id, sequence);
    }

    /// The sequence of node `id`, where the store holds the node.
    pub fn get(&self, id: usize) -> (r: Option<&Vec<u8>>)
        ensures
            r is Some <==> self@.contains_key(id),
            r is Some ==> r.unwrap()@ == self@[id],
    {
        self.map.get(&id)
    }

    /// The number of nodes of the store.
    pub fn len(&self) -> (n: usize)
        ensures
            n == self@.dom().len(),
    {
        assert(self@.dom() =~= self.map@.dom());
        self.map.len()
    }
}

/// Whether `line` is a well-formed node line.
pub open spec fn is_node_line(line: Seq<u8>) -> bool {
    has_fields(line) && is_number(head(line))
}

/// What is wrong with a line that is no node line.
pub open spec fn node_line_fault(line: Seq<u8>) -> ParseError {
    if has_fields(line) {
        ParseError::BadNodeId
    } else {
        ParseError::MissingTab
    }
}

/// The node id that a node line gives.
pub open spec fn line_node_id(line: Seq<u8>) -> usize {
    decimal_value(head(line)) as usize
}

/// Reads a node line: the node id and the sequence. The white space around
/// the line does not count.
pub fn parse_node_line(line: &[u8]) -> (r: Result<(usize, Vec<u8>), ParseError>)
    ensures
        match r {
            Ok((id, sequence)) => {
                &&& is_node_line(line@)
                &&& id == line_node_id(line@)
                &&& sequence@ == tail(line@)
            },
            Err(fault) => !is_node_line(line@) && fault == node_line_fault(line@),
        },
{
    match split_line(line) {
        None => Err(ParseError::MissingTab),
        Some((id_field, sequence)) => match parse_number(id_field) {
            None => Err(ParseError::BadNodeId),
            Some(id) => Ok((id, to_vec(sequence))),
        },
    }
}

/// The store that the node lines fill, a later line for a node id replacing
/// an earlier one.
pub open spec fn store_of(lines: Seq<Seq<u8>>) -> Map<usize, Seq<u8>>
    decreases lines.len(),
{
    if lines.len() == 0 {
        Map::empty()
    } else {
        store_of(lines.drop_last()).insert(line_node_id(lines.last()), tail(lines.last()))
    }
}

/// Whether `k` is the place of the first line that is no node line.
pub open spec fn is_first_bad_node_line(lines: Seq<Seq<u8>>, k: int) -> bool {
    &&& 0 <= k < lines.len()
    &&& !is_node_line(lines[k])
    &&& forall|j: int| 0 <= j < k ==> is_node_line(#[trigger] lines[j])
}

/// Loads the node store from the lines of the node file. Fails at the first
/// line that is no node line.
pub fn load_nodes(lines: &Vec<Vec<u8>>) -> (r: Result<NodeStore, Error>)
    ensures
        match r {
            Ok(store) => {
                &&& forall|k: int| 0 <= k < lines@.len() ==> is_node_line(#[trigger] lines@[k]@)
                &&& store@ == store_of(lines_of(lines@))
            },
            Err(Error::Parse { line, fault }) => {
                &&& is_first_bad_node_line(lines_of(lines@), line as int)
                &&& fault == node_line_fault(lines@[line as int]@)
            },
            Err(_) => false,
        },
{
    let mut store = NodeStore::new();
    let mut k: usize = 0;
    let ghost all = lines_of(lines@);
    while k < lines.len()
        invariant
            k <= lines@.len(),
            all == lines_of(lines@),
            forall|j: int| 0 <= j < k ==> is_node_line(#[trigger] lines@[j]@),
            store@ == store_of(all.take(k as int)),
        decreases lines.len() - k,
    {
        match parse_node_line(lines[k].as_slice()) {
            Ok((id, sequence)) => {
                proof {
                    assert(all.take(k as int + 1).drop_last() == all.take(k as int));
                }
                store.insert(id, sequence);
            },
            Err(fault) => {
                return Err(Error::Parse { line: k, fault });
            },
        }
        k += 1;
    }
    assert(all.take(k as int) == all);
    Ok(store)
}

} // verus!
