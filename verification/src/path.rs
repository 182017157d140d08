//! Oriented node references and path lines.
//!
//! A path line is an identifier, a tab, and oriented node references with
//! single spaces between them. An oriented node reference is a decimal node id
//! followed at once by `+` or `-`.

use crate::error::ParseError;
use crate::text::{
    decimal_value, has_fields, head, is_number, parse_number, spans_of, split, split_fields,
    split_line, tail, to_vec, SPACE,
};
use vstd::prelude::*;

verus! {

/// The byte that marks a node read forward.
pub const PLUS: u8 = 43;

/// The byte that marks a node read in reverse.
pub const MINUS: u8 = 45;

/// The direction in which a path reads a node.
#[derive(Clone, Copy, Debug, PartialEq, Eq, Structural)]
pub enum Orientation {
    Forward,
    Reverse,
}

/// A node of a path with the direction in which the path reads it.
#[derive(Clone, Copy, Debug, PartialEq, Eq, Structural)]
pub struct OrientedNode {
    pub node_id: usize,
    pub orientation: Orientation,
}

/// The byte that writes an orientation.
pub open spec fn sign_of(o: Orientation) -> u8 {
    match o {
        Orientation::Forward => PLUS,
        Orientation::Reverse => MINUS,
    }
}

/// Whether `t` writes an oriented node reference.
pub open spec fn is_token(t: Seq<u8>) -> bool {
    &&& t.len() >= 1
    &&& (t.last() == PLUS || t.last() == MINUS)
    &&& is_number(t.drop_last())
}

/// The oriented node reference that `t` writes.
pub open spec fn token_node(t: Seq<u8>) -> OrientedNode {
    OrientedNode {
        node_id: decimal_value(t.drop_last()) as usize,
        orientation: if t.last() == PLUS {
            Orientation::Forward
        } else {
            Orientation::Reverse
        },
    }
}

/// Reads one oriented node reference: the node id and the orientation behind it.
pub fn split_node(node_str: &[u8]) -> (r: Option<OrientedNode>)
    ensures
        r is Some <==> is_token(node_str@),
        r is Some ==> r.unwrap() == token_node(node_str@),
{
    let n = node_str.len();
    if n == 0 {
        return None;
    }
    let sign = node_str[n - 1];
    let orientation = if sign == PLUS {
        Orientation::Forward
    } else if sign == MINUS {
        Orientation::Reverse
    } else {
        return None;
    };
    let digits = vstd::slice::slice_subrange(node_str, 0, n - 1);
    match parse_number(digits) {
        Some(node_id) => Some(OrientedNode { node_id, orientation }),
        None => None,
    }
}

/// The byte that writes the orientation of a node reference.
pub fn sign_byte(o: Orientation) -> (b: u8)
    ensures
        b == sign_of(o),
{
    match o {
        Orientation::Forward => PLUS,
        Orientation::Reverse => MINUS,
    }
}

/// The node references that the fields write, field by field.
pub open spec fn nodes_of(fields: Seq<Seq<u8>>) -> Seq<OrientedNode> {
    Seq::new(fields.len(), |k: int| token_node(fields[k]))
}

/// The node ids of a run of node references.
pub open spec fn ids_of(nodes: Seq<OrientedNode>) -> Seq<usize> {
    Seq::new(nodes.len(), |k: int| nodes[k].node_id)
}

/// Whether each of the fields `[from, to)` writes an oriented node reference.
pub open spec fn all_tokens(fields: Seq<Seq<u8>>, from: int, to: int) -> bool {
    forall|k: int| from <= k < to ==> is_token(#[trigger] fields[k])
}

/// Whether `k` is the first of the fields `[from, to)` that writes no
/// oriented node reference.
pub open spec fn is_first_bad(fields: Seq<Seq<u8>>, from: int, to: int, k: int) -> bool {
    &&& from <= k < to
    &&& !is_token(fields[k])
    &&& all_tokens(fields, from, k)
}

/// Reads the fields `[from, to)` of `s` as oriented node references. Fails
/// with the place of the first field that writes none.
pub(crate) fn parse_nodes(s: &[u8], spans: &Vec<(usize, usize)>, from: usize, to: usize) -> (r: Result<
    Vec<OrientedNode>,
    usize,
>)
    requires
        spans_of(spans@, s@, SPACE),
        from <= to <= spans@.len(),
    ensures
        match r {
            Ok(nodes) => {
                &&& all_tokens(split(s@, SPACE), from as int, to as int)
                &&& nodes@ == nodes_of(split(s@, SPACE).subrange(from as int, to as int))
            },
            Err(k) => is_first_bad(split(s@, SPACE), from as int, to as int, k as int),
        },
{
    let ghost fields = split(s@, SPACE);
    let mut nodes: Vec<OrientedNode> = Vec::new();
    let mut k: usize = from;
    while k < to
        invariant
            from <= k <= to <= spans@.len(),
            fields == split(s@, SPACE),
            spans_of(spans@, s@, SPACE),
            all_tokens(fields, from as int, k as int),
            nodes@ == nodes_of(fields.subrange(from as int, k as int)),
        decreases to - k,
    {
        let span = spans[k];
        let token = vstd::slice::slice_subrange(s, span.0, span.1);
        match split_node(token) {
            Some(node) => {
                nodes.push(node);
            },
            None => {
                return Err(k);
            },
        }
        k += 1;
    }
    Ok(nodes)
}

/// One line of the graph file: a path by its identifier and the nodes that
/// it runs through, in order.
#[derive(Debug, PartialEq, Eq)]
pub struct PathLine {
    pub identifier: Vec<u8>,
    pub nodes: Vec<OrientedNode>,
}

/// The fields that write the node references of a path line.
pub open spec fn path_tokens(line: Seq<u8>) -> Seq<Seq<u8>> {
    split(tail(line), SPACE)
}

/// Whether `line` is a well-formed path line.
pub open spec fn is_path_line(line: Seq<u8>) -> bool {
    &&& has_fields(line)
    &&& all_tokens(path_tokens(line), 0, path_tokens(line).len() as int)
}

/// Whether `fault` says what is wrong with `line` as a path line: that it
/// holds no tab, or which of its node references is the first malformed one.
pub open spec fn is_path_fault(line: Seq<u8>, fault: ParseError) -> bool {
    match fault {
        ParseError::MissingTab => !has_fields(line),
        ParseError::BadNodeRef { index } => {
            &&& has_fields(line)
            &&& is_first_bad(path_tokens(line), 0, path_tokens(line).len() as int, index as int)
        },
        ParseError::BadNodeId => false,
    }
}

/// Reads a path line. The white space around the line does not count.
pub fn parse_path_line(line: &[u8]) -> (r: Result<PathLine, ParseError>)
    ensures
        match r {
            Ok(p) => {
                &&& is_path_line(line@)
                &&& p.identifier@ == head(line@)
                &&& p.nodes@ == nodes_of(path_tokens(line@))
            },
            Err(fault) => !is_path_line(line@) && is_path_fault(line@, fault),
        },
{
    match split_line(line) {
        None => Err(ParseError::MissingTab),
        Some((identifier, rest)) => {
            let spans = split_fields(rest, SPACE);
            match parse_nodes(rest, &spans, 0, spans.len()) {
                Ok(nodes) => {
                    Ok(PathLine { identifier: to_vec(identifier), nodes })
                },
                Err(index) => Err(ParseError::BadNodeRef { index }),
            }
        },
    }
}

/// The node ids of a run of node references, in order.
pub fn node_ids(nodes: &[OrientedNode]) -> (ids: Vec<usize>)
    ensures
        ids@ == ids_of(nodes@),
{
    let mut ids: Vec<usize> = Vec::new();
    let mut k: usize = 0;
    while k < nodes.len()
        invariant
            k <= nodes.len(),
            ids@ == ids_of(nodes@.take(k as int)),
        decreases nodes.len() - k,
    {
        ids.push(nodes[k].node_id);
        k += 1;
    }
    ids
}

} // verus!
