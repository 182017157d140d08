//! The output graph: the segments that the accepted windows touch, each
//! written once, and a link for each pair of neighbours in a window.
//!
//! The graph is written as a header line, a segment line for each node in the
//! order in which the nodes were first seen, and the link lines in the order
//! in which they were recorded.

use crate::coords::overlap;
use crate::nodes::NodeStore;
use crate::path::{ids_of, sign_byte, sign_of, OrientedNode};
use crate::text::{digits_of, push_bytes, push_number, NEWLINE, TAB};
use std::collections::HashSet;
use vstd::prelude::*;

verus! {

broadcast use vstd::std_specs::hash::group_hash_axioms;

/// The byte `H`, which starts the header line.
pub const HEADER: u8 = 72;

/// The byte `S`, which starts a segment line.
pub const SEGMENT: u8 = 83;

/// The byte `L`, which starts a link line.
pub const LINK: u8 = 76;

/// The byte `M`, which stands behind the overlap of a link.
pub const MATCH: u8 = 77;

/// The byte `*`, which stands for a sequence that is not given.
pub const NO_SEQUENCE: u8 = 42;

/// The version tag of the header: the bytes of `VN:Z:1.0`.
pub open spec fn version_tag() -> Seq<u8> {
    seq![86u8, 78u8, 58u8, 90u8, 58u8, 49u8, 46u8, 48u8]
}

/// The header line: `H`, a tab, and the version tag.
pub open spec fn header_line() -> Seq<u8> {
    seq![HEADER, TAB] + version_tag() + seq![NEWLINE]
}

/// The field that holds a sequence: the sequence itself, or `*` for an empty one.
pub open spec fn sequence_field(sequence: Seq<u8>) -> Seq<u8> {
    if sequence.len() == 0 {
        seq![NO_SEQUENCE]
    } else {
        sequence
    }
}

/// The segment line of a node: `S`, the node id, the sequence and its length,
/// with tabs between them.
pub open spec fn segment_line(id: usize, sequence: Seq<u8>) -> Seq<u8> {
    seq![SEGMENT, TAB] + digits_of(id as nat) + seq![TAB] + sequence_field(sequence) + seq![TAB]
        + digits_of(sequence.len()) + seq![NEWLINE]
}

/// The two fields of a node in a link line, each followed by a tab: its id
/// and its orientation.
pub open spec fn link_end(node: OrientedNode) -> Seq<u8> {
    digits_of(node.node_id as nat) + seq![TAB, sign_of(node.orientation), TAB]
}

/// The link line of two neighbours: `L`, the id and the orientation of each,
/// and the number of bases that they share, followed by `M`.
pub open spec fn link_line(from: OrientedNode, to: OrientedNode, k: int) -> Seq<u8> {
    seq![LINK, TAB] + link_end(from) + link_end(to) + digits_of(overlap(k) as nat) + seq![MATCH, NEWLINE]
}

/// The link lines of a window: one for each pair of neighbours, in path order.
pub open spec fn link_lines(nodes: Seq<OrientedNode>, k: int) -> Seq<u8>
    decreases nodes.len(),
{
    if nodes.len() < 2 {
        Seq::empty()
    } else {
        link_lines(nodes.drop_last(), k) + link_line(
            nodes[nodes.len() - 2],
            nodes[nodes.len() - 1],
            k,
        )
    }
}

/// `seen` followed by those of `ids` that are not in it, each once, in the
/// order in which they first stand in `ids`.
pub open spec fn merged(seen: Seq<usize>, ids: Seq<usize>) -> Seq<usize>
    decreases ids.len(),
{
    if ids.len() == 0 {
        seen
    } else {
        let before = merged(seen, ids.drop_last());
        if before.contains(ids.last()) {
            before
        } else {
            before.push(ids.last())
        }
    }
}

/// The segment lines of the nodes `order`, in that order. A node that the
/// store does not hold has no line.
pub open spec fn segment_lines(order: Seq<usize>, store: Map<usize, Seq<u8>>) -> Seq<Seq<u8>>
    decreases order.len(),
{
    if order.len() == 0 {
        Seq::empty()
    } else {
        let before = segment_lines(order.drop_last(), store);
        if store.contains_key(order.last()) {
            before.push(segment_line(order.last(), store[order.last()]))
        } else {
            before
        }
    }
}

/// Those of the nodes `order` that the store does not hold, in that order.
pub open spec fn missing_nodes(order: Seq<usize>, store: Map<usize, Seq<u8>>) -> Seq<usize>
    decreases order.len(),
{
    if order.len() == 0 {
        Seq::empty()
    } else {
        let before = missing_nodes(order.drop_last(), store);
        if store.contains_key(order.last()) {
            before
        } else {
            before.push(order.last())
        }
    }
}

/// The lines one after the other.
pub open spec fn joined(lines: Seq<Seq<u8>>) -> Seq<u8>
    decreases lines.len(),
{
    if lines.len() == 0 {
        Seq::empty()
    } else {
        joined(lines.drop_last()) + lines.last()
    }
}

/// The whole graph file: the header, the segment lines and the link lines.
pub open spec fn graph_text(order: Seq<usize>, store: Map<usize, Seq<u8>>, links: Seq<u8>) -> Seq<
    u8,
> {
    header_line() + joined(segment_lines(order, store)) + links
}

/// Appends the header line to `out`.
pub fn push_header(out: &mut Vec<u8>)
    ensures
        final(out)@ == old(out)@ + header_line(),
{
    out.push(HEADER);
    out.push(TAB);
    out.push(86);
    out.push(78);
    out.push(58);
    out.push(90);
    out.push(58);
    out.push(49);
    out.push(46);
    out.push(48);
    out.push(NEWLINE);
}

/// Appends the segment line of node `id` to `out`.
pub fn push_segment_line(out: &mut Vec<u8>, id: usize, sequence: &[u8])
    ensures
        final(out)@ == old(out)@ + segment_line(id, sequence@),
{
    out.push(SEGMENT);
    out.push(TAB);
    push_number(out, id as u128);
    out.push(TAB);
    if sequence.len() == 0 {
        out.push(NO_SEQUENCE);
    } else {
        push_bytes(out, sequence);
    }
    out.push(TAB);
    push_number(out, sequence.len() as u128);
    out.push(NEWLINE);
}

/// Appends the id and the orientation of `node` to `out`, each with a tab
/// behind it.
fn push_link_end(out: &mut Vec<u8>, node: OrientedNode)
    ensures
        final(out)@ == old(out)@ + link_end(node),
{
    push_number(out, node.node_id as u128);
    out.push(TAB);
    out.push(sign_byte(node.orientation));
    out.push(TAB);
}

/// Appends the link line of the neighbours `from` and `to` to `out`.
pub fn push_link_line(out: &mut Vec<u8>, from: OrientedNode, to: OrientedNode, k: usize)
    ensures
        final(out)@ == old(out)@ + link_line(from, to, k as int),
{
    let shared: usize = if k > 0 {
        k - 1
    } else {
        0
    };
    out.push(LINK);
    out.push(TAB);
    push_link_end(out, from);
    push_link_end(out, to);
    push_number(out, shared as u128);
    out.push(MATCH);
    out.push(NEWLINE);
}

/// What merging keeps: nothing stands twice, what was seen stays in front,
/// and the nodes are those seen before together with the new ones.
pub proof fn lemma_merged(seen: Seq<usize>, ids: Seq<usize>)
    requires
        seen.no_duplicates(),
    ensures
        merged(seen, ids).no_duplicates(),
        merged(seen, ids).to_set() == seen.to_set().union(ids.to_set()),
        seen.len() <= merged(seen, ids).len(),
        merged(seen, ids).take(seen.len() as int) == seen,
    decreases ids.len(),
{
    if ids.len() > 0 {
        let before = merged(seen, ids.drop_last());
        lemma_merged(seen, ids.drop_last());
        assert forall|x: usize| ids.contains(x) <==> ids.drop_last().contains(x) || x
            == ids.last() by {
            if ids.contains(x) {
                let j = choose|j: int| 0 <= j < ids.len() && ids[j] == x;
                if j < ids.len() - 1 {
                    assert(ids.drop_last()[j] == x);
                }
            }
        }
        before.lemma_push_to_set_commute(ids.last());
    }
}

/// Merging in two runs one after the other is merging in both at once.
pub proof fn lemma_merged_twice(seen: Seq<usize>, a: Seq<usize>, b: Seq<usize>)
    ensures
        merged(merged(seen, a), b) == merged(seen, a + b),
    decreases b.len(),
{
    if b.len() > 0 {
        lemma_merged_twice(seen, a, b.drop_last());
        assert((a + b).drop_last() == a + b.drop_last());
    }
}

/// The output graph while it is gathered.
pub struct GFA<'a> {
    sequences: &'a NodeStore,
    order: Vec<usize>,
    seen: HashSet<usize>,
    links: Vec<u8>,
    k: usize,
}

/// The graph file and the nodes that it leaves out.
#[derive(Debug, PartialEq, Eq)]
pub struct GraphOutput {
    /// The text of the graph file.
    pub graph: Vec<u8>,
    /// The nodes that the windows touch and the store does not hold, in the
    /// order in which they were first seen. None of them has a segment line.
    pub missing: Vec<usize>,
}

impl<'a> GFA<'a> {
    /// Nothing stands twice among the segments, and the set of the seen nodes
    /// holds exactly the segments.
    pub closed spec fn wf(&self) -> bool {
        &&& self.order@.no_duplicates()
        &&& self.seen@ == self.order@.to_set()
    }

    /// The nodes seen so far, each once, in the order in which they were
    /// first seen.
    pub closed spec fn segments(&self) -> Seq<usize> {
        self.order@
    }

    /// The link lines recorded and not yet taken out.
    pub closed spec fn link_log(&self) -> Seq<u8> {
        self.links@
    }

    /// The node store that gives the sequences.
    pub closed spec fn store(&self) -> Map<usize, Seq<u8>> {
        self.sequences@
    }

    /// The k-mer size that the overlap of the links is taken from.
    pub closed spec fn kmer(&self) -> usize {
        self.k
    }

    /// An output graph without segments and links.
    pub fn new(sequences: &'a NodeStore, k: usize) -> (gfa: GFA<'a>)
        ensures
            gfa.wf(),
            gfa.segments() == Seq::<usize>::empty(),
            gfa.link_log() == Seq::<u8>::empty(),
            gfa.store() == sequences@,
            gfa.kmer() == k,
    {
        let gfa = GFA { sequences, order: Vec::new(), seen: HashSet::new(), links: Vec::new(), k };
        assert(gfa.order@.to_set() =~= Set::<usize>::empty());
        gfa
    }

    /// The node store that gives the sequences.
    pub fn sequences(&self) -> (s: &'a NodeStore)
        ensures
            s@ == self.store(),
    {
        self.sequences
    }

    /// The number of nodes seen so far.
    pub fn segment_count(&self) -> (n: usize)
        ensures
            n == self.segments().len(),
    {
        self.order.len()
    }

    /// Records a window: marks each of its nodes as seen, and appends a link
    /// line for each pair of neighbours to the link log. A node seen before
    /// is not marked again; a window of one node adds no link.
    pub fn add_path(&mut self, node_path: &[OrientedNode])
        requires
            old(self).wf(),
        ensures
            final(self).wf(),
            final(self).segments() == merged(old(self).segments(), ids_of(node_path@)),
            final(self).link_log() == old(self).link_log() + link_lines(
                node_path@,
                old(self).kmer() as int,
            ),
            final(self).store() == old(self).store(),
            final(self).kmer() == old(self).kmer(),
    {
        let mut i: usize = 0;
        while i < node_path.len()
            invariant
                i <= node_path@.len(),
                self.order@.no_duplicates(),
                self.seen@ == self.order@.to_set(),
                self.order@ == merged(old(self).order@, ids_of(node_path@.take(i as int))),
                self.links@ == old(self).links@ + link_lines(
                    node_path@.take(i as int),
                    self.k as int,
                ),
                self.sequences == old(self).sequences,
                self.k == old(self).k,
            decreases node_path.len() - i,
        {
            let node = node_path[i];
            proof {
                let now = node_path@.take(i as int + 1);
                assert(now.drop_last() == node_path@.take(i as int));
                assert(ids_of(now).drop_last() =~= ids_of(node_path@.take(i as int)));
                self.order@.lemma_push_to_set_commute(node.node_id);
            }
            if self.seen.insert(node.node_id) {
                self.order.push(node.node_id);
            }
            if i > 0 {
                push_link_line(&mut self.links, node_path[i - 1], node, self.k);
            }
            i += 1;
        }
        proof {
            assert(node_path@.take(i as int) == node_path@);
        }
    }

    /// Takes the link lines recorded so far out of the graph, for a caller
    /// that keeps the link log elsewhere and appends to it as the run goes.
    pub fn drain_links(&mut self) -> (links: Vec<u8>)
        requires
            old(self).wf(),
        ensures
            final(self).wf(),
            links@ == old(self).link_log(),
            final(self).link_log() == Seq::<u8>::empty(),
            final(self).segments() == old(self).segments(),
            final(self).store() == old(self).store(),
            final(self).kmer() == old(self).kmer(),
    {
        let mut links: Vec<u8> = Vec::new();
        links.append(&mut self.links);
        links
    }

    /// Writes the graph: the header line, a segment line for each seen node
    /// that the store holds, in the order in which the nodes were first seen,
    /// and the link log. The seen nodes that the store does not hold are
    /// handed back beside the text.
    pub fn finalize(self) -> (out: GraphOutput)
        requires
            self.wf(),
        ensures
            out.graph@ == graph_text(self.segments(), self.store(), self.link_log()),
            out.missing@ == missing_nodes(self.segments(), self.store()),
    {
        let mut graph: Vec<u8> = Vec::new();
        let mut missing: Vec<usize> = Vec::new();
        push_header(&mut graph);
        let mut i: usize = 0;
        let ghost order = self.order@;
        let ghost store = self.sequences@;
        while i < self.order.len()
            invariant
                i <= order.len(),
                order == self.order@,
                store == self.sequences@,
                graph@ == header_line() + joined(segment_lines(order.take(i as int), store)),
                missing@ == missing_nodes(order.take(i as int), store),
            decreases self.order.len() - i,
        {
            let id = self.order[i];
            proof {
                assert(order.take(i as int + 1).drop_last() == order.take(i as int));
            }
            match self.sequences.get(id) {
                Some(sequence) => {
                    push_segment_line(&mut graph, id, sequence.as_slice());
                    proof {
                        let lines = segment_lines(order.take(i as int + 1), store);
                        assert(lines.drop_last() == segment_lines(order.take(i as int), store));
                    }
                },
                None => {
                    missing.push(id);
                },
            }
            i += 1;
        }
        proof {
            assert(order.take(i as int) == order);
        }
        push_bytes(&mut graph, self.links.as_slice());
        GraphOutput { graph, missing }
    }
}

/// Each node that the store holds has one segment line, however often the
/// recorded windows run through it: where the store holds every node of
/// `ids`, the nodes of all the windows recorded into an empty graph, there are
/// as many segment lines as distinct nodes, and no node is missing.
pub proof fn lemma_one_segment_per_node(ids: Seq<usize>, store: Map<usize, Seq<u8>>)
    requires
        forall|j: int| 0 <= j < ids.len() ==> store.contains_key(#[trigger] ids[j]),
    ensures
        segment_lines(merged(Seq::empty(), ids), store).len() == ids.to_set().len(),
        missing_nodes(merged(Seq::empty(), ids), store).len() == 0,
{
    let order = merged(Seq::<usize>::empty(), ids);
    lemma_merged(Seq::<usize>::empty(), ids);
    assert(order.to_set() =~= ids.to_set());
    order.unique_seq_to_set();
    assert forall|j: int| 0 <= j < order.len() implies store.contains_key(#[trigger] order[j]) by {
        assert(order.to_set().contains(order[j]));
    }
    lemma_all_known_lines(order, store);
}

/// Where the store holds every node of `order`, each has its segment line
/// and none is missing.
proof fn lemma_all_known_lines(order: Seq<usize>, store: Map<usize, Seq<u8>>)
    requires
        forall|j: int| 0 <= j < order.len() ==> store.contains_key(#[trigger] order[j]),
    ensures
        segment_lines(order, store).len() == order.len(),
        missing_nodes(order, store).len() == 0,
    decreases order.len(),
{
    if order.len() > 0 {
        lemma_all_known_lines(order.drop_last(), store);
    }
}

/// A node has a segment line or is missing, never both: the segment lines
/// and the missing nodes together are as many as the nodes seen.
pub proof fn lemma_line_or_missing(order: Seq<usize>, store: Map<usize, Seq<u8>>)
    ensures
        segment_lines(order, store).len() + missing_nodes(order, store).len() == order.len(),
    decreases order.len(),
{
    if order.len() > 0 {
        lemma_line_or_missing(order.drop_last(), store);
    }
}

} // verus!
