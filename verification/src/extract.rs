//! One pass over the path lines of the graph file: each line is matched
//! against the target window, and each accepted window is recorded in the
//! output graph, in the coordinate table and in the color table.

use crate::coords::{all_known, calc_location, location};
use crate::error::Error;
use crate::gfa::{
    graph_text, lemma_merged_twice, lemma_one_segment_per_node, link_lines, merged,
    missing_nodes, segment_lines, GFA,
};
use crate::matcher::{chains, find_chains, sound_window, ChainWindow};
use crate::nodes::NodeStore;
use crate::path::{
    ids_of, is_path_fault, is_path_line, node_ids, nodes_of, parse_path_line, path_tokens,
    OrientedNode,
};
use crate::target::TargetWindow;
use crate::text::{digits_of, head, lines_of, push_bytes, push_number, NEWLINE, TAB};
use std::collections::HashSet;
use vstd::prelude::*;

verus! {

broadcast use vstd::std_specs::hash::group_hash_axioms;

/// The settings of a run.
#[derive(Clone, Copy, Debug, PartialEq, Eq, Structural)]
pub struct Config {
    /// The number of positions by which an accepted window is widened on
    /// each side.
    pub context_size: usize,
    /// The number of distinct target nodes that a window must hold.
    pub min_shared: usize,
    /// Whether the coordinate table is written.
    pub write_coords: bool,
    /// Whether the color table is written.
    pub write_colors: bool,
    /// The k-mer size of the graph, or 0 where its nodes do not overlap.
    pub k: usize,
}

/// What a run has gathered: the segments in the order in which they were
/// first seen, and the text of the link log, of the coordinate table and of
/// the color table.
pub struct Tables {
    pub segments: Seq<usize>,
    pub links: Seq<u8>,
    pub coords: Seq<u8>,
    pub colors: Seq<u8>,
}

/// The node ids of the windows, window by window.
pub open spec fn window_ids(ids: Seq<usize>, windows: Seq<ChainWindow>) -> Seq<usize>
    decreases windows.len(),
{
    if windows.len() == 0 {
        Seq::empty()
    } else {
        window_ids(ids, windows.drop_last()) + ids.subrange(
            windows.last().left as int,
            windows.last().right as int,
        )
    }
}

/// The link lines of the windows, window by window.
pub open spec fn window_links(nodes: Seq<OrientedNode>, windows: Seq<ChainWindow>, k: int) -> Seq<
    u8,
>
    decreases windows.len(),
{
    if windows.len() == 0 {
        Seq::empty()
    } else {
        window_links(nodes, windows.drop_last(), k) + link_lines(
            nodes.subrange(windows.last().left as int, windows.last().right as int),
            k,
        )
    }
}

/// A row of the coordinate table: the path, the number of shared nodes, the
/// number of target nodes, and the two coordinates, with tabs between them.
pub open spec fn coord_line(
    identifier: Seq<u8>,
    shared: nat,
    target_size: nat,
    start: nat,
    stop: nat,
) -> Seq<u8> {
    identifier + seq![TAB] + digits_of(shared) + seq![TAB] + digits_of(target_size) + seq![TAB]
        + digits_of(start) + seq![TAB] + digits_of(stop) + seq![NEWLINE]
}

/// The row of one window: from the start of its first node to the end of its
/// last. Where the store does not hold a node that the path runs through up
/// to the end of the window, the coordinates are not known and the window has
/// no row.
pub open spec fn coord_row(
    identifier: Seq<u8>,
    ids: Seq<usize>,
    store: Map<usize, Seq<u8>>,
    k: int,
    w: ChainWindow,
    target_size: nat,
) -> Seq<u8> {
    if all_known(ids, store, w.right as int) {
        let place = location(ids, store, k, w.left as int, w.right - 1);
        coord_line(identifier, w.shared as nat, target_size, place.0 as nat, place.1 as nat)
    } else {
        Seq::empty()
    }
}

/// The rows of the windows of one path, window by window.
pub open spec fn coord_rows(
    identifier: Seq<u8>,
    ids: Seq<usize>,
    store: Map<usize, Seq<u8>>,
    k: int,
    windows: Seq<ChainWindow>,
    target_size: nat,
) -> Seq<u8>
    decreases windows.len(),
{
    if windows.len() == 0 {
        Seq::empty()
    } else {
        coord_rows(identifier, ids, store, k, windows.drop_last(), target_size) + coord_row(
            identifier,
            ids,
            store,
            k,
            windows.last(),
            target_size,
        )
    }
}

/// A row of the color table: a node and a path that runs through it inside
/// an accepted window.
pub open spec fn color_line(id: usize, identifier: Seq<u8>) -> Seq<u8> {
    digits_of(id as nat) + seq![TAB] + identifier + seq![NEWLINE]
}

/// The rows of the nodes `nodes` for one path.
pub open spec fn color_rows(identifier: Seq<u8>, nodes: Seq<usize>) -> Seq<u8>
    decreases nodes.len(),
{
    if nodes.len() == 0 {
        Seq::empty()
    } else {
        color_rows(identifier, nodes.drop_last()) + color_line(nodes.last(), identifier)
    }
}

/// What the run has gathered once the path line `line` is added: the nodes of
/// its windows are merged into the segments, their links are appended to the
/// link log, each window has its row in the coordinate table, and each
/// distinct node of the windows has one row in the color table.
pub open spec fn after_line(
    config: Config,
    target: Seq<usize>,
    store: Map<usize, Seq<u8>>,
    before: Tables,
    line: Seq<u8>,
) -> Tables {
    let nodes = nodes_of(path_tokens(line));
    let ids = ids_of(nodes);
    let windows = chains(ids, target, config.min_shared as int, config.context_size as int);
    let touched = window_ids(ids, windows);
    Tables {
        segments: merged(before.segments, touched),
        links: before.links + window_links(nodes, windows, config.k as int),
        coords: before.coords + if config.write_coords {
            coord_rows(head(line), ids, store, config.k as int, windows, target.to_set().len())
        } else {
            Seq::empty()
        },
        colors: before.colors + if config.write_colors {
            color_rows(head(line), merged(Seq::empty(), touched))
        } else {
            Seq::empty()
        },
    }
}

/// What a run over `lines` gathers, from nothing.
pub open spec fn after_lines(
    config: Config,
    target: Seq<usize>,
    store: Map<usize, Seq<u8>>,
    lines: Seq<Seq<u8>>,
) -> Tables
    decreases lines.len(),
{
    if lines.len() == 0 {
        Tables {
            segments: Seq::empty(),
            links: Seq::empty(),
            coords: Seq::empty(),
            colors: Seq::empty(),
        }
    } else {
        after_line(
            config,
            target,
            store,
            after_lines(config, target, store, lines.drop_last()),
            lines.last(),
        )
    }
}

/// Appends a row of the coordinate table to `out`.
pub fn push_coord_line(
    out: &mut Vec<u8>,
    identifier: &[u8],
    shared: usize,
    target_size: usize,
    start: u128,
    stop: u128,
)
    ensures
        final(out)@ == old(out)@ + coord_line(
            identifier@,
            shared as nat,
            target_size as nat,
            start as nat,
            stop as nat,
        ),
{
    push_bytes(out, identifier);
    out.push(TAB);
    push_number(out, shared as u128);
    out.push(TAB);
    push_number(out, target_size as u128);
    out.push(TAB);
    push_number(out, start);
    out.push(TAB);
    push_number(out, stop);
    out.push(NEWLINE);
}

/// Appends a row of the color table to `out`.
pub fn push_color_line(out: &mut Vec<u8>, id: usize, identifier: &[u8])
    ensures
        final(out)@ == old(out)@ + color_line(id, identifier@),
{
    push_number(out, id as u128);
    out.push(TAB);
    push_bytes(out, identifier);
    out.push(NEWLINE);
}

/// The node ids of `ids`, each once, in the order in which they first stand
/// there.
pub fn distinct_ids(ids: &Vec<usize>) -> (distinct: Vec<usize>)
    ensures
        distinct@ == merged(Seq::empty(), ids@),
{
    let mut distinct: Vec<usize> = Vec::new();
    let mut seen: HashSet<usize> = HashSet::new();
    let mut i: usize = 0;
    while i < ids.len()
        invariant
            i <= ids@.len(),
            distinct@ == merged(Seq::empty(), ids@.take(i as int)),
            seen@ == distinct@.to_set(),
        decreases ids.len() - i,
    {
        let id = ids[i];
        proof {
            assert(ids@.take(i as int + 1).drop_last() == ids@.take(i as int));
            distinct@.lemma_push_to_set_commute(id);
        }
        if seen.insert(id) {
            distinct.push(id);
        }
        i += 1;
    }
    proof {
        assert(ids@.take(i as int) == ids@);
    }
    distinct
}

/// The node ids of a stretch of a path are the stretch of its node ids.
proof fn lemma_ids_of_subrange(nodes: Seq<OrientedNode>, left: int, right: int)
    requires
        0 <= left <= right <= nodes.len(),
    ensures
        ids_of(nodes.subrange(left, right)) == ids_of(nodes).subrange(left, right),
{
}

/// A run over the path lines, with what it has gathered so far.
pub struct Extraction<'a> {
    config: Config,
    target: TargetWindow,
    gfa: GFA<'a>,
    coords: Vec<u8>,
    colors: Vec<u8>,
}

/// What a run hands over at its end.
#[derive(Debug, PartialEq, Eq)]
pub struct Output {
    /// The text of the graph file.
    pub graph: Vec<u8>,
    /// The nodes of the accepted windows that the store does not hold. None
    /// of them has a segment line.
    pub missing: Vec<usize>,
    /// The text of the coordinate table; empty where it is not asked for.
    pub coords: Vec<u8>,
    /// The text of the color table; empty where it is not asked for.
    pub colors: Vec<u8>,
}

impl<'a> Extraction<'a> {
    /// The invariant of the output graph, which uses the k-mer size of the
    /// settings.
    pub closed spec fn wf(&self) -> bool {
        &&& self.gfa.wf()
        &&& self.gfa.kmer() == self.config.k
    }

    /// The settings of the run.
    pub closed spec fn config(&self) -> Config {
        self.config
    }

    /// The node ids of the target window.
    pub closed spec fn target(&self) -> Seq<usize> {
        self.target@
    }

    /// The node store.
    pub closed spec fn store(&self) -> Map<usize, Seq<u8>> {
        self.gfa.store()
    }

    /// What the run has gathered.
    pub closed spec fn tables(&self) -> Tables {
        Tables {
            segments: self.gfa.segments(),
            links: self.gfa.link_log(),
            coords: self.coords@,
            colors: self.colors@,
        }
    }

    /// A run that has seen no line.
    pub fn new(config: Config, target: TargetWindow, sequences: &'a NodeStore) -> (run: Extraction<
        'a,
    >)
        ensures
            run.wf(),
            run.config() == config,
            run.target() == target@,
            run.store() == sequences@,
            run.tables() == after_lines(config, target@, sequences@, Seq::empty()),
    {
        Extraction {
            config,
            target,
            gfa: GFA::new(sequences, config.k),
            coords: Vec::new(),
            colors: Vec::new(),
        }
    }

    /// Adds the path line at place `line_no` of the graph file to the run,
    /// and gives its accepted windows. A malformed line is refused and
    /// leaves the run as it was.
    pub fn add_line(&mut self, line: &[u8], line_no: usize) -> (r: Result<Vec<ChainWindow>, Error>)
        requires
            old(self).wf(),
        ensures
            final(self).wf(),
            final(self).config() == old(self).config(),
            final(self).target() == old(self).target(),
            final(self).store() == old(self).store(),
            match r {
                Ok(windows) => {
                    &&& is_path_line(line@)
                    &&& windows@ == chains(
                        ids_of(nodes_of(path_tokens(line@))),
                        old(self).target(),
                        old(self).config().min_shared as int,
                        old(self).config().context_size as int,
                    )
                    &&& forall|j: int|
                        0 <= j < windows@.len() ==> sound_window(
                            #[trigger] windows@[j],
                            path_tokens(line@).len() as int,
                            old(self).target().to_set().len() as int,
                            old(self).config().min_shared as int,
                        )
                    &&& final(self).tables() == after_line(
                        old(self).config(),
                        old(self).target(),
                        old(self).store(),
                        old(self).tables(),
                        line@,
                    )
                },
                Err(e) => {
                    &&& !is_path_line(line@)
                    &&& e matches Error::Parse { line: l, fault }
                    &&& l == line_no
                    &&& is_path_fault(line@, fault)
                    &&& final(self).tables() == old(self).tables()
                },
            },
    {
        let path = match parse_path_line(line) {
            Ok(path) => path,
            Err(fault) => {
                return Err(Error::Parse { line: line_no, fault });
            },
        };
        let ids = node_ids(path.nodes.as_slice());
        let windows = find_chains(
            &ids,
            &self.target,
            self.config.min_shared,
            self.config.context_size,
        );
        let target_size = self.target.node_count();
        let mut colored: Vec<usize> = Vec::new();
        let ghost mut touched: Seq<usize> = Seq::empty();
        let mut w: usize = 0;
        let ghost nodes = path.nodes@;
        let ghost k = self.config.k as int;
        let ghost store = self.gfa.store();
        while w < windows.len()
            invariant
                w <= windows@.len(),
                nodes == path.nodes@,
                ids@ == ids_of(nodes),
                k == self.config.k,
                store == self.gfa.store(),
                target_size == self.target@.to_set().len(),
                forall|j: int|
                    0 <= j < windows@.len() ==> sound_window(
                        #[trigger] windows@[j],
                        ids@.len() as int,
                        self.target.nodes().len() as int,
                        self.config.min_shared as int,
                    ),
                self.gfa.wf(),
                self.gfa.kmer() == self.config.k,
                self.gfa.store() == old(self).gfa.store(),
                self.config == old(self).config,
                self.target == old(self).target,
                self.colors == old(self).colors,
                touched == window_ids(ids@, windows@.take(w as int)),
                self.config.write_colors ==> colored@ == touched,
                self.gfa.segments() == merged(old(self).gfa.segments(), touched),
                self.gfa.link_log() == old(self).gfa.link_log() + window_links(
                    nodes,
                    windows@.take(w as int),
                    k,
                ),
                self.coords@ == old(self).coords@ + if self.config.write_coords {
                    coord_rows(
                        path.identifier@,
                        ids@,
                        store,
                        k,
                        windows@.take(w as int),
                        target_size as nat,
                    )
                } else {
                    Seq::empty()
                },
            decreases windows.len() - w,
        {
            let win = windows[w];
            let part = vstd::slice::slice_subrange(path.nodes.as_slice(), win.left, win.right);
            let ghost before = touched;
            proof {
                let now = windows@.take(w as int + 1);
                assert(now.drop_last() == windows@.take(w as int));
                lemma_ids_of_subrange(nodes, win.left as int, win.right as int);
                lemma_merged_twice(
                    old(self).gfa.segments(),
                    before,
                    ids@.subrange(win.left as int, win.right as int),
                );
            }
            self.gfa.add_path(part);
            if self.config.write_coords {
                match calc_location(
                    &ids,
                    win.left,
                    win.right - 1,
                    self.gfa.sequences(),
                    self.config.k,
                ) {
                    Ok((start, stop)) => {
                        push_coord_line(
                            &mut self.coords,
                            path.identifier.as_slice(),
                            win.shared,
                            target_size,
                            start,
                            stop,
                        );
                    },
                    Err(_) => {},
                }
            }
            if self.config.write_colors {
                let mut p: usize = win.left;
                while p < win.right
                    invariant
                        win.left <= p <= win.right <= ids@.len(),
                        colored@ == before + ids@.subrange(win.left as int, p as int),
                    decreases win.right - p,
                {
                    colored.push(ids[p]);
                    p += 1;
                }
            }
            proof {
                touched = before + ids@.subrange(win.left as int, win.right as int);
            }
            w += 1;
        }
        proof {
            assert(windows@.take(w as int) == windows@);
        }
        if self.config.write_colors {
            let distinct = distinct_ids(&colored);
            let mut c: usize = 0;
            let ghost mid = *self;
            while c < distinct.len()
                invariant
                    c <= distinct@.len(),
                    self.gfa == mid.gfa,
                    self.config == mid.config,
                    self.target == mid.target,
                    self.coords == mid.coords,
                    self.colors@ == old(self).colors@ + color_rows(
                        path.identifier@,
                        distinct@.take(c as int),
                    ),
                decreases distinct.len() - c,
            {
                proof {
                    assert(distinct@.take(c as int + 1).drop_last() == distinct@.take(c as int));
                }
                push_color_line(&mut self.colors, distinct[c], path.identifier.as_slice());
                c += 1;
            }
            proof {
                assert(distinct@.take(c as int) == distinct@);
            }
        }
        Ok(windows)
    }

    /// Takes the link lines recorded so far out of the run, for a caller
    /// that keeps the link log elsewhere and appends to it as the run goes.
    pub fn drain_links(&mut self) -> (links: Vec<u8>)
        requires
            old(self).wf(),
        ensures
            final(self).wf(),
            final(self).config() == old(self).config(),
            final(self).target() == old(self).target(),
            final(self).store() == old(self).store(),
            links@ == old(self).tables().links,
            final(self).tables() == (Tables { links: Seq::empty(), ..old(self).tables() }),
    {
        self.gfa.drain_links()
    }

    /// Ends the run: writes the graph and hands over the two tables.
    pub fn finish(self) -> (out: Output)
        requires
            self.wf(),
        ensures
            out@ == output_of(self.tables(), self.store()),
    {
        let Extraction { config: _, target: _, gfa, coords, colors } = self;
        let written = gfa.finalize();
        Output { graph: written.graph, missing: written.missing, coords, colors }
    }
}

/// What a run hands over, as sequences.
pub struct OutputView {
    pub graph: Seq<u8>,
    pub missing: Seq<usize>,
    pub coords: Seq<u8>,
    pub colors: Seq<u8>,
}

impl View for Output {
    type V = OutputView;

    open spec fn view(&self) -> OutputView {
        OutputView {
            graph: self.graph@,
            missing: self.missing@,
            coords: self.coords@,
            colors: self.colors@,
        }
    }
}

/// What is handed over for what a run has gathered: the graph with the
/// segments that the store holds, the nodes that it does not hold, and the
/// two tables.
pub open spec fn output_of(tables: Tables, store: Map<usize, Seq<u8>>) -> OutputView {
    OutputView {
        graph: graph_text(tables.segments, store, tables.links),
        missing: missing_nodes(tables.segments, store),
        coords: tables.coords,
        colors: tables.colors,
    }
}

/// Whether `k` is the place of the first line that is no path line.
pub open spec fn is_first_bad_path_line(lines: Seq<Seq<u8>>, k: int) -> bool {
    &&& 0 <= k < lines.len()
    &&& !is_path_line(lines[k])
    &&& forall|j: int| 0 <= j < k ==> is_path_line(#[trigger] lines[j])
}

/// Whether `r` is the outcome of the run over `lines`: what the lines gather
/// where each of them is a path line, and else the place of the first that is
/// none, with what is wrong with it.
pub open spec fn extracts(
    config: Config,
    target: Seq<usize>,
    store: Map<usize, Seq<u8>>,
    lines: Seq<Seq<u8>>,
    r: Result<OutputView, Error>,
) -> bool {
    match r {
        Ok(out) => {
            &&& forall|k: int| 0 <= k < lines.len() ==> is_path_line(#[trigger] lines[k])
            &&& out == output_of(after_lines(config, target, store, lines), store)
        },
        Err(Error::Parse { line, fault }) => {
            &&& is_first_bad_path_line(lines, line as int)
            &&& is_path_fault(lines[line as int], fault)
        },
        Err(_) => false,
    }
}

/// The outcome of a run with the texts as sequences.
pub open spec fn outcome_view(r: Result<Output, Error>) -> Result<OutputView, Error> {
    match r {
        Ok(out) => Ok(out@),
        Err(e) => Err(e),
    }
}

/// The same lines with the same settings, target and node store give the
/// same outcome, byte for byte.
pub proof fn lemma_same_input_same_output(
    config: Config,
    target: Seq<usize>,
    store: Map<usize, Seq<u8>>,
    lines: Seq<Seq<u8>>,
    a: Result<OutputView, Error>,
    b: Result<OutputView, Error>,
)
    requires
        extracts(config, target, store, lines, a),
        extracts(config, target, store, lines, b),
    ensures
        a == b,
{
}

/// Runs over the path lines of the graph file: matches each against the
/// target window, records the accepted windows, and writes the graph and the
/// two tables. Fails at the first line that is no path line.
pub fn find_overlaps(
    c: &Config,
    target_path: &Vec<usize>,
    sequences: &NodeStore,
    lines: &Vec<Vec<u8>>,
) -> (r: Result<Output, Error>)
    ensures
        extracts(*c, target_path@, sequences@, lines_of(lines@), outcome_view(r)),
{
    let ghost all = lines_of(lines@);
    let ghost goal_target = target_path@;
    let ghost store = sequences@;
    let mut run = Extraction::new(*c, TargetWindow::new(target_path.as_slice()), sequences);
    let mut k: usize = 0;
    while k < lines.len()
        invariant
            k <= lines@.len(),
            all == lines_of(lines@),
            run.wf(),
            run.config() == *c,
            run.target() == goal_target,
            run.store() == store,
            forall|j: int| 0 <= j < k ==> is_path_line(#[trigger] all[j]),
            run.tables() == after_lines(*c, goal_target, store, all.take(k as int)),
        decreases lines.len() - k,
    {
        proof {
            assert(all.take(k as int + 1).drop_last() == all.take(k as int));
        }
        match run.add_line(lines[k].as_slice(), k) {
            Ok(_) => {},
            Err(e) => {
                return Err(e);
            },
        }
        k += 1;
    }
    proof {
        assert(all.take(k as int) == all);
    }
    Ok(run.finish())
}

/// The node ids of the accepted windows of one path line, window by window.
pub open spec fn line_touched(config: Config, target: Seq<usize>, line: Seq<u8>) -> Seq<usize> {
    let ids = ids_of(nodes_of(path_tokens(line)));
    window_ids(ids, chains(ids, target, config.min_shared as int, config.context_size as int))
}

/// The node ids of the accepted windows of all the lines, line by line.
pub open spec fn touched(config: Config, target: Seq<usize>, lines: Seq<Seq<u8>>) -> Seq<usize>
    decreases lines.len(),
{
    if lines.len() == 0 {
        Seq::empty()
    } else {
        touched(config, target, lines.drop_last()) + line_touched(config, target, lines.last())
    }
}

/// The segments of a run are the nodes of its accepted windows, each once,
/// in the order in which they are first touched.
pub proof fn lemma_run_segments(
    config: Config,
    target: Seq<usize>,
    store: Map<usize, Seq<u8>>,
    lines: Seq<Seq<u8>>,
)
    ensures
        after_lines(config, target, store, lines).segments == merged(
            Seq::empty(),
            touched(config, target, lines),
        ),
    decreases lines.len(),
{
    if lines.len() > 0 {
        lemma_run_segments(config, target, store, lines.drop_last());
        lemma_merged_twice(
            Seq::empty(),
            touched(config, target, lines.drop_last()),
            line_touched(config, target, lines.last()),
        );
    }
}

/// The graph of a run has one segment line for each distinct node of its
/// accepted windows, however many windows or paths run through the node,
/// where the store holds each of these nodes.
pub proof fn lemma_run_segment_count(
    config: Config,
    target: Seq<usize>,
    store: Map<usize, Seq<u8>>,
    lines: Seq<Seq<u8>>,
)
    requires
        forall|j: int|
            0 <= j < touched(config, target, lines).len() ==> store.contains_key(
                #[trigger] touched(config, target, lines)[j],
            ),
    ensures
        segment_lines(after_lines(config, target, store, lines).segments, store).len() == touched(
            config,
            target,
            lines,
        ).to_set().len(),
{
    lemma_run_segments(config, target, store, lines);
    lemma_one_segment_per_node(touched(config, target, lines), store);
}

} // verus!
