//! Extraction of the part of a sequence graph that other paths share with a
//! window of one target path.
//!
//! The lines of the two input files are handled as bytes, and so is what is
//! written. The modules, leaves first: `text` (fields, white space, decimal
//! numbers), `error` (what can be wrong with the input), `path` (oriented
//! node references and path lines), `nodes` (the node store), `target` (the
//! target window and the search for it), `coords` (genomic coordinates),
//! `matcher` (the chain matcher), `gfa` (the output graph) and `extract` (one
//! pass over the path lines).

pub mod coords;
pub mod error;
pub mod extract;
pub mod gfa;
pub mod matcher;
pub mod nodes;
pub mod path;
pub mod target;
pub mod text;
