//! The ways in which the input can be refused.

use vstd::prelude::*;

verus! {

/// What is wrong with a line.
#[derive(Clone, Copy, Debug, PartialEq, Eq, Structural)]
pub enum ParseError {
    /// The line holds no tab.
    MissingTab,
    /// The field before the tab of a node line writes no node id.
    BadNodeId,
    /// The oriented node reference at this place of a path is malformed: its
    /// id is missing or not a number, or its orientation is missing.
    BadNodeRef { index: usize },
}

/// Why a run over the input lines ended without a result.
#[derive(Clone, Copy, Debug, PartialEq, Eq, Structural)]
pub enum Error {
    /// The line at this place, counted from 0, is malformed.
    Parse { line: usize, fault: ParseError },
    /// No line carries the identifier of the target path.
    TargetNotFound,
    /// The range `[start, stop)` is empty or runs past the `count` node
    /// references of the target path.
    Range { start: usize, stop: usize, count: usize },
}

} // verus!
