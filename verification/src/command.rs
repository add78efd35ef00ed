//! The commands of an editing script, in the form the engine consumes them.
use crate::model::{DeleteContent, LineRange, LocationContent, NewContent};
use vstd::prelude::*;

verus! {

/// Where `New` inserts its lines.
#[derive(Debug, Clone, Copy, PartialEq, Eq, Structural)]
pub enum NewPosition {
    /// after the located lines (or where a `Delete` removed lines)
    Normal,
    /// before the first line of the block (or of the file)
    Start,
    /// after the last line of the block (or of the file)
    End,
}

/// What an `Off` command closes.
#[derive(Debug, Clone, Copy, PartialEq, Eq, Structural)]
pub enum OffTarget {
    /// write everything back and close the file
    Open,
    /// close the innermost `Location`
    Location,
    /// close the innermost `Location` after a `New`
    New,
}

/// One command of a script.
#[derive(Debug)]
pub enum Command {
    /// open the file at `file_path`
    Open { file_path: String },
    /// narrow the scope to the lines `content` locates (or to `line_range`)
    Location { block: bool, line_range: Option<LineRange>, content: LocationContent },
    /// insert lines
    New { position: NewPosition, content: NewContent },
    /// remove lines: the whole block, a line range, or lines that match `content`
    Delete { block: bool, line_range: Option<LineRange>, content: Option<DeleteContent> },
    /// literal text; by the time the engine runs it is part of a `New` or `Delete`
    Raw { content: String },
    /// close a scope
    Off { target: OffTarget },
}

} // verus!
