//! The gutter mark: the per-column, per-line state of one annotation.

use vstd::prelude::*;

verus! {

/// The state of one annotation's gutter column on one render line.
#[derive(Clone, Copy, Debug, PartialEq, Eq, Structural)]
pub enum Mark {
    /// No annotation is active in this column on this line.
    Empty,
    /// The annotation begins on this line and continues below.
    Start,
    /// The annotation passes fully through this line.
    Continue,
    /// The annotation terminates on this line.
    End,
}

} // verus!
