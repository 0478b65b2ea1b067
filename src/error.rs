//! What can go wrong in the core.

use vstd::prelude::*;

verus! {

#[derive(Clone, Copy, Debug, PartialEq, Eq, Structural)]
pub enum ScreenError {
    /// An instruction named a pane that does not exist.
    UnknownPane(i32),
    /// A CSI sequence with a final character that is not handled.
    UnhandledCsi(char),
    /// A resize or split would leave a pane without interior.
    ResizeInfeasible,
    /// A new pane was given the id of a pane that exists.
    DuplicatePane(i32),
}

}
