//! The message that carries a PTY's output to the main loop.
use vstd::prelude::*;

verus! {

/// Message sent from a PTY reader to the main event loop.
pub struct PtyOutput {
    /// Index of the cell this output belongs to.
    pub cell_index: usize,
    /// Raw bytes of output from the PTY.
    pub data: Vec<u8>,
}

} // verus!
