//! Whether counting is happening, checked at setup and at every start of
//! protection.
//!
//! Binding the ports is a precondition, not the answer: counting is threads
//! accepting on Cairn's ports. A conflict is not a problem to solve: Cairn
//! drops to silent mode, blocking is entirely unaffected, and the switch is
//! explained in one sentence.
use vstd::prelude::*;
use crate::domain::entries::ReachMode;

verus! {

/// What is actually true about counting.
#[derive(Clone, PartialEq, Eq, Debug)]
pub enum Counting {
    /// Cairn holds the ports and is accepting on them.
    Available,
    /// It is not counting. One sentence, shown as written.
    Unavailable { because: String },
}

impl Counting {
    /// Counted while counting is available, silent otherwise.
    pub fn mode(&self) -> (mode: ReachMode)
        ensures
            mode == (if *self is Available {
                ReachMode::Counted
            } else {
                ReachMode::Silent
            }),
    {
        match self {
            Counting::Available => ReachMode::Counted,
            Counting::Unavailable { .. } => ReachMode::Silent,
        }
    }
}

} // verus!
