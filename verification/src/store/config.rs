//! The person's settings: what they asked for, and what is waiting.
use vstd::prelude::*;
use crate::domain::entries::{ReachMode, Trail};
use crate::domain::gate::PendingChange;

verus! {

/// Whether the person wants protection on.
#[derive(Clone, Copy, PartialEq, Eq, Debug, Structural)]
pub enum ProtectionIntent {
    On,
    Off,
}

/// Who settled the reach mode last.
#[derive(Clone, Copy, PartialEq, Eq, Debug, Structural)]
pub enum ChosenBy {
    /// The person chose it themselves.
    Person,
    /// Cairn chose it, because counting was not possible.
    Automatic,
}

/// The mode to run in, who chose it, and why Cairn fell back if it did.
#[derive(Clone, PartialEq, Eq, Debug)]
pub struct ReachModeSetting {
    pub mode: ReachMode,
    pub chosen_by: ChosenBy,
    /// One sentence, present when Cairn dropped to silent on its own.
    pub fallback_reason: Option<String>,
}

/// Everything the person has set.
#[derive(Clone, PartialEq, Eq, Debug)]
pub struct Config {
    pub intent: ProtectionIntent,
    pub trail: Trail,
    pub reach_mode: ReachModeSetting,
    /// The one reduction waiting, if any.
    pub pending_change: Option<PendingChange>,
}

} // verus!
