//! Counted or silent, and who decided.
//!
//! Counted by default. The check runs at setup and at every start of
//! protection, and a conflict drops Cairn to silent with a one-sentence
//! explanation. A loss of counting never reduces protection: silent mode
//! blocks exactly the same addresses. A person's own choice of silence is
//! never overwritten.
use vstd::prelude::*;
use crate::counting::availability::Counting;
use crate::domain::entries::ReachMode;
use crate::store::config::{ChosenBy, ReachModeSetting};

verus! {

/// A setting as its mode, who chose it, and the fallback sentence.
pub open spec fn setting_view(setting: ReachModeSetting) -> (ReachMode, ChosenBy, Option<Seq<char>>) {
    (
        setting.mode,
        setting.chosen_by,
        match setting.fallback_reason {
            Some(reason) => Some(reason@),
            None => None,
        },
    )
}

/// The mode to run in, given what was chosen and what the machine allows.
pub open spec fn settled(chosen: ReachModeSetting, found: Counting) -> (ReachMode, ChosenBy, Option<Seq<char>>) {
    if chosen.chosen_by == ChosenBy::Person && chosen.mode == ReachMode::Silent {
        (ReachMode::Silent, ChosenBy::Person, None)
    } else {
        match found {
            Counting::Available => (ReachMode::Counted, chosen.chosen_by, None),
            Counting::Unavailable { because } => (ReachMode::Silent, ChosenBy::Automatic, Some(because@)),
        }
    }
}

/// Work out the mode to run in: a person's choice of silence stands;
/// otherwise counted when counting is available, and silent, chosen
/// automatically and with the reason, when it is not.
pub fn settle(chosen: &ReachModeSetting, found: &Counting) -> (setting: ReachModeSetting)
    ensures
        setting_view(setting) == settled(*chosen, *found),
{
    if chosen.chosen_by == ChosenBy::Person && chosen.mode == ReachMode::Silent {
        return ReachModeSetting { mode: ReachMode::Silent, chosen_by: ChosenBy::Person, fallback_reason: None };
    }
    match found {
        Counting::Available => ReachModeSetting {
            mode: ReachMode::Counted,
            chosen_by: chosen.chosen_by,
            fallback_reason: None,
        },
        Counting::Unavailable { because } => ReachModeSetting {
            mode: ReachMode::Silent,
            chosen_by: ChosenBy::Automatic,
            fallback_reason: Some(because.clone()),
        },
    }
}

/// A person changing the mode themselves, in either direction.
pub fn choose_mode(mode: ReachMode) -> (setting: ReachModeSetting)
    ensures
        setting_view(setting) == (mode, ChosenBy::Person, None::<Seq<char>>),
{
    ReachModeSetting { mode, chosen_by: ChosenBy::Person, fallback_reason: None }
}

/// Settling is stable: settling an already settled mode against the same
/// machine gives the same mode again, and a person's choice, once made,
/// survives every later settling.
pub proof fn lemma_settling_is_stable(chosen: ReachModeSetting, found: Counting, again: ReachModeSetting)
    requires
        setting_view(again) == settled(chosen, found),
    ensures
        settled(again, found) == settled(chosen, found),
        chosen.chosen_by == ChosenBy::Person && chosen.mode == ReachMode::Silent ==> settled(again, found).0
            == ReachMode::Silent,
{
}

} // verus!
