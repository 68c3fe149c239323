//! Removing Cairn's section, one step at a time.
//!
//! The helper process does the reading and writing; this decides, after each
//! thing it did, what it does next. Every byte outside Cairn's markers stays
//! as it was, the answer reports what the file holds on reading it back, and
//! the record of the change is forgotten only once the section is gone.
use vstd::prelude::*;
use crate::domain::splice::{outside_of, remove, section_of};
use crate::helper::applying::{file_unreachable, unreachable_text};
use crate::helper::verbs::{left_alone_text, section_unreadable, still_present};
use crate::protocol::{Response, TroubleKind};
use crate::text::{push_str, string_of};

verus! {

/// Where removing the section has got to.
pub enum Removing {
    /// Waiting for the inventory of what Cairn has done to this machine.
    LoadingInventory,
    /// Waiting for the file as it is now. `separator_added` is whether Cairn
    /// added the newline before its section; `recorded` whether the inventory
    /// holds a record of the section.
    ReadingCurrent { separator_added: bool, recorded: bool },
    /// The file without Cairn's section is being written.
    Writing { recorded: bool },
    /// Reading back what was written.
    ReadingBack { recorded: bool },
    /// The section is gone; its record is being forgotten.
    Forgetting,
    /// Nothing is in force any more; the heartbeat's copy is being cleared.
    ClearingInForce,
    /// Answered.
    Finished,
}

/// What the helper process reports after doing what it was asked.
pub enum RemoveEvent {
    /// The inventory: whether Cairn added a separator newline, and whether it
    /// holds a record of Cairn's section.
    InventoryLoaded { separator_added: bool, has_record: bool },
    /// The file as it is now.
    CurrentRead { bytes: Vec<u8> },
    /// The new contents are in place.
    Written,
    /// The file as it is after the write.
    ReadBack { bytes: Vec<u8> },
    /// The record of the section is gone from the inventory.
    Forgotten,
    /// The heartbeat's copy of what is in force is gone (as well as it could
    /// be).
    InForceCleared,
    /// The inventory could not be loaded or updated; its own sentence.
    StoreFailed { message: String },
    /// The file could not be read or written; the error as text.
    FileFailed { error: String },
}

/// What the helper process is to do next.
pub enum RemoveAction {
    LoadInventory,
    ReadCurrent,
    Write { bytes: Vec<u8> },
    ReadBack,
    /// Forget the record of Cairn's section.
    Forget,
    /// Clear the heartbeat's copy of what is in force.
    ClearInForce,
    /// Answer the request with this.
    Answer(Response),
}

/// The stages of removing, without what they carry.
pub enum RemovePhase {
    Loading,
    Reading { separator_added: bool, recorded: bool },
    Writing { recorded: bool },
    ReadingBack { recorded: bool },
    Forgetting,
    Clearing,
    Finished,
}

/// The stage `state` is at.
pub open spec fn remove_phase_of(state: Removing) -> RemovePhase {
    match state {
        Removing::LoadingInventory => RemovePhase::Loading,
        Removing::ReadingCurrent { separator_added, recorded } => RemovePhase::Reading { separator_added, recorded },
        Removing::Writing { recorded } => RemovePhase::Writing { recorded },
        Removing::ReadingBack { recorded } => RemovePhase::ReadingBack { recorded },
        Removing::Forgetting => RemovePhase::Forgetting,
        Removing::ClearingInForce => RemovePhase::Clearing,
        Removing::Finished => RemovePhase::Finished,
    }
}

/// `bytes` holds Cairn's section (read confidently).
pub open spec fn holds_section(bytes: Seq<u8>) -> bool {
    section_of(bytes) matches Ok(Some(_))
}

/// The stage after `event` arrives at stage `phase`. Any event that is not
/// what the stage waits for, and every failure, ends it.
pub open spec fn remove_phase_after(phase: RemovePhase, event: RemoveEvent) -> RemovePhase {
    match phase {
        RemovePhase::Loading => match event {
            RemoveEvent::InventoryLoaded { separator_added, has_record } => RemovePhase::Reading {
                separator_added,
                recorded: has_record,
            },
            _ => RemovePhase::Finished,
        },
        RemovePhase::Reading { separator_added, recorded } => match event {
            RemoveEvent::CurrentRead { bytes } => if outside_of(bytes@, separator_added) is Ok {
                RemovePhase::Writing { recorded }
            } else {
                RemovePhase::Finished
            },
            _ => RemovePhase::Finished,
        },
        RemovePhase::Writing { recorded } => match event {
            RemoveEvent::Written => RemovePhase::ReadingBack { recorded },
            _ => RemovePhase::Finished,
        },
        RemovePhase::ReadingBack { recorded } => match event {
            RemoveEvent::ReadBack { bytes } => if !holds_section(bytes@) && recorded {
                RemovePhase::Forgetting
            } else {
                RemovePhase::Finished
            },
            _ => RemovePhase::Finished,
        },
        RemovePhase::Forgetting => match event {
            RemoveEvent::Forgotten => RemovePhase::Clearing,
            _ => RemovePhase::Finished,
        },
        _ => RemovePhase::Finished,
    }
}

/// The stage after the helper process has reported `events`, in order,
/// from the start.
pub open spec fn remove_phase_of_run(events: Seq<RemoveEvent>) -> RemovePhase
    decreases events.len(),
{
    if events.len() == 0 {
        RemovePhase::Loading
    } else {
        remove_phase_after(remove_phase_of_run(events.drop_last()), events.last())
    }
}

/// `event` is one of the reports that stage `state` waits for.
pub open spec fn remove_answers(state: Removing, event: RemoveEvent) -> bool {
    match state {
        Removing::LoadingInventory => event is InventoryLoaded || event is StoreFailed,
        Removing::ReadingCurrent { .. } => event is CurrentRead || event is FileFailed,
        Removing::Writing { .. } => event is Written || event is FileFailed,
        Removing::ReadingBack { .. } => event is ReadBack || event is FileFailed,
        Removing::Forgetting => event is Forgotten || event is StoreFailed,
        Removing::ClearingInForce => event is InForceCleared,
        Removing::Finished => false,
    }
}

/// What remains when Cairn's section could not be removed.
pub open spec fn section_residue() -> Seq<char> {
    "Cairn's own section in the system's list of site addresses"@
}

/// `action` answers with trouble of `kind`, in the words `text`.
pub open spec fn refused(action: RemoveAction, kind: TroubleKind, text: Seq<char>) -> bool {
    action matches RemoveAction::Answer(Response::Trouble { message, kind: said }) && said == kind && message@ == text
}

/// `action` answers that the section is gone, with nothing left behind.
pub open spec fn answers_gone(action: RemoveAction) -> bool {
    action matches RemoveAction::Answer(Response::HostsRemoved { removed: true, residue }) && residue@.len() == 0
}

/// `action` answers that the section is still there, naming it as residue.
pub open spec fn answers_still_there(action: RemoveAction) -> bool {
    action matches RemoveAction::Answer(Response::HostsRemoved { removed: false, residue }) && residue@.len() == 1
        && residue@[0]@ == section_residue()
}

/// The answer that the section is gone.
fn gone() -> (answer: Response)
    ensures
        answers_gone(RemoveAction::Answer(answer)),
{
    Response::HostsRemoved { removed: true, residue: Vec::new() }
}

/// The read-back at position `i` of `events` shows no section of Cairn's.
pub open spec fn read_back_clean(events: Seq<RemoveEvent>, i: int) -> bool {
    &&& 0 <= i < events.len()
    &&& events[i] matches RemoveEvent::ReadBack { bytes } && !holds_section(bytes@)
}

/// The inventory that began the run held a record of Cairn's section.
pub open spec fn began_recorded(events: Seq<RemoveEvent>) -> bool {
    began_with(events, true)
}

/// The inventory that began the run said `recorded`.
pub open spec fn began_with(events: Seq<RemoveEvent>, recorded: bool) -> bool {
    &&& events.len() >= 1
    &&& events[0] matches RemoveEvent::InventoryLoaded { has_record, .. } && has_record == recorded
}

/// Every run from the start has one of these shapes, stage by stage.
proof fn lemma_remove_run_shape(events: Seq<RemoveEvent>)
    ensures
        match remove_phase_of_run(events) {
            RemovePhase::Loading => events.len() == 0,
            RemovePhase::Reading { separator_added, recorded } => events.len() == 1 && events[0] == (
            RemoveEvent::InventoryLoaded { separator_added, has_record: recorded }),
            RemovePhase::Writing { recorded } => events.len() == 2 && events[1] is CurrentRead
                && began_with(events, recorded),
            RemovePhase::ReadingBack { recorded } => events.len() == 3 && events[1] is CurrentRead
                && events[2] is Written && began_with(events, recorded),
            RemovePhase::Forgetting => events.len() == 4 && began_recorded(events) && read_back_clean(events, 3),
            RemovePhase::Clearing => events.len() == 5 && began_recorded(events) && read_back_clean(events, 3)
                && events[4] is Forgotten,
            RemovePhase::Finished => true,
        },
    decreases events.len(),
{
    if events.len() > 0 {
        let before = events.drop_last();
        lemma_remove_run_shape(before);
        assert forall|i: int| 0 <= i < before.len() implies before[i] == events[i] by {}
    }
}

/// The record of Cairn's section is forgotten only once the file, read back
/// after the write, holds no section of Cairn's: a run that has got as far
/// as forgetting (or clearing what is in force) began with an inventory that
/// held the record and read back a file without the section.
pub proof fn lemma_forgotten_only_when_gone(events: Seq<RemoveEvent>)
    ensures
        remove_phase_of_run(events) is Forgetting || remove_phase_of_run(events) is Clearing ==> began_recorded(events)
            && read_back_clean(events, 3),
{
    lemma_remove_run_shape(events);
}

impl Removing {
    /// Where removing starts: with the inventory.
    pub fn start() -> (begun: (Removing, RemoveAction))
        ensures
            begun.0 is LoadingInventory,
            begun.1 is LoadInventory,
    {
        (Removing::LoadingInventory, RemoveAction::LoadInventory)
    }

    /// Whether `event` is one of the reports this stage waits for.
    pub fn answered_by(&self, event: &RemoveEvent) -> (fits: bool)
        ensures
            fits == remove_answers(*self, *event),
    {
        match self {
            Removing::LoadingInventory => match event {
                RemoveEvent::InventoryLoaded { .. } | RemoveEvent::StoreFailed { .. } => true,
                _ => false,
            },
            Removing::ReadingCurrent { .. } => match event {
                RemoveEvent::CurrentRead { .. } | RemoveEvent::FileFailed { .. } => true,
                _ => false,
            },
            Removing::Writing { .. } => match event {
                RemoveEvent::Written | RemoveEvent::FileFailed { .. } => true,
                _ => false,
            },
            Removing::ReadingBack { .. } => match event {
                RemoveEvent::ReadBack { .. } | RemoveEvent::FileFailed { .. } => true,
                _ => false,
            },
            Removing::Forgetting => match event {
                RemoveEvent::Forgotten | RemoveEvent::StoreFailed { .. } => true,
                _ => false,
            },
            Removing::ClearingInForce => match event {
                RemoveEvent::InForceCleared => true,
                _ => false,
            },
            Removing::Finished => false,
        }
    }

    /// The next stage and what to do, once `event` has been reported.
    pub fn advance(self, event: RemoveEvent) -> (next: (Removing, RemoveAction))
        requires
            remove_answers(self, event),
        ensures
            remove_phase_of(next.0) == remove_phase_after(remove_phase_of(self), event),
            next.1 is Write <==> (next.0 is Writing),
            next.1 is ReadCurrent <==> (next.0 is ReadingCurrent),
            next.1 is ReadBack <==> (next.0 is ReadingBack),
            next.1 is Forget <==> (next.0 is Forgetting),
            next.1 is ClearInForce <==> (next.0 is ClearingInForce),
            next.1 is Answer <==> (next.0 is Finished),
            !(next.1 is LoadInventory),
            match event {
                RemoveEvent::InventoryLoaded { separator_added, has_record } => next.0 == (Removing::ReadingCurrent {
                    separator_added,
                    recorded: has_record,
                }),
                RemoveEvent::CurrentRead { bytes } => self matches Removing::ReadingCurrent { separator_added, recorded }
                    && match outside_of(bytes@, separator_added) {
                    Err(problem) => refused(next.1, TroubleKind::SectionUnreadable, left_alone_text(problem)),
                    Ok(without) => next.1 matches RemoveAction::Write { bytes: written } && written@ == without,
                },
                RemoveEvent::ReadBack { bytes } => if holds_section(bytes@) {
                    answers_still_there(next.1)
                } else {
                    self matches Removing::ReadingBack { recorded } && (recorded ==> next.1 is Forget)
                        && (!recorded ==> answers_gone(next.1))
                },
                RemoveEvent::InForceCleared => answers_gone(next.1),
                RemoveEvent::StoreFailed { message } => refused(next.1, TroubleKind::Unreachable, message@),
                RemoveEvent::FileFailed { error } => refused(next.1, TroubleKind::Unreachable, unreachable_text(error@)),
                _ => true,
            },
    {
        match event {
            RemoveEvent::InventoryLoaded { separator_added, has_record } => (
                Removing::ReadingCurrent { separator_added, recorded: has_record },
                RemoveAction::ReadCurrent,
            ),
            RemoveEvent::CurrentRead { bytes } => {
                let (separator_added, recorded) = match self {
                    Removing::ReadingCurrent { separator_added, recorded } => (separator_added, recorded),
                    _ => vstd::pervasive::unreached(),
                };
                match remove(bytes.as_slice(), separator_added) {
                    Ok(without) => (Removing::Writing { recorded }, RemoveAction::Write { bytes: without }),
                    Err(problem) => (Removing::Finished, RemoveAction::Answer(section_unreadable(problem))),
                }
            },
            RemoveEvent::Written => {
                let recorded = match self {
                    Removing::Writing { recorded } => recorded,
                    _ => vstd::pervasive::unreached(),
                };
                (Removing::ReadingBack { recorded }, RemoveAction::ReadBack)
            },
            RemoveEvent::ReadBack { bytes } => {
                let recorded = match self {
                    Removing::ReadingBack { recorded } => recorded,
                    _ => vstd::pervasive::unreached(),
                };
                if still_present(bytes.as_slice()) {
                    let mut text: Vec<char> = Vec::new();
                    push_str(&mut text, "Cairn's own section in the system's list of site addresses");
                    let mut residue: Vec<String> = Vec::new();
                    residue.push(string_of(text.as_slice()));
                    (
                        Removing::Finished,
                        RemoveAction::Answer(Response::HostsRemoved { removed: false, residue }),
                    )
                } else if recorded {
                    (Removing::Forgetting, RemoveAction::Forget)
                } else {
                    (Removing::Finished, RemoveAction::Answer(gone()))
                }
            },
            RemoveEvent::Forgotten => (Removing::ClearingInForce, RemoveAction::ClearInForce),
            RemoveEvent::InForceCleared => (Removing::Finished, RemoveAction::Answer(gone())),
            RemoveEvent::StoreFailed { message } => (
                Removing::Finished,
                RemoveAction::Answer(Response::Trouble { message, kind: TroubleKind::Unreachable }),
            ),
            RemoveEvent::FileFailed { error } => (
                Removing::Finished,
                RemoveAction::Answer(file_unreachable(error.as_str())),
            ),
        }
    }
}

} // verus!
