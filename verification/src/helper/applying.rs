//! Applying Cairn's section, one step at a time.
//!
//! The helper process does the reading and writing; this decides, after each
//! thing it did, what it does next. The order is the guarantee: nothing is
//! written until the inventory shows the true original is safe, the change is
//! recorded before the write when there is no record of it yet, and the
//! answer counts what the file holds on reading it back, never what was meant
//! to be written.
use vstd::prelude::*;
use crate::domain::entries::{domain_views, eol_bytes, hosts_body, string_views, Domain, ReachMode};
use crate::domain::normalize::shape_outcome;
use crate::domain::readback::{doubled, lemma_body_free_of_markers, lemma_region_names, lemma_valid_names_read_back};
use crate::domain::splice::{
    applied, lemma_applied_section, line_ending_outside, section_of, Section, SpliceError,
};
use crate::helper::verbs::{
    confirm_written, domains_in_section, left_alone_text, not_confirmed_text, plan_section, state_matches,
};
use crate::protocol::{Response, SectionState, TroubleKind};
use crate::store::inventory::{digest_text, sha256_hex};
use crate::text::{chars_of, push_chars, push_str, string_of};

verus! {

/// Where applying the section has got to.
pub enum Applying {
    /// Waiting for the inventory of what Cairn has done to this machine.
    LoadingInventory,
    /// The backup exists; waiting for the file as it is now. `recorded` is
    /// whether the inventory already holds a record of Cairn's section.
    ReadingOriginal { recorded: bool },
    /// The change is being recorded; `planned` is written once it is.
    Recording { planned: Vec<u8> },
    /// The new contents are being written.
    Writing,
    /// Reading back what was written.
    ReadingBack,
    /// Remembering what is now in force, for the heartbeat's repairs.
    Remembering { answer: Response },
    /// Answered.
    Finished,
}

/// What the helper process reports after doing what it was asked.
pub enum ApplyEvent {
    /// The inventory: whether a backup of the file exists, and whether
    /// Cairn's section is already recorded.
    InventoryLoaded { has_backup: bool, has_record: bool },
    /// The file as it was before this write.
    OriginalRead { bytes: Vec<u8> },
    /// The change is in the inventory.
    Recorded,
    /// The new contents are in place.
    Written,
    /// The file as it is after the write.
    ReadBack { bytes: Vec<u8> },
    /// What is in force has been remembered (as well as it could be).
    Remembered,
    /// The inventory could not be loaded or updated; its own sentence.
    StoreFailed { message: String },
    /// The file could not be read or written; the error as text.
    FileFailed { error: String },
}

/// What the helper process is to do next.
pub enum ApplyAction {
    LoadInventory,
    ReadOriginal,
    /// Record Cairn's section in the inventory, with whether a separator
    /// newline was added.
    Record { separator_added: bool },
    Write { bytes: Vec<u8> },
    ReadBack,
    /// Remember the entries and mode now in force.
    Remember,
    /// Answer the request with this.
    Answer(Response),
}

/// The stages of applying, without what they carry.
pub enum Phase {
    Loading,
    Reading { recorded: bool },
    Recording,
    Writing,
    ReadingBack,
    Remembering,
    Finished,
}

/// The stage `state` is at.
pub open spec fn phase_of(state: Applying) -> Phase {
    match state {
        Applying::LoadingInventory => Phase::Loading,
        Applying::ReadingOriginal { recorded } => Phase::Reading { recorded },
        Applying::Recording { .. } => Phase::Recording,
        Applying::Writing => Phase::Writing,
        Applying::ReadingBack => Phase::ReadingBack,
        Applying::Remembering { .. } => Phase::Remembering,
        Applying::Finished => Phase::Finished,
    }
}

/// The bytes that put `entries` into force in `original`, with whether a
/// separator was added.
pub open spec fn planned_for(original: Seq<u8>, entries: Seq<Seq<char>>, mode: ReachMode) -> Result<(Seq<u8>, bool), crate::domain::splice::SpliceError> {
    applied(original, hosts_body(entries, mode, line_ending_outside(original)))
}

/// A read-back of `after` confirms `count` entries: Cairn's section holds
/// two lines for each.
pub open spec fn confirms(after: Seq<u8>, count: int) -> bool {
    match domains_in_section(after) {
        Ok(found) => found.len() == 2 * count,
        Err(_) => false,
    }
}

/// The stage after `event` arrives at stage `phase`. Any event that is not
/// what the stage waits for, and every failure, ends it.
pub open spec fn phase_after(phase: Phase, event: ApplyEvent, entries: Seq<Seq<char>>, mode: ReachMode) -> Phase {
    match phase {
        Phase::Loading => match event {
            ApplyEvent::InventoryLoaded { has_backup, has_record } => if has_backup {
                Phase::Reading { recorded: has_record }
            } else {
                Phase::Finished
            },
            _ => Phase::Finished,
        },
        Phase::Reading { recorded } => match event {
            ApplyEvent::OriginalRead { bytes } => match planned_for(bytes@, entries, mode) {
                Ok(_) => if recorded {
                    Phase::Writing
                } else {
                    Phase::Recording
                },
                Err(_) => Phase::Finished,
            },
            _ => Phase::Finished,
        },
        Phase::Recording => match event {
            ApplyEvent::Recorded => Phase::Writing,
            _ => Phase::Finished,
        },
        Phase::Writing => match event {
            ApplyEvent::Written => Phase::ReadingBack,
            _ => Phase::Finished,
        },
        Phase::ReadingBack => match event {
            ApplyEvent::ReadBack { bytes, .. } => if confirms(bytes@, entries.len() as int) {
                Phase::Remembering
            } else {
                Phase::Finished
            },
            _ => Phase::Finished,
        },
        _ => Phase::Finished,
    }
}

/// The stage after the helper process has reported `events`, in order,
/// from the start.
pub open spec fn phase_of_run(events: Seq<ApplyEvent>, entries: Seq<Seq<char>>, mode: ReachMode) -> Phase
    decreases events.len(),
{
    if events.len() == 0 {
        Phase::Loading
    } else {
        phase_after(phase_of_run(events.drop_last(), entries, mode), events.last(), entries, mode)
    }
}

/// `event` is one of the reports that stage `state` waits for.
pub open spec fn answers(state: Applying, event: ApplyEvent) -> bool {
    match state {
        Applying::LoadingInventory => event is InventoryLoaded || event is StoreFailed,
        Applying::ReadingOriginal { .. } => event is OriginalRead || event is FileFailed,
        Applying::Recording { .. } => event is Recorded || event is StoreFailed,
        Applying::Writing => event is Written || event is FileFailed,
        Applying::ReadingBack => event is ReadBack || event is FileFailed,
        Applying::Remembering { .. } => event is Remembered,
        Applying::Finished => false,
    }
}

/// `action` answers with trouble of `kind`, in the words `text`.
pub open spec fn troubled(action: ApplyAction, kind: TroubleKind, text: Seq<char>) -> bool {
    action matches ApplyAction::Answer(Response::Trouble { message, kind: said }) && said == kind && message@ == text
}

/// `action` writes exactly `planned`.
pub open spec fn writes(action: ApplyAction, planned: Seq<u8>) -> bool {
    action matches ApplyAction::Write { bytes } && bytes@ == planned
}

/// `next` records the change, with `separator`, and keeps `planned` to write
/// once it is recorded.
pub open spec fn records_first(next: (Applying, ApplyAction), planned: Seq<u8>, separator: bool) -> bool {
    &&& next.1 matches ApplyAction::Record { separator_added } && separator_added == separator
    &&& next.0 matches Applying::Recording { planned: kept } && kept@ == planned
}

/// The sentence when no backup exists yet.
pub open spec fn no_backup_text() -> Seq<char> {
    "Cairn keeps a copy of the system's list of site addresses before it changes anything, and it has not made that copy yet. Nothing has been changed."@
}

/// The sentence when the system file could not be reached at all.
pub open spec fn unreachable_text(error: Seq<char>) -> Seq<char> {
    "Cairn could not open the system's list of site addresses ("@ + error
        + "). Nothing on this machine has been changed."@
}

/// The answer when the system file could not be reached at all.
pub fn file_unreachable(error: &str) -> (answer: Response)
    ensures
        answer matches Response::Trouble { message, kind } && kind == TroubleKind::Unreachable
            && message@ == unreachable_text(error@),
{
    let mut out: Vec<char> = Vec::new();
    push_str(&mut out, "Cairn could not open the system's list of site addresses (");
    push_str(&mut out, error);
    push_str(&mut out, "). Nothing on this machine has been changed.");
    assert(out@ =~= unreachable_text(error@));
    Response::Trouble { message: string_of(out.as_slice()), kind: TroubleKind::Unreachable }
}

/// The answer when no backup exists yet.
fn no_backup_yet() -> (answer: Response)
    ensures
        answer matches Response::Trouble { message, kind } && kind == TroubleKind::NoBackupYet
            && message@ == no_backup_text(),
{
    let mut out: Vec<char> = Vec::new();
    push_str(
        &mut out,
        "Cairn keeps a copy of the system's list of site addresses before it changes anything, and it has not made that copy yet. Nothing has been changed.",
    );
    Response::Trouble { message: string_of(out.as_slice()), kind: TroubleKind::NoBackupYet }
}

/// The run began with an inventory that showed the backup.
pub open spec fn opened(events: Seq<ApplyEvent>) -> bool {
    events.len() >= 1 && events[0] matches ApplyEvent::InventoryLoaded { has_backup: true, .. }
}

/// The first `n` events take a run that began with `opened` up to the write:
/// the original read, and the record made first when there was none.
pub open spec fn ready_to_write(events: Seq<ApplyEvent>, n: int) -> bool {
    match events[0] {
        ApplyEvent::InventoryLoaded { has_record, .. } => if has_record {
            n == 2 && events[1] is OriginalRead
        } else {
            n == 3 && events[1] is OriginalRead && events[2] is Recorded
        },
        _ => false,
    }
}

/// The inventory that began the run had no record of Cairn's section.
pub open spec fn unrecorded(events: Seq<ApplyEvent>) -> bool {
    events.len() >= 1 && events[0] matches ApplyEvent::InventoryLoaded { has_record: false, .. }
}

/// Every run from the start has one of these shapes, stage by stage.
proof fn lemma_run_shape(events: Seq<ApplyEvent>, entries: Seq<Seq<char>>, mode: ReachMode)
    ensures
        match phase_of_run(events, entries, mode) {
            Phase::Loading => events.len() == 0,
            Phase::Reading { recorded } => events.len() == 1 && events[0] == (ApplyEvent::InventoryLoaded {
                has_backup: true,
                has_record: recorded,
            }),
            Phase::Recording => opened(events) && events.len() == 2 && events[1] is OriginalRead
                && events[0] matches ApplyEvent::InventoryLoaded { has_record: false, .. },
            Phase::Writing => opened(events) && ready_to_write(events, events.len() as int),
            Phase::ReadingBack => opened(events) && ready_to_write(events, events.len() - 1)
                && events.last() is Written,
            Phase::Remembering => opened(events) && ready_to_write(events, events.len() - 2)
                && events[events.len() - 2] is Written && events.last() is ReadBack,
            Phase::Finished => true,
        },
    decreases events.len(),
{
    if events.len() > 0 {
        let before = events.drop_last();
        lemma_run_shape(before, entries, mode);
        assert forall|i: int| 0 <= i < before.len() implies before[i] == events[i] by {}
    }
}

/// Nothing is written before the true original is safe: a run that has got
/// as far as reading the file, recording the change, writing, checking or
/// remembering began with an inventory that showed the backup.
pub proof fn lemma_backup_before_writing(events: Seq<ApplyEvent>, entries: Seq<Seq<char>>, mode: ReachMode)
    ensures
        !(phase_of_run(events, entries, mode) is Loading) && !(phase_of_run(events, entries, mode) is Finished)
            ==> opened(events),
{
    lemma_run_shape(events, entries, mode);
}

/// A change with no record is recorded before it is written: when the
/// inventory had no record of Cairn's section, a run that has got as far as
/// the write recorded it first, right after reading the original.
pub proof fn lemma_recorded_before_writing(events: Seq<ApplyEvent>, entries: Seq<Seq<char>>, mode: ReachMode)
    ensures
        (phase_of_run(events, entries, mode) is Writing || phase_of_run(events, entries, mode) is ReadingBack
            || phase_of_run(events, entries, mode) is Remembering) && unrecorded(events)
            ==> events.len() >= 3 && events[2] is Recorded,
{
    lemma_run_shape(events, entries, mode);
}

/// Each name twice makes twice as many names.
proof fn lemma_doubled_len(names: Seq<Seq<char>>)
    ensures
        doubled(names).len() == 2 * names.len(),
        forall|t: Seq<char>| doubled(names).contains(t) <==> names.contains(t),
    decreases names.len(),
{
    if names.len() > 0 {
        let front = names.drop_last();
        lemma_doubled_len(front);
        let last = names.last();
        assert forall|t: Seq<char>| doubled(names).contains(t) <==> names.contains(t) by {
            let d = doubled(front);
            assert(doubled(names) == d.push(last).push(last));
            if doubled(names).contains(t) {
                let k = choose|k: int| 0 <= k < doubled(names).len() && doubled(names)[k] == t;
                if k < d.len() {
                    assert(d[k] == t);
                    assert(d.contains(t));
                    assert(front.contains(t));
                    let m = choose|m: int| 0 <= m < front.len() && front[m] == t;
                    assert(front[m] == names[m]);
                    assert(names.contains(t));
                } else {
                    assert(names[names.len() - 1] == t);
                    assert(names.contains(t));
                }
            }
            if names.contains(t) {
                let m = choose|m: int| 0 <= m < names.len() && names[m] == t;
                if m < front.len() {
                    assert(front[m] == names[m]);
                    assert(front.contains(t));
                    assert(d.contains(t));
                    let k = choose|k: int| 0 <= k < d.len() && d[k] == t;
                    assert(doubled(names)[k] == t);
                } else {
                    assert(doubled(names)[d.len() as int] == t);
                }
                assert(doubled(names).contains(t));
            }
        }
    }
}

/// What is found holds every expected name and nothing else, so a check
/// finds nothing missing, nothing unexpected, and no drift.
proof fn lemma_no_drift(state: SectionState, names: Seq<Seq<char>>)
    requires
        state_matches(state, doubled(names), names),
    ensures
        !state.drift,
{
    lemma_doubled_len(names);
    let found = doubled(names);
    let missing = string_views(state.missing@);
    let unexpected = string_views(state.unexpected@);
    if missing.len() > 0 {
        let t = missing[0];
        assert(missing.contains(t));
        assert(names.contains(t) && !found.contains(t));
        assert(false);
    }
    if unexpected.len() > 0 {
        let t = unexpected[0];
        assert(unexpected.contains(t));
        assert(found.contains(t) && !names.contains(t));
        assert(false);
    }
    assert(state.missing@.len() == missing.len());
    assert(state.unexpected@.len() == unexpected.len());
}

/// What an apply writes, its own read-back confirms: into any file whose
/// section of Cairn's can be read (none yet, or one from an earlier apply),
/// the bytes planned for valid names hold a section whose names are each
/// entry twice, in order, so the write is confirmed; and a check of those
/// bytes against the same entries finds no drift, so a repair right after
/// leaves them alone.
pub proof fn lemma_apply_confirmed(original: Seq<u8>, names: Seq<Seq<char>>, mode: ReachMode)
    requires
        section_of(original) is Ok,
        forall|i: int| 0 <= i < names.len() ==> shape_outcome(#[trigger] names[i]) is Ok,
        original.len() + hosts_body(names, mode, line_ending_outside(original)).len() + 200 <= usize::MAX,
    ensures
        planned_for(original, names, mode) matches Ok((bytes, _)) && domains_in_section(bytes) == Ok::<
            Seq<Seq<char>>,
            SpliceError,
        >(doubled(names)) && confirms(bytes, names.len() as int),
        forall|state: SectionState| state_matches(state, doubled(names), names) ==> !state.drift,
{
    let ending = line_ending_outside(original);
    let eol = eol_bytes(ending);
    let body = hosts_body(names, mode, ending);
    lemma_body_free_of_markers(names, mode, ending);
    let lead = lemma_applied_section(original, body);
    lemma_region_names(lead, body, eol);
    lemma_valid_names_read_back(names, mode, ending);
    lemma_doubled_len(names);
    assert forall|state: SectionState| state_matches(state, doubled(names), names) implies !state.drift by {
        lemma_no_drift(state, names);
    }
}

impl Applying {
    /// Where applying starts: with the inventory.
    pub fn start() -> (begun: (Applying, ApplyAction))
        ensures
            begun.0 is LoadingInventory,
            begun.1 is LoadInventory,
    {
        (Applying::LoadingInventory, ApplyAction::LoadInventory)
    }

    /// Whether `event` is one of the reports this stage waits for.
    pub fn answered_by(&self, event: &ApplyEvent) -> (fits: bool)
        ensures
            fits == answers(*self, *event),
    {
        match self {
            Applying::LoadingInventory => match event {
                ApplyEvent::InventoryLoaded { .. } | ApplyEvent::StoreFailed { .. } => true,
                _ => false,
            },
            Applying::ReadingOriginal { .. } => match event {
                ApplyEvent::OriginalRead { .. } | ApplyEvent::FileFailed { .. } => true,
                _ => false,
            },
            Applying::Recording { .. } => match event {
                ApplyEvent::Recorded | ApplyEvent::StoreFailed { .. } => true,
                _ => false,
            },
            Applying::Writing => match event {
                ApplyEvent::Written | ApplyEvent::FileFailed { .. } => true,
                _ => false,
            },
            Applying::ReadingBack => match event {
                ApplyEvent::ReadBack { .. } | ApplyEvent::FileFailed { .. } => true,
                _ => false,
            },
            Applying::Remembering { .. } => match event {
                ApplyEvent::Remembered => true,
                _ => false,
            },
            Applying::Finished => false,
        }
    }

    /// The next stage and what to do, once `event` has been reported.
    pub fn advance(self, event: ApplyEvent, entries: &[Domain], mode: ReachMode) -> (next: (Applying, ApplyAction))
        requires
            answers(self, event),
        ensures
            phase_of(next.0) == phase_after(phase_of(self), event, domain_views(entries@), mode),
            next.1 is Write <==> (next.0 is Writing),
            next.1 is Record <==> (next.0 is Recording),
            next.1 is Answer <==> (next.0 is Finished),
            next.1 is ReadOriginal <==> (next.0 is ReadingOriginal),
            next.1 is ReadBack <==> (next.0 is ReadingBack),
            next.1 is Remember <==> (next.0 is Remembering),
            !(next.1 is LoadInventory),
            match event {
                ApplyEvent::InventoryLoaded { has_backup, .. } => !has_backup ==> troubled(next.1, TroubleKind::NoBackupYet, no_backup_text()),
                ApplyEvent::OriginalRead { bytes } => match planned_for(bytes@, domain_views(entries@), mode) {
                    Err(problem) => troubled(next.1, TroubleKind::SectionUnreadable, left_alone_text(problem)),
                    Ok((planned, separator)) => writes(next.1, planned) || records_first(next, planned, separator),
                },
                ApplyEvent::Recorded => (self matches Applying::Recording { planned } && writes(next.1, planned@)),
                ApplyEvent::ReadBack { bytes } => match domains_in_section(bytes@) {
                    Err(problem) => troubled(next.1, TroubleKind::SectionUnreadable, left_alone_text(problem)),
                    Ok(found) => if found.len() == 2 * entries@.len() {
                        next.0 matches Applying::Remembering {
                            answer: Response::HostsApplied { verified_count, sha256_after },
                        } && verified_count == entries@.len() && sha256_after@ == digest_text(bytes@)
                    } else {
                        troubled(next.1, TroubleKind::NotVerified, not_confirmed_text())
                    },
                },
                ApplyEvent::Remembered => (self matches Applying::Remembering { answer } && next.1 == ApplyAction::Answer(answer)),
                ApplyEvent::StoreFailed { message } => troubled(next.1, TroubleKind::Unreachable, message@),
                ApplyEvent::FileFailed { error } => troubled(next.1, TroubleKind::Unreachable, unreachable_text(error@)),
                _ => true,
            },
    {
        match event {
            ApplyEvent::InventoryLoaded { has_backup, has_record } => {
                if has_backup {
                    (Applying::ReadingOriginal { recorded: has_record }, ApplyAction::ReadOriginal)
                } else {
                    (Applying::Finished, ApplyAction::Answer(no_backup_yet()))
                }
            },
            ApplyEvent::OriginalRead { bytes } => {
                let recorded = match self {
                    Applying::ReadingOriginal { recorded } => recorded,
                    _ => vstd::pervasive::unreached(),
                };
                match plan_section(bytes.as_slice(), entries, mode) {
                    Err(problem) => (
                        Applying::Finished,
                        ApplyAction::Answer(crate::helper::verbs::section_unreadable(problem)),
                    ),
                    Ok(spliced) => {
                        if recorded {
                            (Applying::Writing, ApplyAction::Write { bytes: spliced.bytes })
                        } else {
                            let separator_added = spliced.separator_added;
                            (
                                Applying::Recording { planned: spliced.bytes },
                                ApplyAction::Record { separator_added },
                            )
                        }
                    },
                }
            },
            ApplyEvent::Recorded => match self {
                Applying::Recording { planned } => (Applying::Writing, ApplyAction::Write { bytes: planned }),
                _ => vstd::pervasive::unreached(),
            },
            ApplyEvent::Written => (Applying::ReadingBack, ApplyAction::ReadBack),
            ApplyEvent::ReadBack { bytes } => {
                match confirm_written(bytes.as_slice(), entries.len()) {
                    Ok(verified_count) => (
                        Applying::Remembering {
                            answer: Response::HostsApplied {
                                verified_count,
                                sha256_after: sha256_hex(bytes.as_slice()),
                            },
                        },
                        ApplyAction::Remember,
                    ),
                    Err(answer) => (Applying::Finished, ApplyAction::Answer(answer)),
                }
            },
            ApplyEvent::Remembered => match self {
                Applying::Remembering { answer } => (Applying::Finished, ApplyAction::Answer(answer)),
                _ => vstd::pervasive::unreached(),
            },
            ApplyEvent::StoreFailed { message } => (
                Applying::Finished,
                ApplyAction::Answer(Response::Trouble { message, kind: TroubleKind::Unreachable }),
            ),
            ApplyEvent::FileFailed { error } => (
                Applying::Finished,
                ApplyAction::Answer(file_unreachable(error.as_str())),
            ),
        }
    }
}

} // verus!
