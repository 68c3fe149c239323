//! Keeping a copy of a system file before Cairn changes it, and removing it
//! at the end.
//!
//! The copy is what makes every other privileged write reversible, so it is
//! taken before anything is modified and never overwritten, including when a
//! previous install left one behind: a second copy would capture Cairn's own
//! work as though it were the machine's. The helper process does the reading
//! and writing; this decides, after each thing it did, what it does next.
use vstd::prelude::*;
use crate::helper::applying::{file_unreachable, unreachable_text};
use crate::protocol::{Response, TroubleKind};
use crate::domain::splice::{
    applied, free_of_markers, lemma_apply_twice_then_remove_restores, outside_of, section_of, Section,
    SpliceError,
};
use crate::store::inventory::{digest_text, sha256_hex, target_label, Target};
use crate::text::{chars_of, push_str, same_chars, string_of};

verus! {

/// Where taking the copy has got to.
pub enum BackingUp {
    /// Waiting for the inventory.
    LoadingInventory,
    /// A copy is already there; waiting for it to be read.
    ReadingExisting,
    /// No copy yet; waiting for the file as it is now.
    ReadingOriginal,
    /// The copy is being written; `sha256` is the digest of what it holds.
    WritingCopy { sha256: String },
    /// The copy is being recorded in the inventory.
    Recording { sha256: String },
    /// Answered.
    Finished,
}

/// What the helper process reports after doing what it was asked.
pub enum BackupEvent {
    /// Whether the inventory records a copy of the target, and whether a
    /// copy's file is there anyway.
    InventoryLoaded { has_backup: bool, copy_exists: bool },
    /// The copy that was already there, as it reads.
    ExistingRead { bytes: Vec<u8> },
    /// The copy that was already there could not be read; the error as text.
    ExistingUnreadable { error: String },
    /// The target as it is now.
    OriginalRead { bytes: Vec<u8> },
    /// The copy is written.
    CopyWritten,
    /// The copy is recorded in the inventory.
    Recorded,
    /// The inventory could not be loaded or updated; its own sentence.
    StoreFailed { message: String },
    /// A file could not be read or written; the error as text.
    FileFailed { error: String },
}

/// What the helper process is to do next.
pub enum BackupAction {
    LoadInventory,
    ReadExisting,
    ReadOriginal,
    /// Write the copy's file with exactly these bytes.
    WriteCopy { bytes: Vec<u8> },
    /// Record the copy, with its digest, in the inventory.
    Record { sha256: String },
    Answer(Response),
}

/// The stages of taking the copy, without what they carry.
pub enum BackupPhase {
    Loading,
    ReadingExisting,
    ReadingOriginal,
    WritingCopy,
    Recording,
    Finished,
}

/// The stage `state` is at.
pub open spec fn backup_phase_of(state: BackingUp) -> BackupPhase {
    match state {
        BackingUp::LoadingInventory => BackupPhase::Loading,
        BackingUp::ReadingExisting => BackupPhase::ReadingExisting,
        BackingUp::ReadingOriginal => BackupPhase::ReadingOriginal,
        BackingUp::WritingCopy { .. } => BackupPhase::WritingCopy,
        BackingUp::Recording { .. } => BackupPhase::Recording,
        BackingUp::Finished => BackupPhase::Finished,
    }
}

/// The stage after `event` arrives at stage `phase`. Any event that is not
/// what the stage waits for, and every failure, ends it.
pub open spec fn backup_phase_after(phase: BackupPhase, event: BackupEvent) -> BackupPhase {
    match phase {
        BackupPhase::Loading => match event {
            BackupEvent::InventoryLoaded { has_backup, copy_exists } => if has_backup || copy_exists {
                BackupPhase::ReadingExisting
            } else {
                BackupPhase::ReadingOriginal
            },
            _ => BackupPhase::Finished,
        },
        BackupPhase::ReadingOriginal => match event {
            BackupEvent::OriginalRead { .. } => BackupPhase::WritingCopy,
            _ => BackupPhase::Finished,
        },
        BackupPhase::WritingCopy => match event {
            BackupEvent::CopyWritten => BackupPhase::Recording,
            _ => BackupPhase::Finished,
        },
        _ => BackupPhase::Finished,
    }
}

/// The stage after the helper process has reported `events`, in order,
/// from the start.
pub open spec fn backup_phase_of_run(events: Seq<BackupEvent>) -> BackupPhase
    decreases events.len(),
{
    if events.len() == 0 {
        BackupPhase::Loading
    } else {
        backup_phase_after(backup_phase_of_run(events.drop_last()), events.last())
    }
}

/// `event` is one of the reports that stage `state` waits for.
pub open spec fn backup_answers(state: BackingUp, event: BackupEvent) -> bool {
    match state {
        BackingUp::LoadingInventory => event is InventoryLoaded || event is StoreFailed,
        BackingUp::ReadingExisting => event is ExistingRead || event is ExistingUnreadable,
        BackingUp::ReadingOriginal => event is OriginalRead || event is FileFailed,
        BackingUp::WritingCopy { .. } => event is CopyWritten || event is FileFailed,
        BackingUp::Recording { .. } => event is Recorded || event is StoreFailed,
        BackingUp::Finished => false,
    }
}

/// The sentence when a copy is recorded but cannot be read.
pub open spec fn earlier_copy_text(target: Target, error: Seq<char>) -> Seq<char> {
    "Cairn has a record of an earlier copy of "@ + target_label(target) + " but cannot read it ("@ + error
        + "). Nothing has been changed."@
}

/// `action` answers with trouble of `kind`, in the words `text`.
pub open spec fn backup_refused(action: BackupAction, kind: TroubleKind, text: Seq<char>) -> bool {
    action matches BackupAction::Answer(Response::Trouble { message, kind: said }) && said == kind && message@ == text
}

/// The copy is never taken over one that is there: a run that has got as
/// far as writing the copy or recording it began with an inventory that
/// recorded no copy, with no copy's file there either, and wrote the bytes
/// of the file as it was then read.
pub proof fn lemma_copy_taken_once(events: Seq<BackupEvent>)
    ensures
        backup_phase_of_run(events) is WritingCopy || backup_phase_of_run(events) is Recording ==> events.len() >= 2
            && events[0] == (BackupEvent::InventoryLoaded { has_backup: false, copy_exists: false })
            && events[1] is OriginalRead,
    decreases events.len(),
{
    if events.len() > 0 {
        let before = events.drop_last();
        lemma_copy_taken_once(before);
        assert forall|i: int| 0 <= i < before.len() implies before[i] == events[i] by {}
        if backup_phase_of_run(events) is WritingCopy {
            if backup_phase_of_run(before) is ReadingOriginal {
                lemma_reading_original(before);
            }
        }
    }
}

/// Reading the original comes right after an inventory with no copy.
proof fn lemma_reading_original(events: Seq<BackupEvent>)
    ensures
        backup_phase_of_run(events) is ReadingOriginal ==> events.len() == 1 && events[0] == (
        BackupEvent::InventoryLoaded { has_backup: false, copy_exists: false }),
    decreases events.len(),
{
    if events.len() > 0 {
        let before = events.drop_last();
        lemma_reading_original(before);
        lemma_only_loading_at_start(before);
    }
}

/// Only the empty run is still loading.
proof fn lemma_only_loading_at_start(events: Seq<BackupEvent>)
    ensures
        backup_phase_of_run(events) is Loading <==> events.len() == 0,
    decreases events.len(),
{
    if events.len() > 0 {
        lemma_only_loading_at_start(events.drop_last());
    }
}

impl BackingUp {
    /// Where taking the copy starts: with the inventory.
    pub fn start() -> (begun: (BackingUp, BackupAction))
        ensures
            begun.0 is LoadingInventory,
            begun.1 is LoadInventory,
    {
        (BackingUp::LoadingInventory, BackupAction::LoadInventory)
    }

    /// Whether `event` is one of the reports this stage waits for.
    pub fn answered_by(&self, event: &BackupEvent) -> (fits: bool)
        ensures
            fits == backup_answers(*self, *event),
    {
        match self {
            BackingUp::LoadingInventory => match event {
                BackupEvent::InventoryLoaded { .. } | BackupEvent::StoreFailed { .. } => true,
                _ => false,
            },
            BackingUp::ReadingExisting => match event {
                BackupEvent::ExistingRead { .. } | BackupEvent::ExistingUnreadable { .. } => true,
                _ => false,
            },
            BackingUp::ReadingOriginal => match event {
                BackupEvent::OriginalRead { .. } | BackupEvent::FileFailed { .. } => true,
                _ => false,
            },
            BackingUp::WritingCopy { .. } => match event {
                BackupEvent::CopyWritten | BackupEvent::FileFailed { .. } => true,
                _ => false,
            },
            BackingUp::Recording { .. } => match event {
                BackupEvent::Recorded | BackupEvent::StoreFailed { .. } => true,
                _ => false,
            },
            BackingUp::Finished => false,
        }
    }

    /// The next stage and what to do, once `event` has been reported about
    /// `target`.
    pub fn advance(self, event: BackupEvent, target: Target) -> (next: (BackingUp, BackupAction))
        requires
            backup_answers(self, event),
        ensures
            backup_phase_of(next.0) == backup_phase_after(backup_phase_of(self), event),
            next.1 is WriteCopy <==> (next.0 is WritingCopy),
            next.1 is Record <==> (next.0 is Recording),
            next.1 is ReadExisting <==> (next.0 is ReadingExisting),
            next.1 is ReadOriginal <==> (next.0 is ReadingOriginal),
            next.1 is Answer <==> (next.0 is Finished),
            !(next.1 is LoadInventory),
            match event {
                BackupEvent::ExistingRead { bytes } => next.1 matches BackupAction::Answer(
                    Response::BackupWritten { written: false, sha256 },
                ) && sha256@ == digest_text(bytes@),
                BackupEvent::ExistingUnreadable { error } => backup_refused(
                    next.1,
                    TroubleKind::Unreachable,
                    earlier_copy_text(target, error@),
                ),
                BackupEvent::OriginalRead { bytes } => (next.1 matches BackupAction::WriteCopy { bytes: copy }
                    && copy@ == bytes@) && (next.0 matches BackingUp::WritingCopy { sha256 }
                    && sha256@ == digest_text(bytes@)),
                BackupEvent::CopyWritten => (self matches BackingUp::WritingCopy { sha256 }
                    && next.1 == BackupAction::Record { sha256 }),
                BackupEvent::Recorded => (self matches BackingUp::Recording { sha256 } && next.1
                    == BackupAction::Answer(Response::BackupWritten { written: true, sha256 })),
                BackupEvent::StoreFailed { message } => backup_refused(next.1, TroubleKind::Unreachable, message@),
                BackupEvent::FileFailed { error } => backup_refused(
                    next.1,
                    TroubleKind::Unreachable,
                    unreachable_text(error@),
                ),
                _ => true,
            },
    {
        match event {
            BackupEvent::InventoryLoaded { has_backup, copy_exists } => {
                if has_backup || copy_exists {
                    (BackingUp::ReadingExisting, BackupAction::ReadExisting)
                } else {
                    (BackingUp::ReadingOriginal, BackupAction::ReadOriginal)
                }
            },
            BackupEvent::ExistingRead { bytes } => (
                BackingUp::Finished,
                BackupAction::Answer(Response::BackupWritten { written: false, sha256: sha256_hex(bytes.as_slice()) }),
            ),
            BackupEvent::ExistingUnreadable { error } => {
                let mut out: Vec<char> = Vec::new();
                push_str(&mut out, "Cairn has a record of an earlier copy of ");
                push_str(&mut out, target.label());
                push_str(&mut out, " but cannot read it (");
                push_str(&mut out, error.as_str());
                push_str(&mut out, "). Nothing has been changed.");
                assert(out@ =~= earlier_copy_text(target, error@));
                (
                    BackingUp::Finished,
                    BackupAction::Answer(
                        Response::Trouble { message: string_of(out.as_slice()), kind: TroubleKind::Unreachable },
                    ),
                )
            },
            BackupEvent::OriginalRead { bytes } => {
                let sha256 = sha256_hex(bytes.as_slice());
                (BackingUp::WritingCopy { sha256 }, BackupAction::WriteCopy { bytes })
            },
            BackupEvent::CopyWritten => match self {
                BackingUp::WritingCopy { sha256 } => {
                    let recorded = sha256.clone();
                    (BackingUp::Recording { sha256 }, BackupAction::Record { sha256: recorded })
                },
                _ => vstd::pervasive::unreached(),
            },
            BackupEvent::Recorded => match self {
                BackingUp::Recording { sha256 } => (
                    BackingUp::Finished,
                    BackupAction::Answer(Response::BackupWritten { written: true, sha256 }),
                ),
                _ => vstd::pervasive::unreached(),
            },
            BackupEvent::StoreFailed { message } => (
                BackingUp::Finished,
                BackupAction::Answer(Response::Trouble { message, kind: TroubleKind::Unreachable }),
            ),
            BackupEvent::FileFailed { error } => (
                BackingUp::Finished,
                BackupAction::Answer(file_unreachable(error.as_str())),
            ),
        }
    }
}

/// Whether the target, reading `current` now, is back to how it was when
/// the copy whose digest was recorded as `recorded` was taken: whether the
/// digest of what it holds now is that digest. With no copy recorded nothing
/// was ever changed, so it is.
pub fn restored(recorded: Option<&String>, current: &[u8]) -> (matched: bool)
    ensures
        matched == match recorded {
            Some(digest) => digest@ == digest_text(current@),
            None => true,
        },
{
    match recorded {
        Some(digest) => {
            let now = sha256_hex(current);
            same_chars(&chars_of(digest.as_str()), &chars_of(now.as_str()))
        },
        None => true,
    }
}

/// The answer to removing the copy, and whether its record is to be
/// forgotten: only a copy that is gone has its record forgotten.
pub fn copy_removed(removed: bool, recorded: bool, restored_sha256_match: bool) -> (outcome: (Response, bool))
    ensures
        outcome.0 == (Response::BackupRemoved { removed, restored_sha256_match }),
        outcome.1 == (removed && recorded),
{
    (Response::BackupRemoved { removed, restored_sha256_match }, removed && recorded)
}

/// Taking the copy of a file that holds no section of Cairn's, writing
/// Cairn's section into it, writing it again, and removing it with what the
/// first write recorded gives the file back byte for byte. So what the file
/// holds then has the digest recorded when the copy was taken, and the check
/// made when the copy is removed finds the file restored.
pub proof fn lemma_teardown_finds_the_file_restored(original: Seq<u8>, first: Seq<u8>, second: Seq<u8>)
    requires
        section_of(original) == Ok::<Option<Section>, SpliceError>(None),
        free_of_markers(first),
        free_of_markers(second),
        original.len() + first.len() + second.len() + 400 <= usize::MAX,
    ensures
        applied(original, first) matches Ok((once, separator_added)) && {
            &&& applied(once, second) is Ok
            &&& outside_of(applied(once, second)->Ok_0.0, separator_added) == Ok::<Seq<u8>, SpliceError>(
                original,
            )
            &&& digest_text(outside_of(applied(once, second)->Ok_0.0, separator_added)->Ok_0) == digest_text(
                original,
            )
        },
{
    lemma_apply_twice_then_remove_restores(original, first, second);
}

} // verus!
