//! Putting protection into force, and keeping it there.
//!
//! The order is the guarantee: back up the true pre-Cairn state once, apply
//! Cairn's own marked section, verify by reading the file back (the only
//! thing protection state is derived from), then flush the resolver cache,
//! whose failure is reported and not fatal. The helper is asked by the
//! caller; each answer is read here.
use vstd::prelude::*;
use crate::enforcement::state::{state_from, ProtectionState, ProtectionStatus};
use crate::protocol::Response;
use crate::services::{trouble_saying, Outcome, Trouble, Verification};

verus! {

/// What happened, in enough detail to show and to log without naming a
/// domain.
#[derive(Clone, PartialEq, Eq, Debug)]
pub struct Applied {
    pub state: ProtectionState,
    /// Present when the resolver cache could not be cleared.
    pub flush_note: Option<String>,
}

/// The sentence for an answer that makes no sense for the question. The raw
/// answer is never shown: it would say nothing useful and could carry a
/// domain.
pub open spec fn unexpected_text() -> Seq<char> {
    "Cairn got an answer it did not understand from its background component. Nothing on this machine has been changed."@
}

/// The sentence when the cache could not be cleared.
pub open spec fn not_flushed_text() -> Seq<char> {
    "Cairn could not clear this machine's cache of site addresses, so a site you have just protected may still load for a short while."@
}

fn unexpected() -> (trouble: Trouble)
    ensures
        trouble.message@ == unexpected_text(),
{
    trouble_saying(
        "Cairn got an answer it did not understand from its background component. Nothing on this machine has been changed.",
    )
}

/// What the helper's answer to a backup request means: go on, or stop with
/// a sentence.
pub fn backup_answer(answer: Result<Response, Trouble>) -> (next: Result<(), Trouble>)
    ensures
        match answer {
            Ok(Response::BackupWritten { .. }) => next is Ok,
            Ok(Response::Trouble { message, .. }) => next matches Err(t) && t.message@ == message@,
            Ok(_) => next matches Err(t) && t.message@ == unexpected_text(),
            Err(trouble) => next matches Err(t) && t.message@ == trouble.message@,
        },
{
    match answer {
        Ok(Response::BackupWritten { .. }) => Ok(()),
        Ok(Response::Trouble { message, .. }) => Err(Trouble::new(message)),
        Ok(_) => Err(unexpected()),
        Err(trouble) => Err(trouble),
    }
}

/// What the helper's answer to writing the section means.
pub fn section_answer(answer: Result<Response, Trouble>) -> (next: Result<(), Trouble>)
    ensures
        match answer {
            Ok(Response::HostsApplied { .. }) => next is Ok,
            Ok(Response::Trouble { message, .. }) => next matches Err(t) && t.message@ == message@,
            Ok(_) => next matches Err(t) && t.message@ == unexpected_text(),
            Err(trouble) => next matches Err(t) && t.message@ == trouble.message@,
        },
{
    match answer {
        Ok(Response::HostsApplied { .. }) => Ok(()),
        Ok(Response::Trouble { message, .. }) => Err(Trouble::new(message)),
        Ok(_) => Err(unexpected()),
        Err(trouble) => Err(trouble),
    }
}

/// The note to show after asking for the cache to be cleared: the helper's
/// own note, its trouble, or a plain sentence when the answer was anything
/// else. Never fatal.
pub fn flush_answer(answer: Result<Response, Trouble>) -> (note: Option<String>)
    ensures
        match answer {
            Ok(Response::DnsFlushed { note: given, .. }) => match given {
                Some(text) => note matches Some(n) && n@ == text@,
                None => note is None,
            },
            Ok(Response::Trouble { message, .. }) => note matches Some(n) && n@ == message@,
            _ => note matches Some(n) && n@ == not_flushed_text(),
        },
{
    match answer {
        Ok(Response::DnsFlushed { note, .. }) => note,
        Ok(Response::Trouble { message, .. }) => Some(message),
        _ => Some(
            trouble_saying(
                "Cairn could not clear this machine's cache of site addresses, so a site you have just protected may still load for a short while.",
            ).message,
        ),
    }
}

/// What is in force, from a verification of the file: a check that could
/// not be made shows as not verified, never as protected.
pub fn current_state(
    verification: Outcome<Verification>,
    expected_count: usize,
    now: i64,
    since: Option<i64>,
) -> (state: ProtectionState)
    ensures
        match verification {
            Ok(found) => state == state_from(found, expected_count as int, now, since),
            Err(_) => state == (ProtectionState {
                status: ProtectionStatus::NotVerified,
                since,
                verified_at: None,
                entry_count_verified: 0,
            }),
        },
{
    match verification {
        Ok(found) => ProtectionState::from_verification(&found, expected_count, now, since),
        Err(_) => ProtectionState {
            status: ProtectionStatus::NotVerified,
            since,
            verified_at: None,
            entry_count_verified: 0,
        },
    }
}

/// Whether what is on the machine has drifted from what should be there.
pub fn has_drifted(verification: &Verification, expected_count: usize) -> (drifted: bool)
    ensures
        drifted == (!verification.agrees() || verification.entry_count != expected_count),
{
    !verification.matches() || verification.entry_count != expected_count
}

/// Drift is exactly what keeps a check from showing protection in force.
pub proof fn lemma_drift_is_not_in_force(verification: Verification, expected_count: int, at: i64, since: Option<i64>)
    ensures
        (!verification.agrees() || verification.entry_count != expected_count) <==> state_from(
            verification,
            expected_count,
            at,
            since,
        ).status != ProtectionStatus::InForce,
{
}

} // verus!
