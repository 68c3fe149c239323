//! What protection actually is right now.
//!
//! Derived from the machine, never from intent. `NotVerified` is a state of
//! its own rather than an error on `InForce`: the interface must never show
//! "protected" from a write that returned success, only from a read-back that
//! matched.
use vstd::prelude::*;
use crate::services::Verification;

verus! {

#[derive(Clone, Copy, PartialEq, Eq, Debug, Structural)]
pub enum ProtectionStatus {
    Off,
    InForce,
    /// Cairn could not confirm what is on the machine: shown in its own
    /// words, never as protected.
    NotVerified,
}

#[derive(Clone, Copy, PartialEq, Eq, Debug, Structural)]
pub struct ProtectionState {
    pub status: ProtectionStatus,
    pub since: Option<i64>,
    /// When the system file was last read back and compared.
    pub verified_at: Option<i64>,
    /// What was actually found, not what was written.
    pub entry_count_verified: usize,
}

/// The state with protection off.
pub open spec fn off_state() -> ProtectionState {
    ProtectionState { status: ProtectionStatus::Off, since: None, verified_at: None, entry_count_verified: 0 }
}

/// The state a verification shows: in force only on a full match with the
/// expected count; off when nothing is expected and no section is there;
/// not verified otherwise.
pub open spec fn state_from(verification: Verification, expected_count: int, at: i64, since: Option<i64>) -> ProtectionState {
    if verification.agrees() && verification.entry_count == expected_count {
        ProtectionState {
            status: ProtectionStatus::InForce,
            since,
            verified_at: Some(at),
            entry_count_verified: verification.entry_count,
        }
    } else if !verification.section_present && expected_count == 0 {
        off_state()
    } else {
        ProtectionState {
            status: ProtectionStatus::NotVerified,
            since,
            verified_at: Some(at),
            entry_count_verified: verification.entry_count,
        }
    }
}

/// The sentence shown beside each status.
pub open spec fn status_summary(status: ProtectionStatus) -> Seq<char> {
    match status {
        ProtectionStatus::Off => "Protection is off."@,
        ProtectionStatus::InForce => "Protection is on, and Cairn has checked it."@,
        ProtectionStatus::NotVerified => "Cairn could not check protection just now, so it is not showing it as on. It will keep trying."@,
    }
}

impl ProtectionState {
    pub fn off() -> (state: ProtectionState)
        ensures
            state == off_state(),
    {
        ProtectionState { status: ProtectionStatus::Off, since: None, verified_at: None, entry_count_verified: 0 }
    }

    /// Read a verification into a state. Anything short of a match is
    /// `NotVerified`: there is no "mostly in force".
    pub fn from_verification(verification: &Verification, expected_count: usize, at: i64, since: Option<i64>) -> (state: ProtectionState)
        ensures
            state == state_from(*verification, expected_count as int, at, since),
    {
        if verification.matches() && verification.entry_count == expected_count {
            ProtectionState {
                status: ProtectionStatus::InForce,
                since,
                verified_at: Some(at),
                entry_count_verified: verification.entry_count,
            }
        } else if !verification.section_present && expected_count == 0 {
            ProtectionState::off()
        } else {
            ProtectionState {
                status: ProtectionStatus::NotVerified,
                since,
                verified_at: Some(at),
                entry_count_verified: verification.entry_count,
            }
        }
    }

    /// The sentence shown beside the state: plain, and never a word of
    /// failure.
    pub fn summary(&self) -> (text: &'static str)
        ensures
            text@ == status_summary(self.status),
    {
        match self.status {
            ProtectionStatus::Off => "Protection is off.",
            ProtectionStatus::InForce => "Protection is on, and Cairn has checked it.",
            ProtectionStatus::NotVerified => "Cairn could not check protection just now, so it is not showing it as on. It will keep trying.",
        }
    }
}

/// Protection is only ever shown as in force from a read-back that matched
/// what was expected, in full.
pub proof fn lemma_in_force_only_on_a_match(verification: Verification, expected_count: int, at: i64, since: Option<i64>)
    ensures
        state_from(verification, expected_count, at, since).status == ProtectionStatus::InForce
            <==> (verification.agrees() && verification.entry_count == expected_count),
{
}

/// Protection reads as off exactly when nothing is meant to be protected and
/// no section is there, and then it carries no times and no count. When entries are expected and the read-back does not
/// match them in full, whatever was found (a vanished section included), the
/// state is not verified: stamped with the time of the check and the time
/// protection was asked for, and holding the count actually found.
pub proof fn lemma_off_only_when_nothing_is_expected(
    verification: Verification,
    expected_count: int,
    at: i64,
    since: Option<i64>,
)
    ensures
        state_from(verification, expected_count, at, since).status == ProtectionStatus::Off ==> expected_count
            == 0 && !verification.section_present,
        expected_count == 0 && !verification.section_present ==> state_from(verification, expected_count, at, since)
            == (ProtectionState { status: ProtectionStatus::Off, since: None, verified_at: None, entry_count_verified: 0 }),
        expected_count > 0 && !(verification.agrees() && verification.entry_count == expected_count) ==> state_from(
            verification,
            expected_count,
            at,
            since,
        ) == (ProtectionState {
            status: ProtectionStatus::NotVerified,
            since,
            verified_at: Some(at),
            entry_count_verified: verification.entry_count,
        }),
{
}

} // verus!
