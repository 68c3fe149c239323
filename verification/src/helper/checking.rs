//! Checking Cairn's section, and deciding whether to put it back.
//!
//! Protection state comes from a read-back and from nowhere else. The helper
//! reads the file; this says what it holds compared with what should be
//! there, and whether a silent repair is due.
use vstd::prelude::*;
use crate::domain::entries::{domain_views, Domain};
use crate::domain::splice::splice_error_text;
use crate::helper::verbs::{domains_in_section, section_domains, section_state, state_matches};
use crate::protocol::{Response, TroubleKind};
use crate::text::{chars_of, push_chars, push_str, string_of};

verus! {

/// The sentence when Cairn's own section could not be read confidently.
pub open spec fn unconfident_text(problem: crate::domain::splice::SpliceError) -> Seq<char> {
    "Cairn could not read its own section confidently, because "@ + splice_error_text(problem) + "."@
}

/// The answer to a request to verify Cairn's section, given the file as it
/// is now and the domains that should be in force.
pub fn verification_answer(current: &[u8], expected: &[Domain]) -> (answer: Response)
    ensures
        match domains_in_section(current@) {
            Err(problem) => answer matches Response::Trouble { message, kind }
                && kind == TroubleKind::SectionUnreadable && message@ == unconfident_text(problem),
            Ok(found) => answer matches Response::HostsVerified(state)
                && state_matches(state, found, domain_views(expected@)),
        },
{
    match section_domains(current) {
        Ok(found) => Response::HostsVerified(section_state(found.as_slice(), expected)),
        Err(problem) => {
            let mut out: Vec<char> = Vec::new();
            push_str(&mut out, "Cairn could not read its own section confidently, because ");
            let text = problem.to_string();
            push_chars(&mut out, &chars_of(text.as_str()));
            push_str(&mut out, ".");
            assert(out@ =~= unconfident_text(problem));
            Response::Trouble { message: string_of(out.as_slice()), kind: TroubleKind::SectionUnreadable }
        },
    }
}

/// What a repair does after verifying.
pub enum RepairNext {
    /// Nothing more to do: answer with this.
    Answer(Response),
    /// The section has drifted: apply it again.
    Apply,
}

/// What a repair of `entry_count` entries does with the answer to
/// verifying: nothing when there is no drift (and says so), apply again
/// when there is, and pass any trouble on as it is.
pub fn repair_next(verified: Response, entry_count: usize) -> (next: RepairNext)
    ensures
        match verified {
            Response::HostsVerified(state) => if state.drift {
                next is Apply
            } else {
                next == RepairNext::Answer(Response::HostsRepaired { repaired: false, verified_count: entry_count })
            },
            other => next == RepairNext::Answer(other),
        },
{
    match verified {
        Response::HostsVerified(state) => {
            if state.drift {
                RepairNext::Apply
            } else {
                RepairNext::Answer(Response::HostsRepaired { repaired: false, verified_count: entry_count })
            }
        },
        other => RepairNext::Answer(other),
    }
}

/// The answer to a repair, given the answer to applying again: a confirmed
/// apply is a repair of what it confirmed; anything else is passed on.
pub fn repaired(applied: Response) -> (answer: Response)
    ensures
        match applied {
            Response::HostsApplied { verified_count, .. } => answer == (Response::HostsRepaired {
                repaired: true,
                verified_count,
            }),
            other => answer == other,
        },
{
    match applied {
        Response::HostsApplied { verified_count, .. } => Response::HostsRepaired { repaired: true, verified_count },
        other => other,
    }
}

} // verus!
