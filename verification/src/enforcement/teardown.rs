//! Putting the machine back exactly as it was.
//!
//! The helper undoes everything it did first, verified as it goes, and is
//! removed last: a helper removed early is a helper that cannot undo the
//! rest. What could not be removed is reported as residue, never rounded down
//! to success. The caller asks; the answers are read here.
use vstd::prelude::*;
use crate::domain::dates::{decimal, push_decimal};
use crate::protocol::Response;
use crate::services::{trouble_saying, Outcome, Removal, Trouble};
use crate::text::{push_str, string_of};

verus! {

/// What teardown actually left behind.
#[derive(Clone, PartialEq, Eq, Debug)]
pub struct TeardownReport {
    /// True only when nothing at all is left.
    pub complete: bool,
    /// Everything Cairn could not remove, in words a person can act on.
    pub residue: Vec<String>,
    /// What Cairn checked, so the report is a statement rather than a claim.
    pub confirmed: Vec<String>,
}

/// The sentence shown after teardown.
pub open spec fn teardown_summary(complete: bool, residue_count: nat) -> Seq<char> {
    if complete {
        "This machine is back to how it was before Cairn. What Cairn did not write is untouched."@
    } else {
        "Cairn removed what it could. "@ + decimal(residue_count)
            + " thing(s) are still here, listed below, so you can decide what to do with them."@
    }
}

impl TeardownReport {
    /// The sentence shown after teardown. It reports; it does not
    /// congratulate.
    pub fn summary(&self) -> (text: String)
        ensures
            text@ == teardown_summary(self.complete, self.residue@.len()),
    {
        let mut out: Vec<char> = Vec::new();
        if self.complete {
            push_str(
                &mut out,
                "This machine is back to how it was before Cairn. What Cairn did not write is untouched.",
            );
        } else {
            push_str(&mut out, "Cairn removed what it could. ");
            push_decimal(&mut out, self.residue.len() as u64);
            push_str(
                &mut out,
                " thing(s) are still here, listed below, so you can decide what to do with them.",
            );
        }
        assert(out@ =~= teardown_summary(self.complete, self.residue@.len()));
        string_of(out.as_slice())
    }
}

/// The views of a list of strings.
pub open spec fn texts(strings: Seq<String>) -> Seq<Seq<char>> {
    strings.map_values(|s: String| s@)
}

/// What the helper's answer to undoing everything adds: what it confirmed
/// and what it left behind.
pub open spec fn uninstall_outcome(answer: Response) -> (Seq<Seq<char>>, Seq<Seq<char>>) {
    match answer {
        Response::Uninstalled { removed, residue } => (
            if removed {
                seq!["The system's list of site addresses is exactly as it was before Cairn."@]
            } else {
                Seq::empty()
            },
            texts(residue@),
        ),
        Response::Trouble { message, .. } => (Seq::empty(), seq![message@]),
        _ => (Seq::empty(), seq!["Cairn could not confirm that its changes to this machine were undone."@]),
    }
}

/// What removing the helper itself adds.
pub open spec fn removal_outcome(removal: Outcome<Removal>) -> (Seq<Seq<char>>, Seq<Seq<char>>) {
    match removal {
        Ok(removal) => (
            if removal.removed && removal.residue@.len() == 0 {
                seq!["The background component has been removed."@]
            } else {
                Seq::empty()
            },
            texts(removal.residue@),
        ),
        Err(trouble) => (Seq::empty(), seq![trouble.message@]),
    }
}

/// Append copies of `extra` to `out`.
fn extend_texts(out: &mut Vec<String>, extra: Vec<String>)
    ensures
        texts(final(out)@) == texts(old(out)@) + texts(extra@),
{
    let mut i: usize = 0;
    let ghost start = out@;
    while i < extra.len()
        invariant
            i <= extra@.len(),
            texts(out@) == texts(start) + texts(extra@.subrange(0, i as int)),
        decreases extra.len() - i,
    {
        let ghost before = out@;
        out.push(extra[i].clone());
        assert(texts(out@) =~= texts(before).push(extra@[i as int]@));
        assert(texts(extra@.subrange(0, i + 1)) =~= texts(extra@.subrange(0, i as int)).push(extra@[i as int]@));
        i = i + 1;
    }
    assert(extra@.subrange(0, extra@.len() as int) =~= extra@);
}

/// The report a teardown gives, from the helper's answer to undoing
/// everything and the outcome of removing the helper itself, in that order.
/// Complete exactly when nothing was left behind. (A helper that cannot be
/// asked at all is trouble for the caller, before any of this.)
pub fn teardown_report(uninstall: Response, removal: Outcome<Removal>) -> (report: TeardownReport)
    ensures
        texts(report.confirmed@) == uninstall_outcome(uninstall).0 + removal_outcome(removal).0,
        texts(report.residue@) == uninstall_outcome(uninstall).1 + removal_outcome(removal).1,
        report.complete == (report.residue@.len() == 0),
{
    let mut residue: Vec<String> = Vec::new();
    let mut confirmed: Vec<String> = Vec::new();
    let ghost first = uninstall_outcome(uninstall);
    let ghost second = removal_outcome(removal);
    match uninstall {
        Response::Uninstalled { removed, residue: left } => {
            if removed {
                confirmed.push(
                    trouble_saying("The system's list of site addresses is exactly as it was before Cairn.").message,
                );
            }
            extend_texts(&mut residue, left);
        },
        Response::Trouble { message, .. } => {
            residue.push(message);
        },
        _ => {
            residue.push(
                trouble_saying("Cairn could not confirm that its changes to this machine were undone.").message,
            );
        },
    }
    assert(texts(confirmed@) =~= first.0);
    assert(texts(residue@) =~= first.1);
    let ghost residue_before = residue@;
    let ghost confirmed_before = confirmed@;
    match removal {
        Ok(removal) => {
            if removal.is_clean() {
                confirmed.push(trouble_saying("The background component has been removed.").message);
            }
            extend_texts(&mut residue, removal.residue);
        },
        Err(trouble) => {
            residue.push(trouble.message);
        },
    }
    assert(texts(confirmed@) =~= first.0 + second.0);
    assert(texts(residue@) =~= first.1 + second.1);
    let complete = residue.len() == 0;
    TeardownReport { complete, residue, confirmed }
}

} // verus!
