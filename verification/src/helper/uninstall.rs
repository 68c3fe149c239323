//! Everything Cairn did, undone, and what could not be.
//!
//! The helper walks the inventory backwards and undoes each change; this
//! turns what each undoing answered into the report. What could not be
//! removed is reported as residue rather than rounded down to success. The
//! helper's own installation is left for the application to remove last, so
//! it is neither undone here nor reported as residue.
//!
//! The same holds for the helper's other answers that report on the
//! machine: a cache flush that did not happen, and a counting port that
//! something else holds, are said plainly.
use vstd::prelude::*;
use crate::domain::dates::{decimal, push_decimal};
use crate::protocol::{CountingSockets, Response};
use crate::store::inventory::{target_label, Target};
use crate::domain::entries::string_views;
use crate::text::{push_str, string_of};

verus! {

/// One change from the inventory, and what undoing it answered.
pub enum Undone {
    /// Cairn's section in the hosts file; `label` names the change.
    HostsSection { answer: Response, label: String },
    /// The copy kept of a system file; `label` names the change.
    Backup { answer: Response, label: String },
    /// The helper's own installation, which the application removes last.
    HelperInstalled,
}

/// The residue when a file was restored but does not match its copy.
pub open spec fn not_exact_text() -> Seq<char> {
    target_label(Target::SystemHosts)
        + " is not exactly as it was before Cairn \u{2014} the copy Cairn kept has been left in place so nothing is lost"@
}

/// What undoing one change left behind, in words.
pub open spec fn residue_of(undone: Undone) -> Seq<Seq<char>> {
    match undone {
        Undone::HostsSection { answer, label } => match answer {
            Response::HostsRemoved { removed, residue } => if removed && residue@.len() == 0 {
                Seq::empty()
            } else {
                string_views(residue@)
            },
            Response::Trouble { message, .. } => seq![message@],
            _ => seq![label@],
        },
        Undone::Backup { answer, label } => match answer {
            Response::BackupRemoved { removed: true, restored_sha256_match: true } => Seq::empty(),
            Response::BackupRemoved { removed: true, restored_sha256_match: false } => seq![not_exact_text()],
            _ => seq![label@],
        },
        Undone::HelperInstalled => Seq::empty(),
    }
}

/// What undoing all of `undone`, in order, left behind.
pub open spec fn residue_of_all(undone: Seq<Undone>) -> Seq<Seq<char>>
    decreases undone.len(),
{
    if undone.len() == 0 {
        Seq::empty()
    } else {
        residue_of_all(undone.drop_last()) + residue_of(undone.last())
    }
}

/// Append `items`.
fn push_all(out: &mut Vec<String>, items: Vec<String>)
    ensures
        string_views(final(out)@) == string_views(old(out)@) + string_views(items@),
{
    let mut i: usize = 0;
    while i < items.len()
        invariant
            i <= items@.len(),
            string_views(out@) == string_views(old(out)@) + string_views(items@).subrange(0, i as int),
        decreases items.len() - i,
    {
        let ghost before = out@;
        out.push(items[i].clone());
        assert(string_views(out@) =~= string_views(before).push(items@[i as int]@));
        assert(string_views(items@).subrange(0, i + 1) =~= string_views(items@).subrange(0, i as int).push(
            items@[i as int]@,
        ));
        i = i + 1;
    }
    assert(string_views(items@).subrange(0, items@.len() as int) =~= string_views(items@));
}

/// What undoing one change left behind.
fn residue_for(undone: Undone) -> (residue: Vec<String>)
    ensures
        string_views(residue@) == residue_of(undone),
{
    let mut out: Vec<String> = Vec::new();
    match undone {
        Undone::HostsSection { answer, label } => match answer {
            Response::HostsRemoved { removed, residue } => {
                if removed && residue.len() == 0 {
                    assert(string_views(out@) =~= Seq::<Seq<char>>::empty());
                } else {
                    push_all(&mut out, residue);
                    assert(string_views(out@) =~= string_views(residue@));
                }
            },
            Response::Trouble { message, .. } => {
                out.push(message);
                assert(string_views(out@) =~= seq![message@]);
            },
            _ => {
                out.push(label);
                assert(string_views(out@) =~= seq![label@]);
            },
        },
        Undone::Backup { answer, label } => match answer {
            Response::BackupRemoved { removed: true, restored_sha256_match: true } => {
                assert(string_views(out@) =~= Seq::<Seq<char>>::empty());
            },
            Response::BackupRemoved { removed: true, restored_sha256_match: false } => {
                let mut text: Vec<char> = Vec::new();
                push_str(&mut text, Target::SystemHosts.label());
                push_str(
                    &mut text,
                    " is not exactly as it was before Cairn \u{2014} the copy Cairn kept has been left in place so nothing is lost",
                );
                assert(text@ =~= not_exact_text());
                let sentence = string_of(text.as_slice());
                out.push(sentence);
                assert(string_views(out@) =~= seq![sentence@]);
            },
            _ => {
                out.push(label);
                assert(string_views(out@) =~= seq![label@]);
            },
        },
        Undone::HelperInstalled => {
            assert(string_views(out@) =~= Seq::<Seq<char>>::empty());
        },
    }
    out
}

/// The answer to uninstalling, from what undoing each change answered (in
/// the order they were undone): everything left behind is named, and the
/// removal is complete only when nothing was.
pub fn uninstalled(undone: Vec<Undone>) -> (answer: Response)
    ensures
        answer matches Response::Uninstalled { removed, residue } && string_views(residue@) == residue_of_all(
            undone@,
        ) && removed == (residue_of_all(undone@).len() == 0),
{
    let ghost all = undone@;
    let count = undone.len();
    let mut residue: Vec<String> = Vec::new();
    let mut rest = undone;
    let mut done: usize = 0;
    while rest.len() > 0
        invariant
            done + rest@.len() == all.len(),
            all.len() == count,
            rest@ == all.subrange(done as int, all.len() as int),
            string_views(residue@) == residue_of_all(all.subrange(0, done as int)),
        decreases rest@.len(),
    {
        let next = rest.remove(0);
        assert(next == all[done as int]);
        assert(all.subrange(0, done + 1).drop_last() =~= all.subrange(0, done as int));
        assert(all.subrange(0, done + 1).last() == all[done as int]);
        let found = residue_for(next);
        push_all(&mut residue, found);
        done = done + 1;
        assert(rest@ =~= all.subrange(done as int, all.len() as int));
    }
    assert(all.subrange(0, all.len() as int) =~= all);
    let removed = residue.len() == 0;
    Response::Uninstalled { removed, residue }
}

/// The note when no cache of site addresses could be cleared.
pub open spec fn no_flush_text() -> Seq<char> {
    "Nothing on this machine keeps a cache of site addresses that Cairn can clear, so a site you have just protected may still load from a cache for a short while."@
}

/// The answer to flushing the cache of site addresses, given the mechanism
/// that succeeded, if any did.
pub fn dns_flushed(mechanism: Option<String>) -> (answer: Response)
    ensures
        match mechanism {
            Some(name) => answer == (Response::DnsFlushed { flushed: true, mechanism: name, note: None }),
            None => answer matches Response::DnsFlushed { flushed: false, mechanism: name, note: Some(note) }
                && name@ == "none"@ && note@ == no_flush_text(),
        },
{
    match mechanism {
        Some(name) => Response::DnsFlushed { flushed: true, mechanism: name, note: None },
        None => {
            let mut name: Vec<char> = Vec::new();
            push_str(&mut name, "none");
            let mut note: Vec<char> = Vec::new();
            push_str(
                &mut note,
                "Nothing on this machine keeps a cache of site addresses that Cairn can clear, so a site you have just protected may still load from a cache for a short while.",
            );
            Response::DnsFlushed {
                flushed: false,
                mechanism: string_of(name.as_slice()),
                note: Some(string_of(note.as_slice())),
            }
        },
    }
}

/// The reason counting is off when something else holds `port`.
pub open spec fn port_taken_text(port: u16) -> Seq<char> {
    "Something else on this machine is already using port "@ + decimal(port as nat)
        + ", so Cairn is not counting the sites you reach for. Everything you have protected is still protected."@
}

/// The answer when something else already holds `port`: nothing is held,
/// and counting is off.
pub fn port_taken(port: u16) -> (answer: Response)
    ensures
        answer matches Response::CountingSockets(CountingSockets::Conflict { reason }) && reason@ == port_taken_text(
            port,
        ),
{
    let mut out: Vec<char> = Vec::new();
    push_str(&mut out, "Something else on this machine is already using port ");
    push_decimal(&mut out, port as u64);
    push_str(
        &mut out,
        ", so Cairn is not counting the sites you reach for. Everything you have protected is still protected.",
    );
    Response::CountingSockets(CountingSockets::Conflict { reason: string_of(out.as_slice()) })
}

} // verus!
