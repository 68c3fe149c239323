//! What the interface is shown, as plain values.
//!
//! The application loads settings, asks the helper and touches files; these
//! functions turn what came back into what the interface shows, in the
//! words it shows them.
use vstd::prelude::*;
use crate::domain::dates::{decimal, push_decimal};
use crate::domain::entries::{category_label, CategoryId, Trail};
use crate::domain::gate::{clamp_u64, remaining_seconds, uuid_bytes, PendingChange, PendingKind, TrustedClock};
use crate::store::inventory::lower_hex;
use crate::enforcement::reduce::{duration_text, plain_duration};
use crate::enforcement::seed::CategoryList;
use crate::protocol::Response;
use crate::services::{HelperStatus, Trouble};
use crate::store::config::ProtectionIntent;
use crate::store::gaps::Gap;
use crate::link::{not_reachable, not_reachable_text};
use crate::text::{push_str, string_of};

verus! {

/// A category as the interface shows it.
#[derive(Clone, PartialEq, Eq, Debug)]
pub struct CategoryPreset {
    pub id: CategoryId,
    pub label: String,
    pub enabled: bool,
    /// How many addresses are in the person's own copy.
    pub entry_count: usize,
    /// True once they have changed it.
    pub edited: bool,
}

/// What Cairn says plainly about what it does and does not cover, assembled
/// from what is true on this machine.
#[derive(Clone, PartialEq, Eq, Debug)]
pub struct Disclosures {
    /// Protections in force in this release.
    pub in_force: Vec<String>,
    /// What is not covered, named rather than implied.
    pub not_covered: Vec<String>,
    /// Whether the background component is installed, and what it is for.
    pub helper: String,
    /// What encryption at rest protects against, and what it does not.
    pub encryption: String,
    /// The administrator caveat, stated plainly.
    pub administrator: String,
}

/// A change that is waiting, as the interface shows it: the time left is a
/// rough phrase, not a countdown.
#[derive(Clone, PartialEq, Eq, Debug)]
pub struct PendingView {
    pub id: String,
    /// What it would do, in plain words.
    pub what: String,
    pub time_remaining: String,
    pub eligible_now: bool,
}

/// One reach, as the interface shows it: where, and when.
#[derive(Clone, PartialEq, Eq, Debug)]
pub struct ReachView {
    pub domain: String,
    pub at: i64,
}

/// A day's reaches, with what Cairn did not see.
#[derive(Clone, PartialEq, Eq, Debug)]
pub struct TodaysReaches {
    pub reaches: Vec<ReachView>,
    pub gaps: Vec<Gap>,
    /// Shown above the list when part of the day was not observed.
    pub coverage_note: Option<String>,
    /// Present when the history could not be opened. Protection is
    /// unaffected, and the sentence says so.
    pub sealed: Option<String>,
}

/// What a pending change would do, in words a person would use.
pub open spec fn change_description(kind: PendingKind) -> Seq<char> {
    match kind {
        PendingKind::TurnOffProtection => "Turn protection off"@,
        PendingKind::RemoveEntries { domains } => if domains@.len() == 1 {
            "Stop protecting "@ + domains@[0]@
        } else {
            "Stop protecting "@ + decimal(domains@.len()) + " addresses"@
        },
        PendingKind::DisableCategory { category } => "Switch the "@ + category_label(category) + " list off"@,
    }
}

/// What a pending change would do, in words a person would use.
pub fn what_it_would_do(kind: &PendingKind) -> (text: String)
    ensures
        text@ == change_description(*kind),
{
    let mut out: Vec<char> = Vec::new();
    match kind {
        PendingKind::TurnOffProtection => {
            push_str(&mut out, "Turn protection off");
        },
        PendingKind::RemoveEntries { domains } => {
            push_str(&mut out, "Stop protecting ");
            if domains.len() == 1 {
                push_str(&mut out, domains[0].as_str());
            } else {
                push_decimal(&mut out, domains.len() as u64);
                push_str(&mut out, " addresses");
            }
        },
        PendingKind::DisableCategory { category } => {
            push_str(&mut out, "Switch the ");
            push_str(&mut out, category.label());
            push_str(&mut out, " list off");
        },
    }
    string_of(out.as_slice())
}

/// An identifier's sixteen bytes written as its text: lowercase hexadecimal,
/// in groups of 4, 2, 2, 2 and 6 bytes joined by hyphens.
pub open spec fn hyphenated_hex(bytes: Seq<u8>) -> Seq<char> {
    lower_hex(bytes.subrange(0, 4)) + seq!['-'] + lower_hex(bytes.subrange(4, 6)) + seq!['-']
        + lower_hex(bytes.subrange(6, 8)) + seq!['-'] + lower_hex(bytes.subrange(8, 10)) + seq!['-']
        + lower_hex(bytes.subrange(10, 16))
}

/// `uuid::Uuid`'s `to_string`, which writes the identifier's sixteen bytes
/// hyphenated in lowercase hexadecimal (its `Display` is its `LowerHex`, the
/// hyphenated form).
#[verifier::external_body]
fn id_text(id: &uuid::Uuid) -> (text: String)
    ensures
        text@ == hyphenated_hex(uuid_bytes(*id)),
{
    id.to_string()
}

/// A waiting change as the interface shows it, against the trusted clock at
/// `trusted_now`: what it would do, roughly how long is left, and whether it
/// may be applied now.
pub fn pending_view(pending: &PendingChange, trusted_now: u64) -> (view: PendingView)
    ensures
        view.id@ == hyphenated_hex(uuid_bytes(pending.id)),
        view.what@ == change_description(pending.kind),
        view.time_remaining@ == duration_text(clamp_u64(pending.eligible_after_trusted - trusted_now) as nat),
        view.eligible_now == (pending.eligible_after_trusted <= trusted_now),
{
    let remaining = remaining_seconds(pending, trusted_now);
    PendingView {
        id: id_text(&pending.id),
        what: what_it_would_do(&pending.kind),
        time_remaining: plain_duration(remaining),
        eligible_now: remaining == 0,
    }
}

/// Whether `categories` holds `id`.
fn holds_category(categories: &Vec<CategoryId>, id: CategoryId) -> (found: bool)
    ensures
        found == categories@.contains(id),
{
    let mut i: usize = 0;
    while i < categories.len()
        invariant
            i <= categories@.len(),
            forall|k: int| 0 <= k < i ==> categories@[k] != id,
        decreases categories.len() - i,
    {
        if categories[i] == id {
            assert(categories@[i as int] == id);
            return true;
        }
        i = i + 1;
    }
    false
}

/// A category as the interface shows it: its label, whether the trail has
/// it switched on, and how many addresses the person's copy holds and
/// whether it was changed (none and no, while there is no copy).
pub fn category_preset(id: CategoryId, trail: &Trail, list: Option<&CategoryList>) -> (preset: CategoryPreset)
    ensures
        preset.id == id,
        preset.label@ == category_label(id),
        preset.enabled == trail.enabled_categories@.contains(id),
        preset.entry_count == match list {
            Some(list) => list.domains@.len(),
            None => 0,
        },
        preset.edited == match list {
            Some(list) => list.edited,
            None => false,
        },
{
    let mut label: Vec<char> = Vec::new();
    push_str(&mut label, id.label());
    let (entry_count, edited) = match list {
        Some(list) => (list.domains.len(), list.edited),
        None => (0, false),
    };
    CategoryPreset {
        id,
        label: string_of(label.as_slice()),
        enabled: holds_category(&trail.enabled_categories, id),
        entry_count,
        edited,
    }
}

/// The sentence about the background component, by its status.
pub open spec fn helper_text(status: HelperStatus) -> Seq<char> {
    match status {
        HelperStatus::Installed { .. } => "Cairn runs a small background component so it can keep protection in force and put it back if something changes it. It is installed once, with your permission, and removed completely when you remove Cairn."@,
        HelperStatus::NotInstalled => "Cairn will ask once for permission to install a small background component. It is what keeps protection in force without asking you again, and it is removed completely when you remove Cairn."@,
        HelperStatus::Unsupported { .. } => "On this machine Cairn cannot run its background component, so it cannot put protection back on its own if something changes it. What you have protected stays protected."@,
    }
}

/// What is in force in this release.
pub open spec fn in_force_texts() -> Seq<Seq<char>> {
    seq![
        "Protected sites are blocked for every application on this machine that uses the system's own address lookup."@,
        "Cairn checks its own work every minute and puts it back if something changes it."@,
    ]
}

/// What is not covered in this release.
pub open spec fn not_covered_texts() -> Seq<Seq<char>> {
    seq![
        "An application that looks up addresses on its own, rather than asking this machine, is not covered in this release. Some browsers can be set to do that."@,
        "A browser that has already loaded a site may keep showing it from its own cache for a short while."@,
    ]
}

/// What encryption at rest does and does not protect against.
pub open spec fn encryption_text() -> Seq<char> {
    "What Cairn records is encrypted on this machine. That protects it if the drive is copied or the machine is lost. It does not protect it from someone using this machine while it is unlocked."@
}

/// The administrator caveat.
pub open spec fn administrator_text() -> Seq<char> {
    "Someone with administrator access to this machine can undo what Cairn does. Cairn is a wall to walk away from, not a lock."@
}

/// A string holding `text`.
pub(crate) fn sentence(text: &str) -> (said: String)
    ensures
        said@ == text@,
{
    let mut out: Vec<char> = Vec::new();
    push_str(&mut out, text);
    string_of(out.as_slice())
}

/// What is true about coverage on this machine, in this release, given the
/// background component's status.
pub fn disclosures(status: &HelperStatus) -> (told: Disclosures)
    ensures
        told.in_force@.len() == 2,
        told.in_force@[0]@ == in_force_texts()[0],
        told.in_force@[1]@ == in_force_texts()[1],
        told.not_covered@.len() == 2,
        told.not_covered@[0]@ == not_covered_texts()[0],
        told.not_covered@[1]@ == not_covered_texts()[1],
        told.helper@ == helper_text(*status),
        told.encryption@ == encryption_text(),
        told.administrator@ == administrator_text(),
{
    let helper = match status {
        HelperStatus::Installed { .. } => sentence(
            "Cairn runs a small background component so it can keep protection in force and put it back if something changes it. It is installed once, with your permission, and removed completely when you remove Cairn.",
        ),
        HelperStatus::NotInstalled => sentence(
            "Cairn will ask once for permission to install a small background component. It is what keeps protection in force without asking you again, and it is removed completely when you remove Cairn.",
        ),
        HelperStatus::Unsupported { .. } => sentence(
            "On this machine Cairn cannot run its background component, so it cannot put protection back on its own if something changes it. What you have protected stays protected.",
        ),
    };
    let mut in_force: Vec<String> = Vec::new();
    in_force.push(
        sentence(
            "Protected sites are blocked for every application on this machine that uses the system's own address lookup.",
        ),
    );
    in_force.push(sentence("Cairn checks its own work every minute and puts it back if something changes it."));
    let mut not_covered: Vec<String> = Vec::new();
    not_covered.push(
        sentence(
            "An application that looks up addresses on its own, rather than asking this machine, is not covered in this release. Some browsers can be set to do that.",
        ),
    );
    not_covered.push(
        sentence("A browser that has already loaded a site may keep showing it from its own cache for a short while."),
    );
    Disclosures {
        in_force,
        not_covered,
        helper,
        encryption: sentence(
            "What Cairn records is encrypted on this machine. That protects it if the drive is copied or the machine is lost. It does not protect it from someone using this machine while it is unlocked.",
        ),
        administrator: sentence(
            "Someone with administrator access to this machine can undo what Cairn does. Cairn is a wall to walk away from, not a lock.",
        ),
    }
}

/// The advance-only clock the waiting period is measured against, from the
/// helper's answer to reading it. It comes from the helper and never from
/// the system clock: trouble, or any other answer, means no clock, and no
/// reduction can be applied.
pub fn clock_from(asked: Result<Response, Trouble>) -> (clock: Result<TrustedClock, Trouble>)
    ensures
        match asked {
            Err(trouble) => clock == Err::<TrustedClock, Trouble>(trouble),
            Ok(Response::TrustedClock { trusted_seconds, last_heartbeat_wall, .. }) => clock == Ok::<
                TrustedClock,
                Trouble,
            >(TrustedClock { trusted_seconds, last_wall_seconds: last_heartbeat_wall, last_monotonic_seconds: 0 }),
            Ok(Response::Trouble { message, .. }) => clock matches Err(trouble) && trouble.message@ == message@,
            Ok(_) => clock matches Err(trouble) && trouble.message@ == not_reachable_text(),
        },
{
    match asked {
        Err(trouble) => Err(trouble),
        Ok(Response::TrustedClock { trusted_seconds, last_heartbeat_wall, .. }) => Ok(
            TrustedClock { trusted_seconds, last_wall_seconds: last_heartbeat_wall, last_monotonic_seconds: 0 },
        ),
        Ok(Response::Trouble { message, .. }) => Err(Trouble::new(message)),
        Ok(_) => Err(not_reachable()),
    }
}

/// The sentence when a reduction is asked for while `existing` waits, with
/// `remaining` seconds left on it.
pub open spec fn already_waiting_text(existing: PendingKind, remaining: nat) -> Seq<char> {
    "One change is already waiting: "@ + change_description(existing) + ". It takes effect in "@ + duration_text(
        remaining,
    ) + ". You can keep things as they are on the protection screen, and then ask for this instead."@
}

/// The answer when a reduction is asked for while `existing` waits: what
/// waits, and roughly when it takes effect on the trusted clock at
/// `trusted_now`.
pub fn already_waiting(existing: &PendingChange, trusted_now: u64) -> (trouble: Trouble)
    ensures
        trouble.message@ == already_waiting_text(
            existing.kind,
            clamp_u64(existing.eligible_after_trusted - trusted_now) as nat,
        ),
{
    let what = what_it_would_do(&existing.kind);
    let when = plain_duration(remaining_seconds(existing, trusted_now));
    let mut out: Vec<char> = Vec::new();
    push_str(&mut out, "One change is already waiting: ");
    push_str(&mut out, what.as_str());
    push_str(&mut out, ". It takes effect in ");
    push_str(&mut out, when.as_str());
    push_str(&mut out, ". You can keep things as they are on the protection screen, and then ask for this instead.");
    Trouble::new(string_of(out.as_slice()))
}

/// The sentence when deleting data is asked for while protection is on.
pub open spec fn still_protecting_text() -> Seq<char> {
    "Protection is on, so Cairn is keeping what it needs to keep it on. Ask to turn protection off on the protection screen \u{2014} it takes a day \u{2014} and you can delete everything after that."@
}

/// Deleting a person's data is refused while protection is meant to be on:
/// otherwise it would be an instant way to switch protection off. `None`
/// means deleting may go ahead.
pub fn deletion_refused(intent: ProtectionIntent) -> (refused: Option<Trouble>)
    ensures
        intent == ProtectionIntent::On <==> refused is Some,
        refused matches Some(trouble) ==> trouble.message@ == still_protecting_text(),
{
    match intent {
        ProtectionIntent::On => Some(
            Trouble::new(
                sentence(
                    "Protection is on, so Cairn is keeping what it needs to keep it on. Ask to turn protection off on the protection screen \u{2014} it takes a day \u{2014} and you can delete everything after that.",
                ),
            ),
        ),
        ProtectionIntent::Off => None,
    }
}

/// What was deleted, named, in the order it was deleted.
pub open spec fn deleted_texts(settings: bool, lists: bool, history: bool) -> Seq<Seq<char>> {
    (if settings {
        seq!["your settings and what you chose to protect"@]
    } else {
        Seq::empty()
    }) + (if lists {
        seq!["your own copies of the category lists"@]
    } else {
        Seq::empty()
    }) + (if history {
        seq!["everything Cairn recorded about the sites you reached for"@]
    } else {
        Seq::empty()
    }) + seq!["the key that kept your history sealed"@]
}

/// The report of deleting a person's data: only what was actually removed
/// is named (the settings, the copies of the lists, the history, each when
/// its file was there and is not any more), and the key last. Trouble
/// removing the key is reported instead.
pub fn deletion_report(settings: bool, lists: bool, history: bool, key: Result<(), Trouble>) -> (report: Result<
    Vec<String>,
    Trouble,
>)
    ensures
        match key {
            Err(trouble) => report == Err::<Vec<String>, Trouble>(trouble),
            Ok(()) => report matches Ok(names) && crate::domain::entries::string_views(names@) == deleted_texts(
                settings,
                lists,
                history,
            ),
        },
{
    match key {
        Err(trouble) => Err(trouble),
        Ok(()) => {
            let mut names: Vec<String> = Vec::new();
            if settings {
                names.push(sentence("your settings and what you chose to protect"));
            }
            let ghost one = names@;
            if lists {
                names.push(sentence("your own copies of the category lists"));
            }
            let ghost two = names@;
            if history {
                names.push(sentence("everything Cairn recorded about the sites you reached for"));
            }
            let ghost three = names@;
            names.push(sentence("the key that kept your history sealed"));
            assert(crate::domain::entries::string_views(names@) =~= deleted_texts(settings, lists, history));
            Ok(names)
        },
    }
}

/// The sentence when this build keeps no history.
pub open spec fn history_not_kept_text() -> Seq<char> {
    "This build of Cairn does not keep a history. Protection is unaffected."@
}

/// A day's reaches when this build keeps no history: nothing to show, and
/// the sentence that says why.
pub fn history_not_kept() -> (day: TodaysReaches)
    ensures
        day.reaches@.len() == 0,
        day.gaps@.len() == 0,
        day.coverage_note is None,
        day.sealed matches Some(text) && text@ == history_not_kept_text(),
{
    TodaysReaches {
        reaches: Vec::new(),
        gaps: Vec::new(),
        coverage_note: None,
        sealed: Some(sentence("This build of Cairn does not keep a history. Protection is unaffected.")),
    }
}

} // verus!
