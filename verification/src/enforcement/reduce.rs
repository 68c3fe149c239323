//! The one route to protecting less.
//!
//! Turning protection off, removing an entry and switching a category off are
//! all reductions, and every one of them comes through here: nothing reduces
//! without an eligible pending change, protection stays fully in force for
//! the whole wait, and cancelling is always available. Increases never come
//! through here.
use vstd::prelude::*;
use crate::domain::dates::{decimal, push_decimal};
use crate::domain::entries::{
    domain_views, entries_well_formed, entries_without, sources_in_order, text_less,
    without_source, lemma_without_source, lemma_text_less_total, www_prefix, CategoryId, Domain, EntryView,
    ProtectedEntry, SourceRef, Trail, categories_in_order, category_index,
};
use crate::domain::gate::{
    clamp_u64, eligible, is_eligible, kind_view, pending_view, remaining_seconds, same_id,
    same_kind, eligible_from, PendingChange, PendingKind, TrustedClock,
};
use crate::services::{trouble_saying, Trouble};
use crate::store::config::{Config, ProtectionIntent};
use crate::text::{push_chars, push_str, starts_with, string_of};

verus! {

/// Something else is already waiting: one change at a time, and the person
/// is told which.
#[derive(PartialEq, Eq, Debug)]
pub struct AlreadyWaiting {
    pub existing: PendingChange,
}

/// Ask for a reduction. Nothing on the machine changes. Asking again for the
/// same thing returns the change already waiting rather than starting its
/// clock over; asking for something different while one waits is refused,
/// naming the change that waits. A new change waits under `id`, a fresh
/// random identifier.
pub fn request(
    config: &mut Config,
    kind: PendingKind,
    clock: &TrustedClock,
    wall_seconds: i64,
    id: uuid::Uuid,
) -> (asked: Result<PendingChange, AlreadyWaiting>)
    ensures
        match old(config).pending_change {
            Some(existing) => {
                &&& *final(config) == *old(config)
                &&& if kind_view(existing.kind) == kind_view(kind) {
                    asked matches Ok(pending) && pending_view(pending) == pending_view(existing)
                } else {
                    asked matches Err(refused) && pending_view(refused.existing) == pending_view(existing)
                }
            },
            None => asked matches Ok(pending) && {
                &&& pending.id == id
                &&& kind_view(pending.kind) == kind_view(kind)
                &&& pending.requested_at_wall == wall_seconds
                &&& pending.trusted_clock_at_request == clock.trusted_seconds
                &&& pending.eligible_after_trusted == eligible_from(clock.trusted_seconds)
                &&& final(config).pending_change matches Some(stored) && pending_view(stored) == pending_view(pending)
                &&& final(config).intent == old(config).intent
                &&& final(config).trail == old(config).trail
                &&& final(config).reach_mode == old(config).reach_mode
            },
        },
{
    match &config.pending_change {
        Some(existing) => {
            if same_kind(&existing.kind, &kind) {
                return Ok(existing.clone());
            }
            return Err(AlreadyWaiting { existing: existing.clone() });
        },
        None => {},
    }
    let pending = PendingChange::request(kind, clock, wall_seconds, id);
    config.pending_change = Some(pending.clone());
    Ok(pending)
}

/// The sentence when the change to cancel is not the one waiting.
pub open spec fn not_waiting_text() -> Seq<char> {
    "That change is not waiting any more. Nothing has changed."@
}

/// Call it off. Always available, for the whole wait.
pub fn cancel(config: &mut Config, id: uuid::Uuid) -> (cancelled: Result<(), Trouble>)
    ensures
        match old(config).pending_change {
            Some(pending) if pending.id == id => cancelled is Ok && final(config).pending_change is None
                && final(config).intent == old(config).intent && final(config).trail == old(config).trail
                && final(config).reach_mode == old(config).reach_mode,
            _ => cancelled matches Err(trouble) && trouble.message@ == not_waiting_text()
                && *final(config) == *old(config),
        },
{
    let waiting = match &config.pending_change {
        Some(pending) => same_id(&pending.id, &id),
        None => false,
    };
    if waiting {
        config.pending_change = None;
        Ok(())
    } else {
        Err(trouble_saying("That change is not waiting any more. Nothing has changed."))
    }
}

/// How long is left, for showing wherever protection is shown.
pub fn time_remaining(config: &Config, trusted_now: u64) -> (left: Option<u64>)
    ensures
        match config.pending_change {
            Some(pending) => left == Some(clamp_u64(pending.eligible_after_trusted - trusted_now)),
            None => left is None,
        },
{
    match &config.pending_change {
        Some(pending) => Some(remaining_seconds(pending, trusted_now)),
        None => None,
    }
}

/// "23 hours", "40 minutes": never a ticking countdown.
pub open spec fn duration_text(seconds: nat) -> Seq<char> {
    if seconds == 0 {
        "no time"@
    } else if seconds / 3600 >= 2 {
        decimal(seconds / 3600) + " hours"@
    } else if (seconds + 59) / 60 >= 60 {
        "about an hour"@
    } else {
        decimal((seconds + 59) / 60) + " minutes"@
    }
}

/// A waiting time in plain words: whole hours from two hours up, "about an
/// hour" from an hour up, minutes (rounded up) below that, and "no time" for
/// none.
pub fn plain_duration(seconds: u64) -> (text: String)
    ensures
        text@ == duration_text(seconds as nat),
{
    let mut out: Vec<char> = Vec::new();
    if seconds == 0 {
        push_str(&mut out, "no time");
        assert(out@ =~= "no time"@);
        return string_of(out.as_slice());
    }
    let hours = seconds / 3600;
    if hours >= 2 {
        push_decimal(&mut out, hours);
        push_str(&mut out, " hours");
        assert(out@ =~= decimal(hours as nat) + " hours"@);
        return string_of(out.as_slice());
    }
    let minutes = seconds / 60 + if seconds % 60 != 0 {
        1
    } else {
        0
    };
    assert(minutes == (seconds + 59) / 60);
    if minutes >= 60 {
        push_str(&mut out, "about an hour");
        assert(out@ =~= "about an hour"@);
        return string_of(out.as_slice());
    }
    push_decimal(&mut out, minutes);
    push_str(&mut out, " minutes");
    assert(out@ =~= decimal(minutes as nat) + " minutes"@);
    string_of(out.as_slice())
}

/// The sentence when nothing is waiting.
pub open spec fn nothing_waiting_text() -> Seq<char> {
    "There is no change waiting, so there is nothing to apply."@
}

/// The sentence when the change has not served its time.
pub open spec fn still_waiting_text(left: nat) -> Seq<char> {
    "That change has "@ + duration_text(left) + " to wait. Protection stays on until then."@
}

/// The `www.` forms Cairn generated for roots among `asked`, from `entries`.
pub open spec fn generated_www(entries: Seq<EntryView>, asked: Seq<Seq<char>>) -> Seq<Seq<char>>
    decreases entries.len(),
{
    if entries.len() == 0 {
        Seq::empty()
    } else {
        let before = generated_www(entries.drop_last(), asked);
        let entry = entries.last();
        if entry.2 && starts_with(entry.0, www_prefix()) && asked.contains(entry.0.subrange(4, entry.0.len() as int)) {
            before.push(entry.0)
        } else {
            before
        }
    }
}

/// What is left of `entry` once the person's own reason and the generated
/// one are gone.
pub open spec fn stripped(entry: EntryView) -> EntryView {
    (entry.0, without_source(without_source(entry.1, SourceRef::Custom), SourceRef::AutoWww), entry.2)
}

/// The entries once those whose domain is among `targets` have lost the
/// person's reason and the generated one, and those no longer needed have
/// gone.
pub open spec fn entries_after_removal(entries: Seq<EntryView>, targets: Seq<Seq<char>>) -> Seq<EntryView>
    decreases entries.len(),
{
    if entries.len() == 0 {
        entries
    } else {
        let before = entries_after_removal(entries.drop_last(), targets);
        let entry = entries.last();
        if targets.contains(entry.0) {
            if stripped(entry).1.len() > 0 {
                before.push(stripped(entry))
            } else {
                before
            }
        } else {
            before.push(entry)
        }
    }
}

/// `categories` without `category`.
pub open spec fn categories_without(categories: Seq<CategoryId>, category: CategoryId) -> Seq<CategoryId>
    decreases categories.len(),
{
    if categories.len() == 0 {
        categories
    } else {
        let before = categories_without(categories.drop_last(), category);
        if categories.last() == category {
            before
        } else {
            before.push(categories.last())
        }
    }
}

/// Whether `text` is among `targets`.
fn among(targets: &Vec<Vec<char>>, text: &Vec<char>) -> (found: bool)
    ensures
        found == targets@.map_values(|t: Vec<char>| t@).contains(text@),
{
    let ghost views = targets@.map_values(|t: Vec<char>| t@);
    let mut i: usize = 0;
    while i < targets.len()
        invariant
            i <= targets@.len(),
            views == targets@.map_values(|t: Vec<char>| t@),
            forall|j: int| 0 <= j < i ==> views[j] != text@,
        decreases targets.len() - i,
    {
        if crate::domain::entries::compare_text(targets[i].as_slice(), text.as_slice()) == 0 {
            assert(views[i as int] == text@);
            return true;
        }
        i = i + 1;
    }
    false
}

/// The domains asked for, plus the `www.` forms Cairn generated for them. A
/// `www.` entry someone typed themselves is theirs, and is not swept up.
fn with_generated_www_forms(trail: &Trail, domains: &Vec<Domain>) -> (targets: Vec<Vec<char>>)
    ensures
        targets@.map_values(|t: Vec<char>| t@) == domain_views(domains@) + generated_www(trail@, domain_views(domains@)),
{
    let ghost asked = domain_views(domains@);
    let mut targets: Vec<Vec<char>> = Vec::new();
    let mut asked_texts: Vec<Vec<char>> = Vec::new();
    let mut i: usize = 0;
    while i < domains.len()
        invariant
            i <= domains@.len(),
            asked == domain_views(domains@),
            targets@.map_values(|t: Vec<char>| t@) == asked.subrange(0, i as int),
            asked_texts@.map_values(|t: Vec<char>| t@) == asked.subrange(0, i as int),
        decreases domains.len() - i,
    {
        let text = domains[i].chars();
        let ghost before = targets@;
        let ghost before_asked = asked_texts@;
        targets.push(domains[i].chars());
        asked_texts.push(text);
        assert(targets@.map_values(|t: Vec<char>| t@) =~= before.map_values(|t: Vec<char>| t@).push(asked[i as int]));
        assert(asked_texts@.map_values(|t: Vec<char>| t@) =~= before_asked.map_values(|t: Vec<char>| t@).push(asked[i as int]));
        assert(asked.subrange(0, i + 1) =~= asked.subrange(0, i as int).push(asked[i as int]));
        i = i + 1;
    }
    assert(asked.subrange(0, domains@.len() as int) =~= asked);
    let prefix = vec!['w', 'w', 'w', '.'];
    assert(prefix@ =~= www_prefix());
    let mut k: usize = 0;
    while k < trail.entries.len()
        invariant
            k <= trail.entries@.len(),
            prefix@ == www_prefix(),
            asked == domain_views(domains@),
            asked_texts@.map_values(|t: Vec<char>| t@) == asked,
            targets@.map_values(|t: Vec<char>| t@) == asked + generated_www(trail@.subrange(0, k as int), asked),
        decreases trail.entries.len() - k,
    {
        let entry = &trail.entries[k];
        let ghost before = targets@;
        let ghost seen = trail@.subrange(0, k + 1);
        assert(seen.drop_last() =~= trail@.subrange(0, k as int));
        assert(seen.last() == entry@);
        if entry.auto_www {
            let text = entry.domain.chars();
            if crate::text::starts_at(text.as_slice(), prefix.as_slice(), 0) {
                let root = crate::text::slice_of(text.as_slice(), 4, text.len());
                if among(&asked_texts, &root) {
                    targets.push(text);
                    assert(targets@.map_values(|t: Vec<char>| t@) =~= before.map_values(|t: Vec<char>| t@).push(entry@.0));
                }
            }
        }
        k = k + 1;
    }
    assert(trail@.subrange(0, trail@.len() as int) =~= trail@);
    targets
}

/// What survives a removal is an entry that was there, with no more reasons
/// than it had.
proof fn lemma_removal_from(entries: Seq<EntryView>, targets: Seq<Seq<char>>)
    ensures
        forall|i: int|
            0 <= i < entries_after_removal(entries, targets).len() ==> exists|m: int|
                0 <= m < entries.len() && entries[m].0 == #[trigger] entries_after_removal(
                    entries,
                    targets,
                )[i].0,
    decreases entries.len(),
{
    if entries.len() > 0 {
        let prefix = entries.drop_last();
        lemma_removal_from(prefix, targets);
        let result = entries_after_removal(entries, targets);
        let shorter = entries_after_removal(prefix, targets);
        assert forall|i: int| 0 <= i < result.len() implies exists|m: int|
            0 <= m < entries.len() && entries[m].0 == #[trigger] result[i].0 by {
            if i < shorter.len() {
                assert(result[i] == shorter[i]);
                let m = choose|m: int| 0 <= m < prefix.len() && prefix[m].0 == shorter[i].0;
                assert(entries[m] == prefix[m]);
            } else {
                assert(entries[entries.len() - 1].0 == result[i].0);
            }
        }
    }
}

/// A removal keeps the trail well formed.
proof fn lemma_removal_well_formed(entries: Seq<EntryView>, targets: Seq<Seq<char>>)
    requires
        entries_well_formed(entries),
    ensures
        entries_well_formed(entries_after_removal(entries, targets)),
    decreases entries.len(),
{
    if entries.len() > 0 {
        let prefix = entries.drop_last();
        assert(entries_well_formed(prefix)) by {
            assert forall|i: int| 0 <= i < prefix.len() implies sources_in_order(#[trigger] prefix[i].1) by {
                assert(prefix[i] == entries[i]);
            }
            assert forall|i: int, j: int| 0 <= i < j < prefix.len() implies text_less(
                prefix[i].0,
                prefix[j].0,
            ) by {
                assert(prefix[i] == entries[i] && prefix[j] == entries[j]);
            }
        }
        lemma_removal_well_formed(prefix, targets);
        lemma_removal_from(prefix, targets);
        let last = entries.last();
        lemma_without_source(last.1, SourceRef::Custom);
        lemma_without_source(without_source(last.1, SourceRef::Custom), SourceRef::AutoWww);
        let shorter = entries_after_removal(prefix, targets);
        let result = entries_after_removal(entries, targets);
        if result.len() > shorter.len() {
            assert(result == shorter.push(result.last()));
            assert(result.last().0 == last.0);
            assert(sources_in_order(result.last().1));
            assert forall|i: int| 0 <= i < result.len() implies sources_in_order(#[trigger] result[i].1) by {
                if i < shorter.len() {
                    assert(result[i] == shorter[i]);
                }
            }
            assert forall|i: int, j: int| 0 <= i < j < result.len() implies text_less(
                result[i].0,
                result[j].0,
            ) by {
                assert(result[i] == shorter[i]);
                if j < shorter.len() {
                    assert(result[j] == shorter[j]);
                } else {
                    let m = choose|m: int| 0 <= m < prefix.len() && prefix[m].0 == shorter[i].0;
                    assert(prefix[m] == entries[m]);
                    assert(entries[entries.len() - 1] == last);
                }
            }
        }
    }
}

/// Remove what the person typed, and nothing another source still needs. A
/// root takes its generated `www.` form with it.
fn remove_entries(trail: &mut Trail, domains: &Vec<Domain>)
    requires
        old(trail).well_formed(),
    ensures
        final(trail).well_formed(),
        final(trail)@ == entries_after_removal(
            old(trail)@,
            domain_views(domains@) + generated_www(old(trail)@, domain_views(domains@)),
        ),
        final(trail).enabled_categories@ == old(trail).enabled_categories@,
{
    let targets = with_generated_www_forms(trail, domains);
    let ghost target_views = targets@.map_values(|t: Vec<char>| t@);
    let ghost before = trail@;
    let mut remaining: Vec<ProtectedEntry> = Vec::new();
    std::mem::swap(&mut remaining, &mut trail.entries);
    let ghost original = remaining@;
    assert(crate::domain::entries::entry_views(original) == before);
    let total = remaining.len();
    let mut kept: Vec<ProtectedEntry> = Vec::new();
    let mut i: usize = 0;
    while i < total
        invariant
            i <= total,
            total == original.len(),
            crate::domain::entries::entry_views(original) == before,
            target_views == targets@.map_values(|t: Vec<char>| t@),
            remaining@ == original.subrange(i as int, total as int),
            crate::domain::entries::entry_views(kept@) == entries_after_removal(
                before.subrange(0, i as int),
                target_views,
            ),
        decreases total - i,
    {
        let mut entry = remaining.remove(0);
        assert(entry == original[i as int]);
        assert(entry@ == before[i as int]);
        let ghost kept_before = kept@;
        assert(before.subrange(0, i + 1).drop_last() =~= before.subrange(0, i as int));
        let text = entry.domain.chars();
        if among(&targets, &text) {
            let _ = entry.remove_source(&SourceRef::Custom);
            let still_needed = entry.remove_source(&SourceRef::AutoWww);
            if still_needed {
                kept.push(entry);
                assert(crate::domain::entries::entry_views(kept@) =~= crate::domain::entries::entry_views(kept_before).push(entry@));
            }
        } else {
            kept.push(entry);
            assert(crate::domain::entries::entry_views(kept@) =~= crate::domain::entries::entry_views(kept_before).push(entry@));
        }
        assert(remaining@ =~= original.subrange(i + 1, total as int));
        i = i + 1;
    }
    assert(before.subrange(0, total as int) =~= before);
    trail.entries = kept;
    proof {
        lemma_removal_well_formed(before, target_views);
    }
}

/// Switch `category` off in the list of enabled categories.
fn switch_off(categories: &mut Vec<CategoryId>, category: CategoryId)
    requires
        categories_in_order(old(categories)@),
    ensures
        categories_in_order(final(categories)@),
        final(categories)@ == categories_without(old(categories)@, category),
{
    let ghost before = categories@;
    let mut kept: Vec<CategoryId> = Vec::new();
    let mut i: usize = 0;
    while i < categories.len()
        invariant
            i <= categories@.len(),
            categories@ == before,
            categories_in_order(before),
            kept@ == categories_without(before.subrange(0, i as int), category),
            forall|j: int| 0 <= j < kept@.len() ==> exists|m: int| 0 <= m < i && #[trigger] kept@[j] == before[m],
            categories_in_order(kept@),
        decreases categories.len() - i,
    {
        let current = categories[i];
        assert(before.subrange(0, i + 1).drop_last() =~= before.subrange(0, i as int));
        if current.index() != category.index() {
            let ghost kept_before = kept@;
            kept.push(current);
            proof {
                assert forall|a: int, b: int| 0 <= a < b < kept@.len() implies category_index(kept@[a]) < category_index(kept@[b]) by {
                    if b == kept@.len() - 1 {
                        let m = choose|m: int| 0 <= m < i && kept_before[a] == before[m];
                        assert(kept@[a] == kept_before[a]);
                    } else {
                        assert(kept@[a] == kept_before[a] && kept@[b] == kept_before[b]);
                    }
                }
                assert forall|j: int| 0 <= j < kept@.len() implies exists|m: int| 0 <= m < i + 1 && #[trigger] kept@[j] == before[m] by {
                    if j < kept_before.len() {
                        assert(kept@[j] == kept_before[j]);
                        let m = choose|m: int| 0 <= m < i && kept_before[j] == before[m];
                    } else {
                        assert(kept@[j] == before[i as int]);
                    }
                }
            }
        } else {
            assert(current == category);
        }
        i = i + 1;
    }
    assert(before.subrange(0, before.len() as int) =~= before);
    *categories = kept;
}

/// Apply a reduction that has waited: the only function that removes
/// protection, and it refuses anything that has not served its time on the
/// trusted clock.
pub fn apply_reduction(config: &mut Config, trusted_now: u64) -> (applied: Result<PendingKind, Trouble>)
    requires
        old(config).trail.well_formed(),
    ensures
        final(config).trail.well_formed(),
        match old(config).pending_change {
            None => applied matches Err(trouble) && trouble.message@ == nothing_waiting_text()
                && *final(config) == *old(config),
            Some(pending) => if !eligible(pending, trusted_now) {
                applied matches Err(trouble) && trouble.message@ == still_waiting_text(
                    clamp_u64(pending.eligible_after_trusted - trusted_now) as nat,
                ) && *final(config) == *old(config)
            } else {
                &&& applied matches Ok(kind) && kind_view(kind) == kind_view(pending.kind)
                &&& final(config).pending_change is None
                &&& final(config).reach_mode == old(config).reach_mode
                &&& match pending.kind {
                    PendingKind::TurnOffProtection => {
                        &&& final(config).intent == ProtectionIntent::Off
                        &&& final(config).trail@.len() == 0
                        &&& final(config).trail.enabled_categories@.len() == 0
                    },
                    PendingKind::RemoveEntries { domains } => {
                        &&& final(config).intent == old(config).intent
                        &&& final(config).trail@ == entries_after_removal(
                            old(config).trail@,
                            domain_views(domains@) + generated_www(old(config).trail@, domain_views(domains@)),
                        )
                        &&& final(config).trail.enabled_categories@ == old(config).trail.enabled_categories@
                    },
                    PendingKind::DisableCategory { category } => {
                        &&& final(config).intent == old(config).intent
                        &&& final(config).trail@ == entries_without(old(config).trail@, SourceRef::Category(category))
                        &&& final(config).trail.enabled_categories@ == categories_without(old(config).trail.enabled_categories@, category)
                    },
                }
            },
        },
{
    let pending = match &config.pending_change {
        Some(pending) => pending.clone(),
        None => {
            return Err(trouble_saying("There is no change waiting, so there is nothing to apply."));
        },
    };
    if !is_eligible(&pending, trusted_now) {
        let left = remaining_seconds(&pending, trusted_now);
        let duration = plain_duration(left);
        let mut out: Vec<char> = Vec::new();
        push_str(&mut out, "That change has ");
        let chars = crate::text::chars_of(duration.as_str());
        push_chars(&mut out, &chars);
        push_str(&mut out, " to wait. Protection stays on until then.");
        assert(out@ =~= still_waiting_text(left as nat));
        return Err(Trouble::new(string_of(out.as_slice())));
    }
    match &pending.kind {
        PendingKind::TurnOffProtection => {
            config.intent = ProtectionIntent::Off;
            config.trail.entries = Vec::new();
            config.trail.enabled_categories = Vec::new();
            assert(config.trail@ =~= Seq::<EntryView>::empty());
        },
        PendingKind::RemoveEntries { domains } => {
            remove_entries(&mut config.trail, domains);
        },
        PendingKind::DisableCategory { category } => {
            config.trail.remove_source(&SourceRef::Category(*category));
            switch_off(&mut config.trail.enabled_categories, *category);
        },
    }
    config.pending_change = None;
    Ok(pending.kind)
}

/// Every `www.` form generated for the asked domains is the `www.` form of
/// one of them.
proof fn lemma_generated_www_of_asked(entries: Seq<EntryView>, asked: Seq<Seq<char>>)
    ensures
        forall|d: Seq<char>| #[trigger] generated_www(entries, asked).contains(d) ==> exists|a: Seq<char>|
            asked.contains(a) && d == www_prefix() + a,
    decreases entries.len(),
{
    if entries.len() > 0 {
        let front = entries.drop_last();
        lemma_generated_www_of_asked(front, asked);
        let entry = entries.last();
        let before = generated_www(front, asked);
        assert forall|d: Seq<char>| #[trigger] generated_www(entries, asked).contains(d) implies exists|a: Seq<char>|
            asked.contains(a) && d == www_prefix() + a by {
            if entry.2 && starts_with(entry.0, www_prefix()) && asked.contains(entry.0.subrange(4, entry.0.len() as int)) {
                let grown = before.push(entry.0);
                let j = choose|j: int| 0 <= j < grown.len() && grown[j] == d;
                if j < before.len() {
                    assert(before[j] == d);
                    assert(before.contains(d));
                } else {
                    let root = entry.0.subrange(4, entry.0.len() as int);
                    assert(entry.0 =~= www_prefix() + root);
                    assert(asked.contains(root) && d == www_prefix() + root);
                }
            }
        }
    }
}

/// An entry whose domain is not among `targets` comes through a removal
/// untouched.
proof fn lemma_untargeted_kept(entries: Seq<EntryView>, targets: Seq<Seq<char>>)
    ensures
        forall|k: int|
            0 <= k < entries.len() && !targets.contains(#[trigger] entries[k].0) ==> entries_after_removal(
                entries,
                targets,
            ).contains(entries[k]),
    decreases entries.len(),
{
    if entries.len() > 0 {
        let front = entries.drop_last();
        lemma_untargeted_kept(front, targets);
        let before = entries_after_removal(front, targets);
        let after = entries_after_removal(entries, targets);
        assert forall|k: int|
            0 <= k < entries.len() && !targets.contains(#[trigger] entries[k].0) implies after.contains(entries[k]) by {
            if k < front.len() {
                assert(front[k] == entries[k]);
                assert(before.contains(front[k]));
                let j = choose|j: int| 0 <= j < before.len() && before[j] == front[k];
                if targets.contains(entries.last().0) {
                    if stripped(entries.last()).1.len() > 0 {
                        assert(after[j] == before[j]);
                    }
                } else {
                    assert(after[j] == before[j]);
                }
            } else {
                assert(after[after.len() - 1] == entries.last());
            }
        }
    }
}

/// Removing domains takes away only what was asked: every entry whose domain
/// is neither one of the asked domains nor the `www.` form of one of them
/// keeps every reason it had. (A generated `www.` form goes only with its
/// own root.)
pub proof fn lemma_removal_spares_what_was_not_asked(entries: Seq<EntryView>, asked: Seq<Seq<char>>)
    ensures
        forall|k: int|
            0 <= k < entries.len() && !asked.contains(#[trigger] entries[k].0) && (forall|a: Seq<char>|
                asked.contains(a) ==> entries[k].0 != www_prefix() + a) ==> entries_after_removal(
                entries,
                asked + generated_www(entries, asked),
            ).contains(entries[k]),
{
    let targets = asked + generated_www(entries, asked);
    lemma_generated_www_of_asked(entries, asked);
    lemma_untargeted_kept(entries, targets);
    assert forall|k: int|
        0 <= k < entries.len() && !asked.contains(#[trigger] entries[k].0) && (forall|a: Seq<char>|
            asked.contains(a) ==> entries[k].0 != www_prefix() + a) implies !targets.contains(entries[k].0) by {
        let d = entries[k].0;
        if targets.contains(d) {
            let j = choose|j: int| 0 <= j < targets.len() && targets[j] == d;
            if j < asked.len() {
                assert(asked[j] == d);
                assert(asked.contains(d));
            } else {
                assert(generated_www(entries, asked)[j - asked.len()] == d);
                assert(generated_www(entries, asked).contains(d));
            }
        }
    }
}

/// Each entry after a removal is an entry that was not targeted, as it was,
/// or a targeted one with the person's reason and the generated one taken
/// away and some other reason left.
proof fn lemma_removal_origins(entries: Seq<EntryView>, targets: Seq<Seq<char>>)
    ensures
        forall|j: int|
            0 <= j < entries_after_removal(entries, targets).len() ==> exists|i: int|
                0 <= i < entries.len() && ((#[trigger] entries_after_removal(entries, targets)[j] == entries[i]
                    && !targets.contains(entries[i].0)) || (entries_after_removal(entries, targets)[j]
                    == stripped(entries[i]) && targets.contains(entries[i].0) && stripped(entries[i]).1.len()
                    > 0)),
    decreases entries.len(),
{
    if entries.len() > 0 {
        let front = entries.drop_last();
        lemma_removal_origins(front, targets);
        let before = entries_after_removal(front, targets);
        let after = entries_after_removal(entries, targets);
        assert forall|j: int| 0 <= j < after.len() implies exists|i: int|
            0 <= i < entries.len() && ((#[trigger] after[j] == entries[i] && !targets.contains(entries[i].0)) || (
            after[j] == stripped(entries[i]) && targets.contains(entries[i].0) && stripped(entries[i]).1.len()
                > 0)) by {
            if j < before.len() {
                assert(after[j] == before[j]);
                let i = choose|i: int|
                    0 <= i < front.len() && ((#[trigger] before[j] == front[i] && !targets.contains(front[i].0))
                        || (before[j] == stripped(front[i]) && targets.contains(front[i].0) && stripped(
                        front[i],
                    ).1.len() > 0));
                assert(front[i] == entries[i]);
            } else {
                assert(entries[entries.len() - 1] == entries.last());
            }
        }
    }
}

/// A targeted entry that keeps some other reason comes through with the
/// person's reason and the generated one taken away.
proof fn lemma_targeted_kept(entries: Seq<EntryView>, targets: Seq<Seq<char>>)
    ensures
        forall|k: int|
            0 <= k < entries.len() && targets.contains(#[trigger] entries[k].0) && stripped(entries[k]).1.len() > 0
                ==> entries_after_removal(entries, targets).contains(stripped(entries[k])),
    decreases entries.len(),
{
    if entries.len() > 0 {
        let front = entries.drop_last();
        lemma_targeted_kept(front, targets);
        let before = entries_after_removal(front, targets);
        let after = entries_after_removal(entries, targets);
        assert forall|k: int|
            0 <= k < entries.len() && targets.contains(#[trigger] entries[k].0) && stripped(entries[k]).1.len() > 0
                implies after.contains(stripped(entries[k])) by {
            if k < front.len() {
                assert(front[k] == entries[k]);
                assert(before.contains(stripped(front[k])));
                let j = choose|j: int| 0 <= j < before.len() && before[j] == stripped(front[k]);
                assert(after[j] == before[j]);
            } else {
                assert(after[after.len() - 1] == stripped(entries.last()));
            }
        }
    }
}

/// Removing a domain takes away only the person's own reason and the
/// generated one: an asked entry still needed for another reason (a
/// category) stays, holding exactly its other reasons, and one needed for no
/// other reason goes.
pub proof fn lemma_asked_lose_only_their_own_reasons(entries: Seq<EntryView>, asked: Seq<Seq<char>>)
    requires
        entries_well_formed(entries),
    ensures
        forall|k: int|
            0 <= k < entries.len() && asked.contains(#[trigger] entries[k].0) ==> {
                let after = entries_after_removal(entries, asked + generated_www(entries, asked));
                &&& (exists|s: SourceRef|
                    entries[k].1.contains(s) && s != SourceRef::Custom && s != SourceRef::AutoWww) ==> exists|j: int|
                    0 <= j < after.len() && after[j].0 == entries[k].0 && forall|s: SourceRef|
                        #[trigger] after[j].1.contains(s) <==> entries[k].1.contains(s) && s != SourceRef::Custom
                            && s != SourceRef::AutoWww
                &&& (forall|s: SourceRef|
                    entries[k].1.contains(s) ==> s == SourceRef::Custom || s == SourceRef::AutoWww) ==> forall|j: int|
                    0 <= j < after.len() ==> after[j].0 != entries[k].0
            },
{
    let targets = asked + generated_www(entries, asked);
    let after = entries_after_removal(entries, targets);
    lemma_removal_origins(entries, targets);
    lemma_targeted_kept(entries, targets);
    assert forall|k: int| 0 <= k < entries.len() && asked.contains(#[trigger] entries[k].0) implies {
        &&& (exists|s: SourceRef|
            entries[k].1.contains(s) && s != SourceRef::Custom && s != SourceRef::AutoWww) ==> exists|j: int|
            0 <= j < after.len() && after[j].0 == entries[k].0 && forall|s: SourceRef|
                #[trigger] after[j].1.contains(s) <==> entries[k].1.contains(s) && s != SourceRef::Custom && s
                    != SourceRef::AutoWww
        &&& (forall|s: SourceRef|
            entries[k].1.contains(s) ==> s == SourceRef::Custom || s == SourceRef::AutoWww) ==> forall|j: int|
            0 <= j < after.len() ==> after[j].0 != entries[k].0
    } by {
        let e = entries[k];
        let first = without_source(e.1, SourceRef::Custom);
        lemma_without_source(e.1, SourceRef::Custom);
        lemma_without_source(first, SourceRef::AutoWww);
        let kept = stripped(e).1;
        assert(kept == without_source(first, SourceRef::AutoWww));
        assert(forall|s: SourceRef| #[trigger] kept.contains(s) <==> e.1.contains(s) && s != SourceRef::Custom
            && s != SourceRef::AutoWww);
        let j0 = choose|j: int| 0 <= j < asked.len() && asked[j] == e.0;
        assert(targets[j0] == e.0);
        assert(targets.contains(e.0));
        if exists|s: SourceRef| e.1.contains(s) && s != SourceRef::Custom && s != SourceRef::AutoWww {
            let s0 = choose|s: SourceRef| e.1.contains(s) && s != SourceRef::Custom && s != SourceRef::AutoWww;
            assert(kept.contains(s0));
            assert(kept.len() > 0);
            assert(after.contains(stripped(e)));
            let j = choose|j: int| 0 <= j < after.len() && after[j] == stripped(e);
            assert(after[j].0 == e.0);
        }
        if forall|s: SourceRef| e.1.contains(s) ==> s == SourceRef::Custom || s == SourceRef::AutoWww {
            assert forall|j: int| 0 <= j < after.len() implies after[j].0 != e.0 by {
                let i = choose|i: int|
                    0 <= i < entries.len() && ((#[trigger] after[j] == entries[i] && !targets.contains(entries[i].0))
                        || (after[j] == stripped(entries[i]) && targets.contains(entries[i].0) && stripped(
                        entries[i],
                    ).1.len() > 0));
                if after[j].0 == e.0 {
                    if i != k {
                        if i < k {
                            assert(text_less(entries[i].0, entries[k].0));
                        } else {
                            assert(text_less(entries[k].0, entries[i].0));
                        }
                        lemma_text_less_total(e.0, e.0);
                    } else {
                        if kept.len() > 0 {
                            assert(kept.contains(kept[0]));
                        }
                    }
                }
            }
        }
    }
}

} // verus!
