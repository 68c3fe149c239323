//! Adding to what is protected.
//!
//! Only additions live here. Taking something out is a reduction, it has one
//! route, and it waits. Increases apply immediately.
use vstd::prelude::*;
use crate::domain::entries::{
    category_index, categories_in_order, domain_views, lemma_insert_merges, merged_into,
    www_prefix, CategoryId, Domain, EntryView, ProtectedEntry, SourceRef, Trail,
};
use crate::domain::normalize::{normalize, normalize_outcome, normalized_view, own_name, Rejection, ReservedNames};
use crate::text::starts_with;

verus! {

/// A new entry for `domain` with the one reason `source`.
pub open spec fn entry_for(domain: Seq<char>, source: SourceRef) -> EntryView {
    (domain, seq![source], source == SourceRef::AutoWww)
}

/// The entry for one domain the person typed. A `www.` form Cairn generated
/// for a root is marked as generated, and carries the person's own reason
/// alongside the generated one, since it is never a sole reason; anything
/// else is simply theirs.
pub open spec fn typed_entry(domains: Seq<Seq<char>>, domain: Seq<char>) -> EntryView {
    if starts_with(domain, www_prefix()) && domains.len() > 1 {
        (domain, seq![SourceRef::Custom, SourceRef::AutoWww], true)
    } else {
        entry_for(domain, SourceRef::Custom)
    }
}

/// The entries once the first `n` typed `domains` have been merged in.
pub open spec fn with_typed(entries: Seq<EntryView>, domains: Seq<Seq<char>>, n: int) -> Seq<EntryView>
    decreases n,
{
    if n <= 0 {
        entries
    } else {
        merged_into(
            with_typed(entries, domains, n - 1),
            typed_entry(domains, domains[n - 1]),
        )
    }
}

/// The entries once the first `n` of `domains` have been merged in, each
/// for `source`.
pub open spec fn with_source(
    entries: Seq<EntryView>,
    domains: Seq<Seq<char>>,
    source: SourceRef,
    n: int,
) -> Seq<EntryView>
    decreases n,
{
    if n <= 0 {
        entries
    } else {
        merged_into(with_source(entries, domains, source, n - 1), entry_for(domains[n - 1], source))
    }
}

/// The entries once the first `n` names of a category's list have been
/// normalized and merged in; names that do not normalize are passed over.
pub open spec fn with_category_names(
    entries: Seq<EntryView>,
    names: Seq<Seq<char>>,
    own_hostname: Option<Seq<char>>,
    category: CategoryId,
    n: int,
) -> Seq<EntryView>
    decreases n,
{
    if n <= 0 {
        entries
    } else {
        let before = with_category_names(entries, names, own_hostname, category, n - 1);
        match normalize_outcome(names[n - 1], own_hostname) {
            Ok(domains) => with_source(before, domains, SourceRef::Category(category), domains.len() as int),
            Err(_) => before,
        }
    }
}

/// The first `n` names of a list that do not normalize, in order.
pub open spec fn skipped_names(names: Seq<Seq<char>>, own_hostname: Option<Seq<char>>, n: int) -> Seq<Seq<char>>
    decreases n,
{
    if n <= 0 {
        Seq::empty()
    } else {
        let before = skipped_names(names, own_hostname, n - 1);
        if normalize_outcome(names[n - 1], own_hostname) is Ok {
            before
        } else {
            before.push(names[n - 1])
        }
    }
}

/// The categories with `category` switched on, kept in their order.
pub open spec fn with_category(categories: Seq<CategoryId>, category: CategoryId) -> Seq<CategoryId> {
    if categories.contains(category) {
        categories
    } else {
        categories.insert(count_before(categories, category), category)
    }
}

/// How many of `categories` come before `category` in the fixed order.
pub open spec fn count_before(categories: Seq<CategoryId>, category: CategoryId) -> int
    decreases categories.len(),
{
    if categories.len() == 0 {
        0
    } else {
        count_before(categories.drop_last(), category) + if category_index(categories.last())
            < category_index(category) {
            1int
        } else {
            0int
        }
    }
}

/// Merge each of `domains` in for `source`.
fn insert_all(trail: &mut Trail, domains: &Vec<Domain>, source: SourceRef)
    requires
        old(trail).well_formed(),
    ensures
        final(trail).well_formed(),
        final(trail)@ == with_source(old(trail)@, domain_views(domains@), source, domains@.len() as int),
        final(trail).enabled_categories@ == old(trail).enabled_categories@,
{
    let ghost views = domain_views(domains@);
    let mut i: usize = 0;
    while i < domains.len()
        invariant
            i <= domains@.len(),
            views == domain_views(domains@),
            trail.well_formed(),
            trail@ == with_source(old(trail)@, views, source, i as int),
            trail.enabled_categories@ == old(trail).enabled_categories@,
        decreases domains.len() - i,
    {
        let ghost before = trail@;
        let entry = ProtectedEntry::new(domains[i].clone(), source);
        assert(entry@ == entry_for(views[i as int], source));
        trail.insert(entry);
        proof {
            lemma_insert_merges(before, entry@, trail@);
        }
        i = i + 1;
    }
}

/// Add one address the person typed. Returns everything it protects (the
/// entry and, for a root, its `www.` form) or a sentence saying why it was
/// not taken. The trail is unchanged when it was not taken.
pub fn add_custom_entry(trail: &mut Trail, input: &str, reserved: &ReservedNames) -> (added: Result<Vec<Domain>, Rejection>)
    requires
        old(trail).well_formed(),
    ensures
        normalized_view(added) == normalize_outcome(input@, own_name(*reserved)),
        final(trail).well_formed(),
        final(trail).enabled_categories@ == old(trail).enabled_categories@,
        match added {
            Ok(domains) => final(trail)@ == with_typed(
                old(trail)@,
                domain_views(domains@),
                domains@.len() as int,
            ),
            Err(_) => final(trail)@ == old(trail)@,
        },
{
    let domains = match normalize(input, reserved) {
        Ok(domains) => domains,
        Err(rejection) => {
            return Err(rejection);
        },
    };
    let ghost views = domain_views(domains@);
    let mut i: usize = 0;
    while i < domains.len()
        invariant
            i <= domains@.len(),
            views == domain_views(domains@),
            trail.well_formed(),
            trail@ == with_typed(old(trail)@, views, i as int),
            trail.enabled_categories@ == old(trail).enabled_categories@,
        decreases domains.len() - i,
    {
        let domain = &domains[i];
        let entry = if domain.is_www() && domains.len() > 1 {
            // The `www.` form Cairn generated: marked as such, and held by the
            // person's own reason too, so it is never left with the generated
            // one alone.
            ProtectedEntry {
                domain: domain.clone(),
                sources: vec![SourceRef::Custom, SourceRef::AutoWww],
                auto_www: true,
            }
        } else {
            ProtectedEntry::new(domain.clone(), SourceRef::Custom)
        };
        assert(entry@ == typed_entry(views, views[i as int]));
        let ghost before = trail@;
        trail.insert(entry);
        proof {
            lemma_insert_merges(before, entry@, trail@);
        }
        i = i + 1;
    }
    Ok(domains)
}

/// Switch `category` on in the list of enabled categories.
fn switch_on(categories: &mut Vec<CategoryId>, category: CategoryId)
    requires
        categories_in_order(old(categories)@),
    ensures
        categories_in_order(final(categories)@),
        final(categories)@ == with_category(old(categories)@, category),
{
    let ghost before = categories@;
    let target = category.index();
    let mut at: usize = 0;
    while at < categories.len() && categories[at].index() < target
        invariant
            at <= categories@.len(),
            categories@ == before,
            target == category_index(category),
            forall|j: int| 0 <= j < at ==> category_index(before[j]) < category_index(category),
        decreases categories.len() - at,
    {
        at = at + 1;
    }
    proof {
        assert forall|j: int| at <= j < before.len() implies category_index(before[j])
            >= category_index(category) by {
            if j > at {
                assert(category_index(before[at as int]) < category_index(before[j]));
            }
        }
        lemma_below_count(before, category, at as int);
    }
    if at < categories.len() && categories[at].index() == target {
        proof {
            lemma_same_index(before[at as int], category);
            assert(before.contains(category));
        }
        return;
    }
    proof {
        assert(!before.contains(category)) by {
            if before.contains(category) {
                let j = choose|j: int| 0 <= j < before.len() && before[j] == category;
            }
        }
    }
    categories.insert(at, category);
    proof {
        let after = categories@;
        assert forall|i: int, j: int| 0 <= i < j < after.len() implies category_index(after[i])
            < category_index(after[j]) by {
            if i < at && j > at {
                assert(after[j] == before[j - 1]);
            } else if i == at && j > at {
                assert(after[j] == before[j - 1]);
            } else if i > at {
                assert(after[i] == before[i - 1] && after[j] == before[j - 1]);
            }
        }
    }
}

/// Categories with the same place in the order are the same.
proof fn lemma_same_index(a: CategoryId, b: CategoryId)
    requires
        category_index(a) == category_index(b),
    ensures
        a == b,
{
}

/// In an ordered list, the categories before `category` are exactly the
/// first `at`.
proof fn lemma_below_count(categories: Seq<CategoryId>, category: CategoryId, at: int)
    requires
        0 <= at <= categories.len(),
        forall|j: int| 0 <= j < at ==> category_index(categories[j]) < category_index(category),
        forall|j: int| at <= j < categories.len() ==> category_index(categories[j]) >= category_index(category),
    ensures
        count_before(categories, category) == at,
    decreases categories.len(),
{
    if categories.len() > 0 {
        let front = categories.drop_last();
        if at == categories.len() {
            lemma_below_count(front, category, at - 1);
        } else {
            lemma_below_count(front, category, at);
        }
    }
}

/// Turn a category on, protecting everything in the person's copy of its
/// list. Names that cannot be normalized are skipped rather than allowed to
/// stop the rest, and they are returned, so nothing disappears silently.
pub fn enable_category(
    trail: &mut Trail,
    category: CategoryId,
    domains: &[String],
    reserved: &ReservedNames,
) -> (skipped: Vec<String>)
    requires
        old(trail).well_formed(),
    ensures
        final(trail).well_formed(),
        final(trail)@ == with_category_names(
            old(trail)@,
            domains@.map_values(|name: String| name@),
            own_name(*reserved),
            category,
            domains@.len() as int,
        ),
        skipped@.map_values(|name: String| name@) == skipped_names(
            domains@.map_values(|name: String| name@),
            own_name(*reserved),
            domains@.len() as int,
        ),
        final(trail).enabled_categories@ == with_category(old(trail).enabled_categories@, category),
{
    let ghost names = domains@.map_values(|name: String| name@);
    let mut skipped: Vec<String> = Vec::new();
    let mut i: usize = 0;
    while i < domains.len()
        invariant
            i <= domains@.len(),
            names == domains@.map_values(|name: String| name@),
            trail.well_formed(),
            trail@ == with_category_names(old(trail)@, names, own_name(*reserved), category, i as int),
            skipped@.map_values(|name: String| name@) == skipped_names(names, own_name(*reserved), i as int),
            trail.enabled_categories@ == old(trail).enabled_categories@,
        decreases domains.len() - i,
    {
        let ghost skipped_before = skipped@;
        match normalize(domains[i].as_str(), reserved) {
            Ok(normalized) => {
                insert_all(trail, &normalized, SourceRef::Category(category));
            },
            Err(_) => {
                skipped.push(domains[i].clone());
                assert(skipped@.map_values(|name: String| name@) =~= skipped_before.map_values(|name: String| name@).push(names[i as int]));
            },
        }
        i = i + 1;
    }
    switch_on(&mut trail.enabled_categories, category);
    skipped
}

} // verus!
