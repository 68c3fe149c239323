//! Bucketing reaches by site, hour of day, day of week and day, over a range:
//! the arithmetic behind the Reaches screen.
//!
//! Every bucket that answers "which site" or "which hour" is built from
//! `reaches` alone: a day-level estimate carries no site and no hour, so it
//! never populates either, and how many were set aside is reported instead.
//! No clock is read here: the local offset that turns an instant into an hour
//! and a weekday comes from the caller.
use vstd::prelude::*;
use vstd::arithmetic::div_mod::lemma_div_is_ordered;
use crate::domain::checkin::saturated_sum;
use crate::domain::dates::{first_day_number, last_day_number, number_of, weekday_of, LocalDate};
use crate::domain::entries::{compare_text, lemma_text_less_total, lemma_text_less_transitive, text_less};
use crate::text::chars_of;

verus! {

/// A single recorded reach: which domain, and when.
#[derive(Clone, Debug, PartialEq, Eq)]
pub struct Reach {
    pub domain: String,
    pub at: i64,
}

/// The bucketed view of a range of reaches, and how many estimates were set
/// aside because they carry no site or hour to bucket by.
#[derive(Clone, Debug, PartialEq, Eq)]
pub struct Patterns {
    /// Reach count per domain, by count descending, ties by domain
    /// ascending, so the order never changes on refresh.
    pub by_site: Vec<(String, u32)>,
    /// Exactly 24 entries, indexed by hour of the day; zero-filled.
    pub by_hour: Vec<u32>,
    /// Exactly 7 entries, indexed by weekday (0 Monday to 6 Sunday).
    pub by_weekday: Vec<u32>,
    /// One entry per local day in the window, ascending, with no gaps.
    pub by_day: Vec<(LocalDate, u32)>,
    /// How many estimates fell within the window and were set aside.
    pub estimates_excluded: u32,
}

/// `at` moved by the caller's offset, clamped rather than wrapped.
pub open spec fn shifted(at: int, offset: int) -> int {
    saturated_sum(at, offset)
}

/// The local day number `at` falls on under `offset`.
pub open spec fn local_day(at: int, offset: int) -> int {
    shifted(at, offset) / 86_400
}

/// The hour of the day (0 to 23) `at` falls in under `offset`.
pub open spec fn hour_of_day(at: int, offset: int) -> int {
    (shifted(at, offset) % 86_400) / 3_600
}

/// How many items of `s` satisfy `keep`.
pub open spec fn tally<A>(s: Seq<A>, keep: spec_fn(A) -> bool) -> nat
    decreases s.len(),
{
    if s.len() == 0 {
        0
    } else {
        tally(s.drop_last(), keep) + if keep(s.last()) {
            1nat
        } else {
            0nat
        }
    }
}

/// The sum of `counts`.
pub open spec fn total(counts: Seq<u32>) -> int
    decreases counts.len(),
{
    if counts.len() == 0 {
        0
    } else {
        total(counts.drop_last()) + counts.last()
    }
}

/// A reach within `[from, to)`.
pub open spec fn within(from: int, to: int) -> spec_fn(Reach) -> bool {
    |r: Reach| from <= r.at < to
}

/// A reach within `[from, to)` in hour `hour` of its local day.
pub open spec fn at_hour(from: int, to: int, offset: int, hour: int) -> spec_fn(Reach) -> bool {
    |r: Reach| from <= r.at < to && hour_of_day(r.at as int, offset) == hour
}

/// A reach within `[from, to)` on a local day of weekday `weekday`.
pub open spec fn on_weekday(from: int, to: int, offset: int, weekday: int) -> spec_fn(Reach) -> bool {
    |r: Reach| from <= r.at < to && weekday_of(local_day(r.at as int, offset)) == weekday
}

/// A reach within `[from, to)` on local day number `day`.
pub open spec fn on_day(from: int, to: int, offset: int, day: int) -> spec_fn(Reach) -> bool {
    |r: Reach| from <= r.at < to && local_day(r.at as int, offset) == day
}

/// A reach within `[from, to)` on local day number `first + index`.
pub open spec fn day_bucket(from: int, to: int, offset: int, first: int, index: int) -> spec_fn(
    Reach,
) -> bool {
    on_day(from, to, offset, first + index)
}

/// A reach within `[from, to)` to `domain`.
pub open spec fn to_site(from: int, to: int, domain: Seq<char>) -> spec_fn(Reach) -> bool {
    |r: Reach| from <= r.at < to && r.domain@ == domain
}

/// An estimate for a day numbered `first` to `last`.
pub open spec fn estimate_within(first: int, last: int) -> spec_fn((LocalDate, u32)) -> bool {
    |e: (LocalDate, u32)| first <= number_of(e.0@) <= last
}

/// Site entry `a` comes before `b`: more reaches first, then by domain.
pub open spec fn site_before(a: (Seq<char>, int), b: (Seq<char>, int)) -> bool {
    a.1 > b.1 || (a.1 == b.1 && text_less(a.0, b.0))
}

/// A site entry as text and count.
pub open spec fn site_view(entry: (String, u32)) -> (Seq<char>, int) {
    (entry.0@, entry.1 as int)
}

/// The range the summary may cover: local days whose years fit `i32`, and
/// a count of days that fits `usize`.
pub open spec fn summarizable(offset: int, from: int, to: int) -> bool {
    to > from ==> {
        &&& first_day_number() <= local_day(from, offset)
        &&& local_day(to - 1, offset) <= last_day_number()
        &&& local_day(to - 1, offset) - local_day(from, offset) < usize::MAX
    }
}

/// Counting one more item adds one exactly when it is kept.
proof fn lemma_tally_step<A>(s: Seq<A>, i: int, keep: spec_fn(A) -> bool)
    requires
        0 <= i < s.len(),
    ensures
        tally(s.take(i + 1), keep) == tally(s.take(i), keep) + if keep(s[i]) {
            1nat
        } else {
            0nat
        },
{
    assert(s.take(i + 1).drop_last() =~= s.take(i));
}

/// A count never exceeds the number of items.
proof fn lemma_tally_bound<A>(s: Seq<A>, keep: spec_fn(A) -> bool)
    ensures
        tally(s, keep) <= s.len(),
    decreases s.len(),
{
    if s.len() > 0 {
        lemma_tally_bound(s.drop_last(), keep);
    }
}

/// Adding one to an entry adds one to the total.
proof fn lemma_total_bump(counts: Seq<u32>, k: int)
    requires
        0 <= k < counts.len(),
        counts[k] < u32::MAX,
    ensures
        total(counts.update(k, (counts[k] + 1) as u32)) == total(counts) + 1,
    decreases counts.len(),
{
    let bumped = counts.update(k, (counts[k] + 1) as u32);
    if k == counts.len() - 1 {
        assert(bumped.drop_last() =~= counts.drop_last());
    } else {
        lemma_total_bump(counts.drop_last(), k);
        assert(bumped.drop_last() =~= counts.drop_last().update(k, (counts[k] + 1) as u32));
    }
}

/// All-zero counts total zero.
proof fn lemma_total_zeros(counts: Seq<u32>)
    requires
        forall|k: int| 0 <= k < counts.len() ==> counts[k] == 0,
    ensures
        total(counts) == 0,
    decreases counts.len(),
{
    if counts.len() > 0 {
        lemma_total_zeros(counts.drop_last());
    }
}

/// `at` moved by `offset`, clamped at either end of `i64`.
fn shift(at: i64, offset: i32) -> (moved: i64)
    ensures
        moved == shifted(at as int, offset as int),
{
    match at.checked_add(offset as i64) {
        Some(moved) => moved,
        None => if offset > 0 {
            i64::MAX
        } else {
            i64::MIN
        },
    }
}

/// The local day number of `at`.
fn day_of(at: i64, offset: i32) -> (day: i64)
    ensures
        day == local_day(at as int, offset as int),
{
    match shift(at, offset).checked_div_euclid(86_400) {
        Some(day) => day,
        None => 0,
    }
}

/// The hour of the day of `at`.
fn hour_of(at: i64, offset: i32) -> (hour: usize)
    ensures
        hour == hour_of_day(at as int, offset as int),
        hour < 24,
{
    let within_day = match shift(at, offset).checked_rem_euclid(86_400) {
        Some(rest) => rest,
        None => 0,
    };
    (within_day / 3_600) as usize
}

/// Later instants fall on the same or a later local day.
proof fn lemma_local_day_ordered(earlier: int, later: int, offset: int)
    requires
        earlier <= later,
    ensures
        local_day(earlier, offset) <= local_day(later, offset),
{
    lemma_div_is_ordered(shifted(earlier, offset), shifted(later, offset), 86_400);
}

/// `n` zeros.
fn zero_counts(n: usize) -> (counts: Vec<u32>)
    ensures
        counts@.len() == n,
        forall|k: int| 0 <= k < n ==> counts@[k] == 0,
{
    let mut counts: Vec<u32> = Vec::new();
    while counts.len() < n
        invariant
            counts@.len() <= n,
            forall|k: int| 0 <= k < counts@.len() ==> counts@[k] == 0,
        decreases n - counts@.len(),
    {
        counts.push(0);
    }
    counts
}

/// Whether the offset changed between the two ends of a range: when it did,
/// hour buckets across the range are only approximate. Only whether the two
/// offsets differ matters, never which is larger.
pub fn crosses_offset_change(offset_at_from: i32, offset_at_to: i32) -> (crosses: bool)
    ensures
        crosses == (offset_at_from != offset_at_to),
{
    offset_at_from != offset_at_to
}

/// Hour, weekday and day counts of the reaches within `[from, to)`: day
/// counts start at day `first` and cover `days` days.
fn count_buckets(reaches: &[Reach], offset: i32, from: i64, to: i64, first: i64, days: usize) -> (counted: (
    Vec<u32>,
    Vec<u32>,
    Vec<u32>,
))
    requires
        reaches@.len() <= u32::MAX,
        summarizable(offset as int, from as int, to as int),
        to > from ==> first == local_day(from as int, offset as int) && days == local_day(
            to - 1,
            offset as int,
        ) - first + 1,
    ensures
        counted.0@.len() == 24,
        forall|h: int|
            0 <= h < 24 ==> counted.0@[h] == tally(
                reaches@,
                at_hour(from as int, to as int, offset as int, h),
            ),
        total(counted.0@) == tally(reaches@, within(from as int, to as int)),
        counted.1@.len() == 7,
        forall|w: int|
            0 <= w < 7 ==> counted.1@[w] == tally(
                reaches@,
                on_weekday(from as int, to as int, offset as int, w),
            ),
        total(counted.1@) == tally(reaches@, within(from as int, to as int)),
        counted.2@.len() == days,
        forall|d: int|
            0 <= d < days ==> counted.2@[d] == tally(
                reaches@,
                day_bucket(from as int, to as int, offset as int, first as int, d),
            ),
{
    let mut by_hour = zero_counts(24);
    let mut by_weekday = zero_counts(7);
    let mut by_day = zero_counts(days);
    proof {
        lemma_total_zeros(by_hour@);
        lemma_total_zeros(by_weekday@);
    }
    let mut i: usize = 0;
    while i < reaches.len()
        invariant
            i <= reaches@.len() <= u32::MAX,
            summarizable(offset as int, from as int, to as int),
            to > from ==> first == local_day(from as int, offset as int) && days == local_day(
                to - 1,
                offset as int,
            ) - first + 1,
            by_hour@.len() == 24,
            by_weekday@.len() == 7,
            by_day@.len() == days,
            forall|h: int|
                0 <= h < 24 ==> by_hour@[h] == tally(
                    reaches@.take(i as int),
                    at_hour(from as int, to as int, offset as int, h),
                ),
            forall|w: int|
                0 <= w < 7 ==> by_weekday@[w] == tally(
                    reaches@.take(i as int),
                    on_weekday(from as int, to as int, offset as int, w),
                ),
            forall|d: int|
                0 <= d < days ==> by_day@[d] == tally(
                    reaches@.take(i as int),
                    day_bucket(from as int, to as int, offset as int, first as int, d),
                ),
            total(by_hour@) == tally(reaches@.take(i as int), within(from as int, to as int)),
            total(by_weekday@) == tally(reaches@.take(i as int), within(from as int, to as int)),
        decreases reaches@.len() - i,
    {
        let ghost before = i as int;
        let reach = &reaches[i];
        proof {
            assert forall|h: int| 0 <= h < 24 implies tally(
                reaches@.take(before + 1),
                at_hour(from as int, to as int, offset as int, h),
            ) == tally(reaches@.take(before), at_hour(from as int, to as int, offset as int, h))
                + if at_hour(from as int, to as int, offset as int, h)(reaches@[before]) {
                1nat
            } else {
                0nat
            } by {
                lemma_tally_step(reaches@, before, at_hour(from as int, to as int, offset as int, h));
            }
            assert forall|w: int| 0 <= w < 7 implies tally(
                reaches@.take(before + 1),
                on_weekday(from as int, to as int, offset as int, w),
            ) == tally(reaches@.take(before), on_weekday(from as int, to as int, offset as int, w))
                + if on_weekday(from as int, to as int, offset as int, w)(reaches@[before]) {
                1nat
            } else {
                0nat
            } by {
                lemma_tally_step(
                    reaches@,
                    before,
                    on_weekday(from as int, to as int, offset as int, w),
                );
            }
            assert forall|d: int| 0 <= d < days implies tally(
                reaches@.take(before + 1),
                day_bucket(from as int, to as int, offset as int, first as int, d),
            ) == tally(
                reaches@.take(before),
                day_bucket(from as int, to as int, offset as int, first as int, d),
            ) + if day_bucket(from as int, to as int, offset as int, first as int, d)(reaches@[before]) {
                1nat
            } else {
                0nat
            } by {
                lemma_tally_step(
                    reaches@,
                    before,
                    day_bucket(from as int, to as int, offset as int, first as int, d),
                );
            }
            lemma_tally_step(reaches@, before, within(from as int, to as int));
            lemma_tally_bound(reaches@.take(before), within(from as int, to as int));
            assert forall|h: int| 0 <= h < 24 implies by_hour@[h] <= before by {
                lemma_tally_bound(
                    reaches@.take(before),
                    at_hour(from as int, to as int, offset as int, h),
                );
            }
            assert forall|w: int| 0 <= w < 7 implies by_weekday@[w] <= before by {
                lemma_tally_bound(
                    reaches@.take(before),
                    on_weekday(from as int, to as int, offset as int, w),
                );
            }
            assert forall|d: int| 0 <= d < days implies by_day@[d] <= before by {
                lemma_tally_bound(
                    reaches@.take(before),
                    day_bucket(from as int, to as int, offset as int, first as int, d),
                );
            }
        }
        if from <= reach.at && reach.at < to {
            let hour = hour_of(reach.at, offset);
            proof {
                lemma_total_bump(by_hour@, hour as int);
            }
            by_hour[hour] = by_hour[hour] + 1;
            let day = day_of(reach.at, offset);
            proof {
                lemma_local_day_ordered(from as int, reach.at as int, offset as int);
                lemma_local_day_ordered(reach.at as int, to - 1, offset as int);
            }
            let weekday = LocalDate::from_days_since_epoch(day).weekday() as usize;
            proof {
                lemma_total_bump(by_weekday@, weekday as int);
            }
            by_weekday[weekday] = by_weekday[weekday] + 1;
            let index = (day - first) as usize;
            by_day[index] = by_day[index] + 1;
        }
        i = i + 1;
    }
    assert(reaches@.take(reaches@.len() as int) =~= reaches@);
    (by_hour, by_weekday, by_day)
}

/// Nothing kept, nothing counted.
proof fn lemma_tally_none<A>(s: Seq<A>, keep: spec_fn(A) -> bool)
    requires
        forall|k: int| 0 <= k < s.len() ==> !keep(#[trigger] s[k]),
    ensures
        tally(s, keep) == 0,
    decreases s.len(),
{
    if s.len() > 0 {
        assert forall|k: int| 0 <= k < s.drop_last().len() implies !keep(
            #[trigger] s.drop_last()[k],
        ) by {
            assert(s.drop_last()[k] == s[k]);
        }
        lemma_tally_none(s.drop_last(), keep);
        assert(!keep(s[s.len() - 1]));
    }
}

/// Where `text` stands among `names`, if it does.
fn position_of(names: &Vec<Vec<char>>, text: &Vec<char>) -> (found: Option<usize>)
    ensures
        match found {
            Some(j) => j < names@.len() && names@[j as int]@ == text@,
            None => forall|j: int| 0 <= j < names@.len() ==> (#[trigger] names@[j])@ != text@,
        },
{
    let mut j: usize = 0;
    while j < names.len()
        invariant
            j <= names@.len(),
            forall|k: int| 0 <= k < j ==> (#[trigger] names@[k])@ != text@,
        decreases names@.len() - j,
    {
        if compare_text(names[j].as_slice(), text.as_slice()) == 0 {
            return Some(j);
        }
        j = j + 1;
    }
    None
}

/// The distinct domains reached within `[from, to)`, each with its text and
/// its number of reaches, in order of first reach.
#[verifier::spinoff_prover]
fn count_sites(reaches: &[Reach], from: i64, to: i64) -> (sites: (Vec<String>, Vec<Vec<char>>, Vec<u32>))
    requires
        reaches@.len() <= u32::MAX,
    ensures
        sites.0@.len() == sites.1@.len() == sites.2@.len(),
        forall|j: int| 0 <= j < sites.1@.len() ==> sites.0@[j]@ == (#[trigger] sites.1@[j])@,
        forall|j: int|
            0 <= j < sites.1@.len() ==> sites.2@[j] == tally(
                reaches@,
                to_site(from as int, to as int, (#[trigger] sites.1@[j])@),
            ) && sites.2@[j] > 0,
        forall|j: int, k: int|
            0 <= j < sites.1@.len() && 0 <= k < sites.1@.len() && j != k ==> (
            #[trigger] sites.1@[j])@ != (#[trigger] sites.1@[k])@,
        forall|r: int|
            0 <= r < reaches@.len() && within(from as int, to as int)(#[trigger] reaches@[r])
                ==> exists|j: int| 0 <= j < sites.1@.len() && (#[trigger] sites.1@[j])@ == reaches@[r].domain@,
{
    let mut names: Vec<String> = Vec::new();
    let mut texts: Vec<Vec<char>> = Vec::new();
    let mut counts: Vec<u32> = Vec::new();
    let mut i: usize = 0;
    while i < reaches.len()
        invariant
            i <= reaches@.len() <= u32::MAX,
            names@.len() == texts@.len() == counts@.len(),
            forall|j: int| 0 <= j < texts@.len() ==> names@[j]@ == (#[trigger] texts@[j])@,
            forall|j: int|
                0 <= j < texts@.len() ==> counts@[j] == tally(
                    reaches@.take(i as int),
                    to_site(from as int, to as int, (#[trigger] texts@[j])@),
                ) && counts@[j] > 0,
            forall|j: int, k: int|
                0 <= j < texts@.len() && 0 <= k < texts@.len() && j != k ==> (
                #[trigger] texts@[j])@ != (#[trigger] texts@[k])@,
            forall|r: int|
                0 <= r < i && within(from as int, to as int)(#[trigger] reaches@[r]) ==> exists|j: int|
                    0 <= j < texts@.len() && (#[trigger] texts@[j])@ == reaches@[r].domain@,
        decreases reaches@.len() - i,
    {
        let ghost before = i as int;
        let reach = &reaches[i];
        proof {
            assert forall|j: int| 0 <= j < texts@.len() implies tally(
                reaches@.take(before + 1),
                to_site(from as int, to as int, (#[trigger] texts@[j])@),
            ) == tally(reaches@.take(before), to_site(from as int, to as int, texts@[j]@)) + if to_site(
                from as int,
                to as int,
                texts@[j]@,
            )(reaches@[before]) {
                1nat
            } else {
                0nat
            } && counts@[j] <= before by {
                lemma_tally_step(reaches@, before, to_site(from as int, to as int, texts@[j]@));
                lemma_tally_bound(
                    reaches@.take(before),
                    to_site(from as int, to as int, texts@[j]@),
                );
            }
        }
        let ghost old_texts = texts@;
        let ghost old_counts = counts@;
        if from <= reach.at && reach.at < to {
            let text = chars_of(reach.domain.as_str());
            match position_of(&texts, &text) {
                Some(j) => {
                    counts[j] = counts[j] + 1;
                    assert(texts@[j as int]@ == reaches@[before].domain@);
                },
                None => {
                    proof {
                        let t = text@;
                        assert forall|r: int| 0 <= r < before implies !to_site(
                            from as int,
                            to as int,
                            t,
                        )(#[trigger] reaches@.take(before)[r]) by {
                            assert(reaches@.take(before)[r] == reaches@[r]);
                            if within(from as int, to as int)(reaches@[r]) {
                                let j = choose|j: int|
                                    0 <= j < old_texts.len() && (#[trigger] old_texts[j])@
                                        == reaches@[r].domain@;
                            }
                        }
                        lemma_tally_none(reaches@.take(before), to_site(from as int, to as int, t));
                        lemma_tally_step(reaches@, before, to_site(from as int, to as int, t));
                    }
                    names.push(reach.domain.clone());
                    texts.push(text);
                    counts.push(1);
                    assert(texts@[old_texts.len() as int]@ == reaches@[before].domain@);
                    assert forall|j: int| 0 <= j < old_texts.len() implies (#[trigger] texts@[j])
                        == old_texts[j] by {}
                },
            }
        }
        proof {
            assert forall|j: int| 0 <= j < texts@.len() implies counts@[j] == tally(
                reaches@.take(before + 1),
                to_site(from as int, to as int, (#[trigger] texts@[j])@),
            ) && counts@[j] > 0 by {
                if j < old_texts.len() {
                    assert(texts@[j] == old_texts[j]);
                    assert(old_counts[j] == tally(
                        reaches@.take(before),
                        to_site(from as int, to as int, old_texts[j]@),
                    ));
                }
            }
            assert forall|r: int|
                0 <= r < before + 1 && within(from as int, to as int)(
                    #[trigger] reaches@[r],
                ) implies exists|j: int|
                0 <= j < texts@.len() && (#[trigger] texts@[j])@ == reaches@[r].domain@ by {
                if r < before {
                    let j = choose|j: int|
                        0 <= j < old_texts.len() && (#[trigger] old_texts[j])@ == reaches@[r].domain@;
                    assert(texts@[j] == old_texts[j]);
                }
            }
        }
        i = i + 1;
        assert forall|j: int| 0 <= j < texts@.len() implies counts@[j] == tally(
            reaches@.take(i as int),
            to_site(from as int, to as int, (#[trigger] texts@[j])@),
        ) && counts@[j] > 0 by {
            assert(i as int == before + 1);
        }
    }
    assert(reaches@.take(reaches@.len() as int) =~= reaches@);
    (names, texts, counts)
}

/// Site order is a strict total order on entries with distinct domains.
proof fn lemma_site_order(a: (Seq<char>, int), b: (Seq<char>, int), c: (Seq<char>, int))
    ensures
        a.0 != b.0 ==> site_before(a, b) || site_before(b, a),
        !(site_before(a, b) && site_before(b, a)),
        site_before(a, b) && site_before(b, c) ==> site_before(a, c),
{
    lemma_text_less_total(a.0, b.0);
    if site_before(a, b) && site_before(b, c) && a.1 == b.1 && b.1 == c.1 {
        lemma_text_less_transitive(a.0, b.0, c.0);
    }
}

/// The entry for site `j`.
pub open spec fn site_at(texts: Seq<Vec<char>>, counts: Seq<u32>, j: int) -> (Seq<char>, int) {
    (texts[j]@, counts[j] as int)
}

/// `domain` has an entry among `sites`.
pub open spec fn site_listed(sites: Seq<(String, u32)>, domain: Seq<char>) -> bool {
    exists|k: int| 0 <= k < sites.len() && (#[trigger] sites[k]).0@ == domain
}

/// `x` is among the entries of `order`.
pub open spec fn holds_index(order: Seq<usize>, x: int) -> bool {
    exists|a: int| 0 <= a < order.len() && order[a] == x
}

/// Site `x` comes before site `y`.
fn comes_before(texts: &Vec<Vec<char>>, counts: &Vec<u32>, x: usize, y: usize) -> (answer: bool)
    requires
        x < texts@.len(),
        y < texts@.len(),
        texts@.len() == counts@.len(),
    ensures
        answer == site_before(site_at(texts@, counts@, x as int), site_at(texts@, counts@, y as int)),
{
    counts[x] > counts[y] || (counts[x] == counts[y] && compare_text(
        texts[x].as_slice(),
        texts[y].as_slice(),
    ) < 0)
}

/// The sites' indices in site order: every index once, more reaches first,
/// then by domain.
fn order_sites(texts: &Vec<Vec<char>>, counts: &Vec<u32>) -> (order: Vec<usize>)
    requires
        texts@.len() == counts@.len(),
        forall|j: int, k: int|
            0 <= j < texts@.len() && 0 <= k < texts@.len() && j != k ==> (
            #[trigger] texts@[j])@ != (#[trigger] texts@[k])@,
    ensures
        order@.len() == texts@.len(),
        forall|a: int| 0 <= a < order@.len() ==> #[trigger] order@[a] < texts@.len(),
        forall|x: int| 0 <= x < texts@.len() ==> #[trigger] holds_index(order@, x),
        forall|a: int, b: int|
            0 <= a < b < order@.len() ==> site_before(
                site_at(texts@, counts@, #[trigger] order@[a] as int),
                site_at(texts@, counts@, #[trigger] order@[b] as int),
            ),
{
    let n = texts.len();
    let mut order: Vec<usize> = Vec::new();
    let mut k: usize = 0;
    while k < n
        invariant
            k <= n == texts@.len() == counts@.len(),
            forall|j: int, m: int|
                0 <= j < texts@.len() && 0 <= m < texts@.len() && j != m ==> (
                #[trigger] texts@[j])@ != (#[trigger] texts@[m])@,
            order@.len() == k,
            forall|a: int| 0 <= a < order@.len() ==> #[trigger] order@[a] < k,
            forall|x: int| 0 <= x < k ==> #[trigger] holds_index(order@, x),
            forall|a: int, b: int|
                0 <= a < b < order@.len() ==> site_before(
                    site_at(texts@, counts@, #[trigger] order@[a] as int),
                    site_at(texts@, counts@, #[trigger] order@[b] as int),
                ),
        decreases n - k,
    {
        let mut p: usize = 0;
        while p < order.len() && comes_before(texts, counts, order[p], k)
            invariant
                k < n == texts@.len() == counts@.len(),
                p <= order@.len(),
                forall|a: int| 0 <= a < order@.len() ==> #[trigger] order@[a] < k,
                forall|a: int|
                    0 <= a < p ==> site_before(
                        site_at(texts@, counts@, #[trigger] order@[a] as int),
                        site_at(texts@, counts@, k as int),
                    ),
            decreases order@.len() - p,
        {
            p = p + 1;
        }
        let ghost old_order = order@;
        proof {
            if p < old_order.len() {
                let q = old_order[p as int] as int;
                lemma_site_order(
                    site_at(texts@, counts@, q),
                    site_at(texts@, counts@, k as int),
                    site_at(texts@, counts@, k as int),
                );
            }
        }
        order.insert(p, k);
        proof {
            assert forall|a: int, b: int| 0 <= a < b < order@.len() implies site_before(
                site_at(texts@, counts@, #[trigger] order@[a] as int),
                site_at(texts@, counts@, #[trigger] order@[b] as int),
            ) by {
                if a < p && b == p {
                } else if a < p && b > p {
                    assert(order@[b] == old_order[b - 1]);
                    if p < old_order.len() {
                        lemma_site_order(
                            site_at(texts@, counts@, old_order[a] as int),
                            site_at(texts@, counts@, old_order[p as int] as int),
                            site_at(texts@, counts@, old_order[b - 1] as int),
                        );
                        lemma_site_order(
                            site_at(texts@, counts@, old_order[a] as int),
                            site_at(texts@, counts@, old_order[b - 1] as int),
                            site_at(texts@, counts@, old_order[b - 1] as int),
                        );
                    }
                } else if a == p {
                    assert(order@[b] == old_order[b - 1]);
                    if b - 1 > p {
                        lemma_site_order(
                            site_at(texts@, counts@, k as int),
                            site_at(texts@, counts@, old_order[p as int] as int),
                            site_at(texts@, counts@, old_order[b - 1] as int),
                        );
                    }
                } else if b < p {
                } else {
                    assert(order@[a] == old_order[a - 1]);
                    assert(order@[b] == old_order[b - 1]);
                }
            }
            assert forall|x: int| 0 <= x < k + 1 implies #[trigger] holds_index(order@, x) by {
                if x == k {
                    assert(order@[p as int] == k);
                } else {
                    assert(holds_index(old_order, x));
                    let a = choose|a: int| 0 <= a < old_order.len() && old_order[a] == x;
                    if a < p {
                        assert(order@[a] == x);
                    } else {
                        assert(order@[a + 1] == x);
                    }
                }
            }
        }
        k = k + 1;
    }
    order
}

/// How many estimates are for a day numbered `first` to `last`.
fn count_estimates(estimates: &[(LocalDate, u32)], first: i64, last: i64) -> (count: u32)
    requires
        estimates@.len() <= u32::MAX,
    ensures
        count == tally(estimates@, estimate_within(first as int, last as int)),
{
    let mut count: u32 = 0;
    let mut i: usize = 0;
    while i < estimates.len()
        invariant
            i <= estimates@.len() <= u32::MAX,
            count == tally(estimates@.take(i as int), estimate_within(first as int, last as int)),
        decreases estimates@.len() - i,
    {
        proof {
            lemma_tally_step(estimates@, i as int, estimate_within(first as int, last as int));
            lemma_tally_bound(
                estimates@.take(i as int),
                estimate_within(first as int, last as int),
            );
        }
        let day = estimates[i].0.days_since_epoch();
        if first <= day && day <= last {
            count = count + 1;
        }
        i = i + 1;
    }
    assert(estimates@.take(estimates@.len() as int) =~= estimates@);
    count
}

/// Buckets `reaches` by site, hour of day, day of week and local day across
/// `[from, to)`, and reports how many `estimates` fall in the same local-day
/// window. A reach counts exactly when `from <= at < to`: the offset only
/// chooses which bucket a counted reach lands in, never whether it counts.
pub fn summarize(
    reaches: &[Reach],
    estimates: &[(LocalDate, u32)],
    offset_seconds: i32,
    from: i64,
    to: i64,
) -> (patterns: Patterns)
    requires
        reaches@.len() <= u32::MAX,
        estimates@.len() <= u32::MAX,
        summarizable(offset_seconds as int, from as int, to as int),
    ensures
        patterns.by_hour@.len() == 24,
        forall|h: int|
            0 <= h < 24 ==> #[trigger] patterns.by_hour@[h] == tally(
                reaches@,
                at_hour(from as int, to as int, offset_seconds as int, h),
            ),
        patterns.by_weekday@.len() == 7,
        forall|w: int|
            0 <= w < 7 ==> #[trigger] patterns.by_weekday@[w] == tally(
                reaches@,
                on_weekday(from as int, to as int, offset_seconds as int, w),
            ),
        total(patterns.by_hour@) == tally(reaches@, within(from as int, to as int)),
        total(patterns.by_weekday@) == tally(reaches@, within(from as int, to as int)),
        to <= from ==> patterns.by_day@.len() == 0 && patterns.estimates_excluded == 0,
        to > from ==> {
            let first = local_day(from as int, offset_seconds as int);
            let last = local_day(to - 1, offset_seconds as int);
            &&& patterns.by_day@.len() == last - first + 1
            &&& forall|i: int|
                0 <= i < patterns.by_day@.len() ==> number_of((#[trigger] patterns.by_day@[i]).0@)
                    == first + i && patterns.by_day@[i].1 == tally(
                    reaches@,
                    day_bucket(from as int, to as int, offset_seconds as int, first, i),
                )
            &&& patterns.estimates_excluded == tally(estimates@, estimate_within(first, last))
        },
        forall|k: int|
            0 <= k < patterns.by_site@.len() ==> (#[trigger] patterns.by_site@[k]).1 == tally(
                reaches@,
                to_site(from as int, to as int, patterns.by_site@[k].0@),
            ) && patterns.by_site@[k].1 > 0,
        forall|r: int|
            0 <= r < reaches@.len() && within(from as int, to as int)(#[trigger] reaches@[r])
                ==> site_listed(patterns.by_site@, reaches@[r].domain@),
        forall|a: int, b: int|
            0 <= a < b < patterns.by_site@.len() ==> site_before(
                site_view(#[trigger] patterns.by_site@[a]),
                site_view(#[trigger] patterns.by_site@[b]),
            ),
        is_site_tally(site_views(patterns.by_site@), reaches@, from as int, to as int),
{
    let window = if to <= from {
        None
    } else {
        Some((day_of(from, offset_seconds), day_of(to - 1, offset_seconds)))
    };
    let (first, days): (i64, usize) = match window {
        Some((first, last)) => (first, (last - first + 1) as usize),
        None => (0, 0),
    };
    let (by_hour, by_weekday, day_counts) = count_buckets(
        reaches,
        offset_seconds,
        from,
        to,
        first,
        days,
    );
    let (names, texts, counts) = count_sites(reaches, from, to);
    let order = order_sites(&texts, &counts);
    let mut by_site: Vec<(String, u32)> = Vec::new();
    let mut a: usize = 0;
    while a < order.len()
        invariant
            a <= order@.len() == texts@.len() == names@.len() == counts@.len(),
            forall|j: int| 0 <= j < texts@.len() ==> names@[j]@ == (#[trigger] texts@[j])@,
            forall|q: int| 0 <= q < order@.len() ==> #[trigger] order@[q] < texts@.len(),
            by_site@.len() == a,
            forall|q: int|
                0 <= q < a ==> site_view(#[trigger] by_site@[q]) == site_at(
                    texts@,
                    counts@,
                    order@[q] as int,
                ),
        decreases order@.len() - a,
    {
        let j = order[a];
        let name = names[j].clone();
        assert(name@ == texts@[j as int]@);
        by_site.push((name, counts[j]));
        a = a + 1;
    }
    proof {
        assert forall|k: int| 0 <= k < by_site@.len() implies (#[trigger] by_site@[k]).1 == tally(
            reaches@,
            to_site(from as int, to as int, by_site@[k].0@),
        ) && by_site@[k].1 > 0 by {
            assert(site_view(by_site@[k]) == site_at(texts@, counts@, order@[k] as int));
        }
        assert forall|q: int, b: int| 0 <= q < b < by_site@.len() implies site_before(
            site_view(#[trigger] by_site@[q]),
            site_view(#[trigger] by_site@[b]),
        ) by {
            assert(site_view(by_site@[q]) == site_at(texts@, counts@, order@[q] as int));
            assert(site_view(by_site@[b]) == site_at(texts@, counts@, order@[b] as int));
        }
    }
    let mut by_day: Vec<(LocalDate, u32)> = Vec::new();
    let mut i: usize = 0;
    while i < days
        invariant
            i <= days == day_counts@.len(),
            to > from ==> first == local_day(from as int, offset_seconds as int) && days
                == local_day(to - 1, offset_seconds as int) - first + 1,
            to <= from ==> days == 0,
            summarizable(offset_seconds as int, from as int, to as int),
            by_day@.len() == i,
            forall|q: int|
                0 <= q < i ==> number_of((#[trigger] by_day@[q]).0@) == first + q && by_day@[q].1
                    == day_counts@[q],
        decreases days - i,
    {
        let date = LocalDate::from_days_since_epoch(first + i as i64);
        by_day.push((date, day_counts[i]));
        i = i + 1;
    }
    let estimates_excluded = match window {
        Some((first, last)) => count_estimates(estimates, first, last),
        None => 0,
    };
    proof {
        assert forall|r: int|
            0 <= r < reaches@.len() && within(from as int, to as int)(
                #[trigger] reaches@[r],
            ) implies site_listed(by_site@, reaches@[r].domain@) by {
            let j = choose|j: int|
                0 <= j < texts@.len() && (#[trigger] texts@[j])@ == reaches@[r].domain@;
            assert(holds_index(order@, j));
            let q = choose|q: int| 0 <= q < order@.len() && order@[q] == j;
            assert(site_view(by_site@[q]) == site_at(texts@, counts@, j));
        }
        lemma_site_views(by_site@, reaches@, from as int, to as int);
    }
    Patterns { by_site, by_hour, by_weekday, by_day, estimates_excluded }
}

/// The site entries as text and count.
pub open spec fn site_views(sites: Seq<(String, u32)>) -> Seq<(Seq<char>, int)> {
    sites.map_values(|entry: (String, u32)| site_view(entry))
}

/// What `summarize` states of its sites, entry by entry, makes them the
/// tally by site.
proof fn lemma_site_views(sites: Seq<(String, u32)>, reaches: Seq<Reach>, from: int, to: int)
    requires
        forall|k: int|
            0 <= k < sites.len() ==> (#[trigger] sites[k]).1 == tally(reaches, to_site(from, to, sites[k].0@))
                && sites[k].1 > 0,
        forall|r: int|
            0 <= r < reaches.len() && within(from, to)(#[trigger] reaches[r]) ==> site_listed(
                sites,
                reaches[r].domain@,
            ),
        forall|a: int, b: int|
            0 <= a < b < sites.len() ==> site_before(site_view(#[trigger] sites[a]), site_view(#[trigger] sites[b])),
    ensures
        is_site_tally(site_views(sites), reaches, from, to),
{
    let views = site_views(sites);
    assert forall|k: int| 0 <= k < views.len() implies (#[trigger] views[k]).1 == tally(
        reaches,
        to_site(from, to, views[k].0),
    ) && views[k].1 > 0 by {
        assert(views[k] == site_view(sites[k]));
    }
    assert forall|r: int| 0 <= r < reaches.len() && within(from, to)(#[trigger] reaches[r]) implies exists|k: int|
        0 <= k < views.len() && (#[trigger] views[k]).0 == reaches[r].domain@ by {
        let k = choose|k: int| 0 <= k < sites.len() && (#[trigger] sites[k]).0@ == reaches[r].domain@;
        assert(views[k] == site_view(sites[k]));
    }
    assert forall|a: int, b: int| 0 <= a < b < views.len() implies site_before(#[trigger] views[a], #[trigger] views[b]) by {
        assert(views[a] == site_view(sites[a]) && views[b] == site_view(sites[b]));
    }
}

/// `sites` is the tally by site of `reaches` over `[from, to)`: each entry a
/// domain with the number of reaches to it in the range, which is more than
/// none; every domain reached in the range has an entry; and the entries run
/// from most reached to least, then by domain.
pub open spec fn is_site_tally(sites: Seq<(Seq<char>, int)>, reaches: Seq<Reach>, from: int, to: int) -> bool {
    &&& forall|k: int|
        0 <= k < sites.len() ==> (#[trigger] sites[k]).1 == tally(reaches, to_site(from, to, sites[k].0))
            && sites[k].1 > 0
    &&& forall|r: int|
        0 <= r < reaches.len() && within(from, to)(#[trigger] reaches[r]) ==> exists|k: int|
            0 <= k < sites.len() && (#[trigger] sites[k]).0 == reaches[r].domain@
    &&& forall|a: int, b: int|
        0 <= a < b < sites.len() ==> site_before(#[trigger] sites[a], #[trigger] sites[b])
}

/// Something counted means something kept.
proof fn lemma_tally_some<A>(s: Seq<A>, keep: spec_fn(A) -> bool)
    requires
        tally(s, keep) > 0,
    ensures
        exists|k: int| 0 <= k < s.len() && keep(#[trigger] s[k]),
{
    if !exists|k: int| 0 <= k < s.len() && keep(#[trigger] s[k]) {
        lemma_tally_none(s, keep);
    }
}

/// Two lists in strict site order holding the same entries are the same list.
proof fn lemma_ordered_sites_same(s1: Seq<(Seq<char>, int)>, s2: Seq<(Seq<char>, int)>)
    requires
        forall|a: int, b: int| 0 <= a < b < s1.len() ==> site_before(#[trigger] s1[a], #[trigger] s1[b]),
        forall|a: int, b: int| 0 <= a < b < s2.len() ==> site_before(#[trigger] s2[a], #[trigger] s2[b]),
        forall|x: (Seq<char>, int)| s1.contains(x) <==> s2.contains(x),
    ensures
        s1 == s2,
    decreases s1.len(),
{
    if s1.len() == 0 {
        if s2.len() > 0 {
            assert(s2.contains(s2[0]));
        }
        assert(s1 =~= s2);
    } else {
        assert(s1.contains(s1[0]));
        let j = choose|j: int| 0 <= j < s2.len() && s2[j] == s1[0];
        assert(s2.contains(s2[0]));
        let i = choose|i: int| 0 <= i < s1.len() && s1[i] == s2[0];
        lemma_site_order(s1[0], s2[0], s1[0]);
        if j > 0 && i > 0 {
            assert(site_before(s2[0], s2[j]));
            assert(site_before(s1[0], s1[i]));
        }
        assert(s1[0] == s2[0]);
        let t1 = s1.drop_first();
        let t2 = s2.drop_first();
        assert forall|x: (Seq<char>, int)| t1.contains(x) <==> t2.contains(x) by {
            if t1.contains(x) {
                let k = choose|k: int| 0 <= k < t1.len() && t1[k] == x;
                assert(s1[k + 1] == x);
                assert(site_before(s1[0], s1[k + 1]));
                lemma_site_order(x, x, x);
                assert(s1.contains(x));
                let m = choose|m: int| 0 <= m < s2.len() && s2[m] == x;
                assert(m != 0);
                assert(t2[m - 1] == x);
            }
            if t2.contains(x) {
                let k = choose|k: int| 0 <= k < t2.len() && t2[k] == x;
                assert(s2[k + 1] == x);
                assert(site_before(s2[0], s2[k + 1]));
                lemma_site_order(x, x, x);
                assert(s2.contains(x));
                let m = choose|m: int| 0 <= m < s1.len() && s1[m] == x;
                assert(m != 0);
                assert(t1[m - 1] == x);
            }
        }
        assert forall|a: int, b: int| 0 <= a < b < t1.len() implies site_before(#[trigger] t1[a], #[trigger] t1[b]) by {
            assert(t1[a] == s1[a + 1] && t1[b] == s1[b + 1]);
        }
        assert forall|a: int, b: int| 0 <= a < b < t2.len() implies site_before(#[trigger] t2[a], #[trigger] t2[b]) by {
            assert(t2[a] == s2[a + 1] && t2[b] == s2[b + 1]);
        }
        lemma_ordered_sites_same(t1, t2);
        assert(s1 =~= seq![s1[0]] + t1);
        assert(s2 =~= seq![s2[0]] + t2);
    }
}

/// The tally by site depends on the reaches and the range alone: there is
/// exactly one, so a summary's sites (and, with them, how many reaches the
/// range holds) are the same whatever the time-zone offset.
pub proof fn lemma_site_tally_is_unique(
    first: Seq<(Seq<char>, int)>,
    second: Seq<(Seq<char>, int)>,
    reaches: Seq<Reach>,
    from: int,
    to: int,
)
    requires
        is_site_tally(first, reaches, from, to),
        is_site_tally(second, reaches, from, to),
    ensures
        first == second,
{
    assert forall|x: (Seq<char>, int)| first.contains(x) implies second.contains(x) by {
        let k = choose|k: int| 0 <= k < first.len() && first[k] == x;
        assert(first[k].1 > 0);
        lemma_tally_some(reaches, to_site(from, to, x.0));
        let r = choose|r: int| 0 <= r < reaches.len() && to_site(from, to, x.0)(#[trigger] reaches[r]);
        assert(within(from, to)(reaches[r]));
        let j = choose|j: int| 0 <= j < second.len() && (#[trigger] second[j]).0 == reaches[r].domain@;
        assert(second[j] == x);
    }
    assert forall|x: (Seq<char>, int)| second.contains(x) implies first.contains(x) by {
        let k = choose|k: int| 0 <= k < second.len() && second[k] == x;
        assert(second[k].1 > 0);
        lemma_tally_some(reaches, to_site(from, to, x.0));
        let r = choose|r: int| 0 <= r < reaches.len() && to_site(from, to, x.0)(#[trigger] reaches[r]);
        assert(within(from, to)(reaches[r]));
        let j = choose|j: int| 0 <= j < first.len() && (#[trigger] first[j]).0 == reaches[r].domain@;
        assert(first[j] == x);
    }
    lemma_ordered_sites_same(first, second);
}

} // verus!
