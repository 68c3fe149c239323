//! Whether the once-a-day reflection announcement is due right now.
//!
//! The guarantee is at most one reminder a day, and it rests on this
//! function: it reads no clock of its own, so every input it decides on is an
//! argument. The caller records the answer before raising anything, so that a
//! crash in between costs a missed reminder rather than a duplicate.
use vstd::prelude::*;
use crate::domain::dates::LocalDate;

verus! {

/// `a + b` clamped into `i64`.
pub open spec fn saturated_sum(a: int, b: int) -> int {
    if a + b > i64::MAX {
        i64::MAX as int
    } else if a + b < i64::MIN {
        i64::MIN as int
    } else {
        a + b
    }
}

/// The announcement for `day` is due at `now`: it is switched on, `day` has
/// not been announced, the chosen hour of `day` has come and `day` has not
/// yet ended.
pub open spec fn due(
    day: (int, int, int),
    day_start: int,
    chosen_hour: int,
    now: int,
    last_announced: Option<(int, int, int)>,
    switched_on: bool,
) -> bool {
    &&& switched_on
    &&& last_announced != Some(day)
    &&& now >= saturated_sum(day_start, chosen_hour * 3600)
    &&& now < saturated_sum(day_start, 86_400)
}

/// `a + b` without overflow: clamped at either end of `i64`.
fn add_saturating(a: i64, b: i64) -> (sum: i64)
    ensures
        sum == saturated_sum(a as int, b as int),
{
    match a.checked_add(b) {
        Some(sum) => sum,
        None => if b > 0 {
            i64::MAX
        } else {
            i64::MIN
        },
    }
}

/// Whether the reflection announcement should fire right now: it is
/// switched on, the chosen hour has arrived on `day`
/// (`now >= day_start + chosen_hour * 3600`), `now` has not yet left `day`
/// (`now < day_start + 86_400`), and `day` is not already the last day
/// announced. A missed hour is missed, not queued.
pub fn announcement_due(
    day: LocalDate,
    day_start: i64,
    chosen_hour: u8,
    now: i64,
    last_announced: Option<LocalDate>,
    switched_on: bool,
) -> (answer: bool)
    ensures
        answer == due(
            day@,
            day_start as int,
            chosen_hour as int,
            now as int,
            match last_announced {
                Some(last) => Some(last@),
                None => None,
            },
            switched_on,
        ),
{
    if !switched_on {
        return false;
    }
    let already = match last_announced {
        Some(last) => last.year() == day.year() && last.month() == day.month() && last.day()
            == day.day(),
        None => false,
    };
    if already {
        return false;
    }
    let hour_offset = chosen_hour as i64 * 3_600;
    let due_at = add_saturating(day_start, hour_offset);
    let day_end = add_saturating(day_start, 86_400);
    now >= due_at && now < day_end
}

/// Once `day` is recorded as announced, no later call announces it again,
/// whatever the time; and after `day` has ended nothing is due for it.
pub proof fn lemma_at_most_once_a_day(
    day: (int, int, int),
    day_start: int,
    chosen_hour: int,
    now: int,
    last_announced: Option<(int, int, int)>,
    switched_on: bool,
)
    requires
        i64::MIN <= day_start <= i64::MAX,
    ensures
        !due(day, day_start, chosen_hour, now, Some(day), switched_on),
        now >= day_start + 86_400 ==> !due(
            day,
            day_start,
            chosen_hour,
            now,
            last_announced,
            switched_on,
        ),
{
}

/// Only the day itself counts as announced: when the announcement is switched
/// on, the day last announced is any other date (another year, month or day,
/// or none at all), and `now` lies between the chosen hour of `day` and its
/// end, the announcement is due.
pub proof fn lemma_another_day_does_not_count(
    day: (int, int, int),
    day_start: int,
    chosen_hour: int,
    now: int,
    last_announced: Option<(int, int, int)>,
)
    requires
        last_announced matches Some(last) ==> last.0 != day.0 || last.1 != day.1 || last.2 != day.2,
        0 <= chosen_hour <= 24,
        i64::MIN <= day_start,
        day_start + 86_400 <= i64::MAX,
        day_start + chosen_hour * 3600 <= now < day_start + 86_400,
    ensures
        due(day, day_start, chosen_hour, now, last_announced, true),
{
}

/// Nothing is due while the announcement is switched off, nor before the
/// chosen hour of the day has come.
pub proof fn lemma_not_before_the_hour(
    day: (int, int, int),
    day_start: int,
    chosen_hour: int,
    now: int,
    last_announced: Option<(int, int, int)>,
    switched_on: bool,
)
    requires
        0 <= chosen_hour <= 24,
        i64::MIN <= day_start,
        day_start + 86_400 <= i64::MAX,
    ensures
        !switched_on ==> !due(day, day_start, chosen_hour, now, last_announced, switched_on),
        now < day_start + chosen_hour * 3600 ==> !due(day, day_start, chosen_hour, now, last_announced, switched_on),
{
}

} // verus!
