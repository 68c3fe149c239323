//! A calendar date (year, month, day) with no clock and no time zone.
//!
//! A day is kept as the date a person would write on a calendar, so that
//! "Tuesday's entry" stays Tuesday's after a move across zones. Everything
//! here is integer arithmetic over the proleptic Gregorian calendar.
use vstd::prelude::*;
use vstd::arithmetic::div_mod::{lemma_hoist_over_denominator, lemma_mod_multiples_vanish};
use crate::text::{all_digits, chars_of, is_digit, push_str, string_of};

verus! {

/// Why a set of year/month/day fields, or a piece of text, does not name a
/// calendar day.
#[derive(Clone, PartialEq, Eq, Debug, Structural)]
pub enum DateError {
    /// `month` was not in `1..=12`.
    MonthOutOfRange(u8),
    /// `day` does not exist in that year and month, 29 February outside a
    /// leap year among them.
    DayOutOfRange { year: i32, month: u8, day: u8 },
    /// Text did not have the form `YYYY-MM-DD`.
    Malformed,
}

/// A Gregorian leap year: divisible by 4, unless by 100, unless by 400.
pub open spec fn is_leap(year: int) -> bool {
    (year % 4 == 0 && year % 100 != 0) || year % 400 == 0
}

/// How many days `month` (1 to 12) has in `year`; 0 for any other month.
pub open spec fn month_length(year: int, month: int) -> int {
    if month == 2 {
        if is_leap(year) {
            29
        } else {
            28
        }
    } else if month == 4 || month == 6 || month == 9 || month == 11 {
        30
    } else if 1 <= month <= 12 {
        31
    } else {
        0
    }
}

/// `year`-`month`-`day` is a day that exists, with a year that fits `i32`.
pub open spec fn is_calendar_day(year: int, month: int, day: int) -> bool {
    &&& i32::MIN <= year <= i32::MAX
    &&& 1 <= month <= 12
    &&& 1 <= day <= month_length(year, month)
}

/// The number of leap years in `1..=n`; for `n < 0`, minus the number of
/// leap years in `n+1..=0`.
pub open spec fn leap_years_through(n: int) -> int {
    n / 4 - n / 100 + n / 400
}

/// Days from 1970-01-01 to 1 January of `year` (negative before 1970).
pub open spec fn days_before_year(year: int) -> int {
    365 * (year - 1970) + leap_years_through(year - 1) - leap_years_through(1969)
}

/// Days from 1 January of `year` to the first of `month` (`month` 13 gives
/// the length of the year).
pub open spec fn days_before_month(year: int, month: int) -> int {
    let common: int = if month <= 1 {
        0
    } else if month == 2 {
        31
    } else if month == 3 {
        59
    } else if month == 4 {
        90
    } else if month == 5 {
        120
    } else if month == 6 {
        151
    } else if month == 7 {
        181
    } else if month == 8 {
        212
    } else if month == 9 {
        243
    } else if month == 10 {
        273
    } else if month == 11 {
        304
    } else if month == 12 {
        334
    } else {
        365
    };
    common + if month > 2 && is_leap(year) {
        1int
    } else {
        0int
    }
}

/// The day number of `year`-`month`-`day`: how many days it comes after
/// 1970-01-01, which is day zero.
pub open spec fn day_number(year: int, month: int, day: int) -> int {
    days_before_year(year) + days_before_month(year, month) + day - 1
}

/// The day number of the first day whose year fits `i32`.
pub open spec fn first_day_number() -> int {
    days_before_year(i32::MIN as int)
}

/// The day number of the last day whose year fits `i32`.
pub open spec fn last_day_number() -> int {
    days_before_year(i32::MAX + 1) - 1
}

/// The weekday of day number `n`: 0 for Monday through 6 for Sunday.
/// Day zero, 1970-01-01, was a Thursday.
pub open spec fn weekday_of(n: int) -> int {
    (n + 3) % 7
}

/// One more year adds 365 days, or 366 after a leap year.
#[verifier::spinoff_prover]
proof fn lemma_year_step(year: int)
    ensures
        days_before_year(year + 1) == days_before_year(year) + 365 + if is_leap(year) {
            1int
        } else {
            0int
        },
{
    assert(year / 4 - (year - 1) / 4 == if year % 4 == 0 {
        1int
    } else {
        0int
    });
    assert(year / 100 - (year - 1) / 100 == if year % 100 == 0 {
        1int
    } else {
        0int
    });
    assert(year / 400 - (year - 1) / 400 == if year % 400 == 0 {
        1int
    } else {
        0int
    });
}

/// One more month adds that month's length.
proof fn lemma_month_step(year: int, month: int)
    requires
        1 <= month <= 12,
    ensures
        days_before_month(year, month + 1) == days_before_month(year, month) + month_length(
            year,
            month,
        ),
{
}

/// Four hundred years always hold 146 097 days.
proof fn lemma_eras(year: int, eras: nat)
    ensures
        days_before_year(year + 400 * eras) == days_before_year(year) + 146097 * eras,
{
    let n = year - 1;
    lemma_hoist_over_denominator(n, (100 * eras) as int, 4);
    lemma_hoist_over_denominator(n, (4 * eras) as int, 100);
    lemma_hoist_over_denominator(n, eras as int, 400);
    assert(n + 100 * eras * 4 == n + 400 * eras);
    assert(n + 4 * eras * 100 == n + 400 * eras);
    assert(n + eras * 400 == n + 400 * eras);
}

/// Later years start later.
proof fn lemma_years_ordered(earlier: int, later: int)
    requires
        earlier <= later,
    ensures
        days_before_year(earlier) + 365 * (later - earlier) <= days_before_year(later),
    decreases later - earlier,
{
    if earlier < later {
        lemma_years_ordered(earlier, later - 1);
        lemma_year_step(later - 1);
    }
}

/// The numbers that bound the range of years `i32` can hold.
proof fn lemma_bounds()
    ensures
        days_before_year(-2147484000) == -784353144398,
        first_day_number() == -784353015833,
        last_day_number() == 784351576776,
{
}

/// The days of two different calendar days have different numbers.
pub proof fn lemma_day_numbers_differ(
    year: int,
    month: int,
    day: int,
    other_year: int,
    other_month: int,
    other_day: int,
)
    requires
        is_calendar_day(year, month, day),
        is_calendar_day(other_year, other_month, other_day),
        day_number(year, month, day) == day_number(other_year, other_month, other_day),
    ensures
        year == other_year,
        month == other_month,
        day == other_day,
{
    lemma_day_in_year(year, month, day);
    lemma_day_in_year(other_year, other_month, other_day);
    if year < other_year {
        lemma_years_ordered(year + 1, other_year);
    } else if other_year < year {
        lemma_years_ordered(other_year + 1, year);
    }
    lemma_day_in_month(year, month, day);
    lemma_day_in_month(other_year, other_month, other_day);
    if month < other_month {
        lemma_months_ordered(year, month + 1, other_month);
    } else if other_month < month {
        lemma_months_ordered(year, other_month + 1, month);
    }
}

/// A calendar day falls between the first day of its year and the first day
/// of the next.
proof fn lemma_day_in_year(year: int, month: int, day: int)
    requires
        is_calendar_day(year, month, day),
    ensures
        days_before_year(year) <= day_number(year, month, day) < days_before_year(year + 1),
{
    lemma_year_step(year);
    lemma_months_ordered(year, month + 1, 13);
    lemma_month_step(year, month);
}

/// A calendar day falls between the first day of its month and the first
/// day of the next.
proof fn lemma_day_in_month(year: int, month: int, day: int)
    requires
        is_calendar_day(year, month, day),
    ensures
        days_before_month(year, month) <= day_number(year, month, day) - days_before_year(year)
            < days_before_month(year, month + 1),
{
    lemma_month_step(year, month);
}

/// Later months of a year start later.
proof fn lemma_months_ordered(year: int, earlier: int, later: int)
    requires
        1 <= earlier <= later <= 13,
    ensures
        days_before_month(year, earlier) <= days_before_month(year, later),
{
}

/// A calendar date. There is no way to build one from unchecked fields, so
/// every `LocalDate` names a day that exists.
#[derive(Clone, Copy, PartialEq, Eq, PartialOrd, Ord, Debug, Hash)]
pub struct LocalDate {
    year: i32,
    month: u8,
    day: u8,
}

impl View for LocalDate {
    type V = (int, int, int);

    /// The year, month and day.
    closed spec fn view(&self) -> (int, int, int) {
        (self.year as int, self.month as int, self.day as int)
    }
}

/// The day number of a date's view.
pub open spec fn number_of(date: (int, int, int)) -> int {
    day_number(date.0, date.1, date.2)
}

/// What building a date from `year`, `month` and `day` gives: the fields
/// themselves when they name a day, else the reason they do not.
pub open spec fn date_outcome(year: int, month: int, day: int) -> Result<(int, int, int), DateError> {
    if !(1 <= month <= 12) {
        Err(DateError::MonthOutOfRange(month as u8))
    } else if !(1 <= day <= month_length(year, month)) {
        Err(DateError::DayOutOfRange { year: year as i32, month: month as u8, day: day as u8 })
    } else {
        Ok((year, month, day))
    }
}

/// A built date taken by its view.
pub open spec fn outcome_of(built: Result<LocalDate, DateError>) -> Result<
    (int, int, int),
    DateError,
> {
    match built {
        Ok(date) => Ok(date@),
        Err(e) => Err(e),
    }
}

/// `year` is a leap year; `year` is within three billion of zero.
fn is_leap_year(year: i64) -> (leap: bool)
    requires
        -2_999_999_000 <= year <= 2_999_999_000,
    ensures
        leap == is_leap(year as int),
{
    let shifted = (year + 3_000_000_000) as u64;
    proof {
        lemma_mod_multiples_vanish(750_000_000, year as int, 4);
        lemma_mod_multiples_vanish(30_000_000, year as int, 100);
        lemma_mod_multiples_vanish(7_500_000, year as int, 400);
    }
    (shifted % 4 == 0 && shifted % 100 != 0) || shifted % 400 == 0
}

/// The number of days in `month` of `year`.
fn days_in_month(year: i64, month: u8) -> (days: u8)
    requires
        -2_999_999_000 <= year <= 2_999_999_000,
        1 <= month <= 12,
    ensures
        days == month_length(year as int, month as int),
{
    if month == 2 {
        if is_leap_year(year) {
            29
        } else {
            28
        }
    } else if month == 4 || month == 6 || month == 9 || month == 11 {
        30
    } else {
        31
    }
}

/// The number of days in `year`.
fn year_length(year: i64) -> (days: i64)
    requires
        -2_999_999_000 <= year <= 2_999_999_000,
    ensures
        days == days_before_year(year + 1) - days_before_year(year as int),
{
    proof {
        lemma_year_step(year as int);
    }
    if is_leap_year(year) {
        366
    } else {
        365
    }
}

/// Days from 1970-01-01 to 1 January of `year`.
fn first_of_year(year: i64) -> (days: i64)
    requires
        -2_999_999_000 <= year <= 2_999_999_000,
    ensures
        days == days_before_year(year as int),
{
    let shifted = (year - 1 + 3_000_000_000) as u64;
    proof {
        lemma_hoist_over_denominator(year - 1, 750_000_000, 4);
        lemma_hoist_over_denominator(year - 1, 30_000_000, 100);
        lemma_hoist_over_denominator(year - 1, 7_500_000, 400);
    }
    let leaps = (shifted / 4 - shifted / 100 + shifted / 400) as i64;
    365 * (year - 1970) + (leaps - 727_500_000) - 477
}

/// Days from 1 January to the first of `month`.
fn first_of_month(year: i64, month: u8) -> (days: i64)
    requires
        -2_999_999_000 <= year <= 2_999_999_000,
        1 <= month <= 12,
    ensures
        days == days_before_month(year as int, month as int),
{
    let common: i64 = if month == 1 {
        0
    } else if month == 2 {
        31
    } else if month == 3 {
        59
    } else if month == 4 {
        90
    } else if month == 5 {
        120
    } else if month == 6 {
        151
    } else if month == 7 {
        181
    } else if month == 8 {
        212
    } else if month == 9 {
        243
    } else if month == 10 {
        273
    } else if month == 11 {
        304
    } else {
        334
    };
    if month > 2 && is_leap_year(year) {
        common + 1
    } else {
        common
    }
}

impl LocalDate {
    /// Every date names a day that exists.
    #[verifier::type_invariant]
    spec fn names_a_day(self) -> bool {
        is_calendar_day(self.year as int, self.month as int, self.day as int)
    }

    /// Build a date from its calendar fields, refusing a month outside
    /// 1 to 12 and a day the month does not have.
    pub fn new(year: i32, month: u8, day: u8) -> (built: Result<LocalDate, DateError>)
        ensures
            outcome_of(built) == date_outcome(year as int, month as int, day as int),
    {
        if month < 1 || month > 12 {
            return Err(DateError::MonthOutOfRange(month));
        }
        let last_day = days_in_month(year as i64, month);
        if day == 0 || day > last_day {
            return Err(DateError::DayOutOfRange { year, month, day });
        }
        Ok(LocalDate { year, month, day })
    }

    pub fn year(&self) -> (year: i32)
        ensures
            year == self@.0,
    {
        self.year
    }

    pub fn month(&self) -> (month: u8)
        ensures
            month == self@.1,
    {
        self.month
    }

    pub fn day(&self) -> (day: u8)
        ensures
            day == self@.2,
    {
        self.day
    }

    /// The date's view names a day that exists.
    pub fn check(&self)
        ensures
            is_calendar_day(self@.0, self@.1, self@.2),
    {
        proof {
            use_type_invariant(self);
        }
    }

    /// The date `days` days after 1970-01-01, which is day zero; `days` is
    /// negative for a date before it.
    pub fn from_days_since_epoch(days: i64) -> (date: LocalDate)
        requires
            first_day_number() <= days <= last_day_number(),
        ensures
            is_calendar_day(date@.0, date@.1, date@.2),
            number_of(date@) == days,
    {
        proof {
            lemma_bounds();
        }
        let offset = (days + 784_353_144_398) as u64;
        let eras = offset / 146_097;
        let into_era = offset % 146_097;
        let era_start: i64 = -2_147_484_000 + 400 * (eras as i64);
        proof {
            lemma_eras(-2_147_484_000, eras as nat);
            lemma_eras(era_start as int, 1);
        }
        let mut year = era_start;
        let mut rest = into_era as i64;
        while rest >= year_length(year)
            invariant
                -2_147_484_000 <= era_start <= 2_147_484_000,
                era_start <= year <= era_start + 400,
                0 <= rest,
                rest == days - days_before_year(year as int),
                days < days_before_year(era_start + 400),
            decreases era_start + 400 - year,
        {
            proof {
                lemma_year_step(year as int);
            }
            rest = rest - year_length(year);
            year = year + 1;
        }
        proof {
            lemma_year_step(year as int);
            if year > i32::MAX {
                lemma_years_ordered(i32::MAX + 1, year as int);
            }
            if year < i32::MIN {
                lemma_years_ordered(year + 1, i32::MIN as int);
            }
        }
        let mut month: u8 = 1;
        while rest >= days_in_month(year, month) as i64
            invariant
                i32::MIN <= year <= i32::MAX,
                1 <= month <= 12,
                0 <= rest,
                rest == days - days_before_year(year as int) - days_before_month(
                    year as int,
                    month as int,
                ),
                rest + days_before_month(year as int, month as int) < days_before_month(
                    year as int,
                    13,
                ),
            decreases 13 - month,
        {
            proof {
                lemma_month_step(year as int, month as int);
            }
            rest = rest - days_in_month(year, month) as i64;
            month = month + 1;
        }
        LocalDate { year: year as i32, month, day: (rest + 1) as u8 }
    }

    /// How many days this date comes after 1970-01-01 (negative before it).
    pub fn days_since_epoch(&self) -> (days: i64)
        ensures
            days == number_of(self@),
            first_day_number() <= days <= last_day_number(),
    {
        proof {
            use_type_invariant(self);
            lemma_bounds();
            lemma_day_in_year(self.year as int, self.month as int, self.day as int);
            lemma_years_ordered(i32::MIN as int, self.year as int);
            lemma_years_ordered(self.year + 1, i32::MAX + 1);
        }
        let year = self.year as i64;
        first_of_year(year) + first_of_month(year, self.month) + self.day as i64 - 1
    }

    /// The day of the week: 0 for Monday through 6 for Sunday.
    pub fn weekday(&self) -> (weekday: u8)
        ensures
            weekday == weekday_of(number_of(self@)),
    {
        let days = self.days_since_epoch();
        let shifted = (days + 3 + 840_000_000_000) as u64;
        proof {
            lemma_mod_multiples_vanish(120_000_000_000, days + 3, 7);
        }
        (shifted % 7) as u8
    }
}

/// The character for the decimal digit `d`.
pub open spec fn digit_char(d: int) -> char {
    (48 + d) as char
}

/// `n` written in decimal, with no leading zeros ("0" for zero).
pub open spec fn decimal(n: nat) -> Seq<char>
    decreases n,
{
    if n < 10 {
        seq![digit_char(n as int)]
    } else {
        decimal(n / 10).push(digit_char((n % 10) as int))
    }
}

/// `width` zeros.
pub open spec fn zeros(width: nat) -> Seq<char> {
    Seq::new(width, |_i: int| '0')
}

/// `n` in decimal, with zeros in front up to `width` characters.
pub open spec fn padded(n: nat, width: nat) -> Seq<char> {
    let digits = decimal(n);
    if digits.len() < width {
        zeros((width - digits.len()) as nat) + digits
    } else {
        digits
    }
}

/// `n` in decimal as `{:0width$}` writes it: a minus sign counts toward the
/// width.
pub open spec fn signed_padded(n: int, width: nat) -> Seq<char> {
    if n < 0 {
        seq!['-'] + padded((-n) as nat, (width - 1) as nat)
    } else {
        padded(n as nat, width)
    }
}

/// The number that the decimal digits `s` spell.
pub open spec fn digits_value(s: Seq<char>) -> int
    decreases s.len(),
{
    if s.len() == 0 {
        0
    } else {
        digits_value(s.drop_last()) * 10 + (s.last() as int - 48)
    }
}

/// `YYYY-MM-DD`, zero-padded, with a leading minus sign before a year below
/// zero: the form a date is stored in.
pub open spec fn date_text(year: int, month: int, day: int) -> Seq<char> {
    let body = padded(if year < 0 {
        (-year) as nat
    } else {
        year as nat
    }, 4) + seq!['-'] + padded(month as nat, 2) + seq!['-'] + padded(day as nat, 2);
    if year < 0 {
        seq!['-'] + body
    } else {
        body
    }
}

/// The fields that text of the form `YYYY-MM-DD`, with an optional minus
/// sign in front, spells; `None` for text of any other form.
pub open spec fn date_fields(s: Seq<char>) -> Option<(int, int, int)> {
    let negative = s.len() > 0 && s[0] == '-';
    let rest = if negative {
        s.drop_first()
    } else {
        s
    };
    if rest.len() == 10 && rest[4] == '-' && rest[7] == '-' && all_digits(rest.subrange(0, 4))
        && all_digits(rest.subrange(5, 7)) && all_digits(rest.subrange(8, 10)) {
        let year = digits_value(rest.subrange(0, 4));
        Some(
            (
                if negative {
                    -year
                } else {
                    year
                },
                digits_value(rest.subrange(5, 7)),
                digits_value(rest.subrange(8, 10)),
            ),
        )
    } else {
        None
    }
}

/// What reading `s` as a date gives.
pub open spec fn parse_outcome(s: Seq<char>) -> Result<(int, int, int), DateError> {
    match date_fields(s) {
        Some(fields) => date_outcome(fields.0, fields.1, fields.2),
        None => Err(DateError::Malformed),
    }
}

/// The text that explains `e`.
pub open spec fn error_text(e: DateError) -> Seq<char> {
    match e {
        DateError::MonthOutOfRange(month) => decimal(month as nat)
            + " is not a month between 1 and 12"@,
        DateError::DayOutOfRange { year, month, day } => signed_padded(year as int, 4) + seq![
            '-',
        ] + padded(month as nat, 2) + " has no day "@ + decimal(day as nat),
        DateError::Malformed => "text was not in the form YYYY-MM-DD"@,
    }
}

/// The digit characters stand for their values.
proof fn lemma_digit_char(k: int)
    requires
        0 <= k < 10,
    ensures
        digit_char(k) as int == 48 + k,
        is_digit(digit_char(k)),
{
    assert(digit_char(k) as int == 48 + k);
}

/// Decimal digits carry no sign or separator.
proof fn lemma_decimal_digits(n: nat)
    ensures
        all_digits(decimal(n)),
        1 <= decimal(n).len(),
        n < 10 ==> decimal(n).len() == 1,
        n < 100 ==> decimal(n).len() <= 2,
        n < 1000 ==> decimal(n).len() <= 3,
        n < 10000 ==> decimal(n).len() <= 4,
        digits_value(decimal(n)) == n,
    decreases n,
{
    lemma_digit_char((n % 10) as int);
    if n >= 10 {
        lemma_decimal_digits(n / 10);
        let d = decimal(n);
        assert(d.drop_last() =~= decimal(n / 10));
        assert(d.last() == digit_char((n % 10) as int));
        assert(digits_value(d) == digits_value(decimal(n / 10)) * 10 + (n % 10));
        assert forall|i: int| 0 <= i < d.len() implies is_digit(#[trigger] d[i]) by {
            if i < d.len() - 1 {
                assert(d[i] == decimal(n / 10)[i]);
            }
        }
    } else {
        assert(seq![digit_char(n as int)].drop_last() =~= Seq::<char>::empty());
        assert(digits_value(decimal(n)) == digits_value(Seq::<char>::empty()) * 10 + n);
    }
}

/// Ten to the power `k`.
pub open spec fn pow10(k: nat) -> nat
    decreases k,
{
    if k == 0 {
        1
    } else {
        10 * pow10((k - 1) as nat)
    }
}

/// A number below ten to the `k` has at most `k` digits.
proof fn lemma_decimal_len(n: nat, k: nat)
    requires
        1 <= k,
        n < pow10(k),
    ensures
        decimal(n).len() <= k,
    decreases k,
{
    if n >= 10 {
        assert(k >= 2) by {
            if k == 1 {
                assert(pow10(1) == 10 * pow10(0));
            }
        }
        lemma_decimal_len(n / 10, (k - 1) as nat);
    }
}

/// Zeros in front do not change the number that digits spell.
proof fn lemma_leading_zeros(width: nat, s: Seq<char>)
    ensures
        digits_value(zeros(width) + s) == digits_value(s),
    decreases s.len(), width,
{
    if s.len() == 0 {
        assert(zeros(width) + s =~= zeros(width));
        if width > 0 {
            assert(zeros(width).drop_last() =~= zeros((width - 1) as nat));
            lemma_leading_zeros((width - 1) as nat, s);
            assert(zeros((width - 1) as nat) + s =~= zeros((width - 1) as nat));
        }
    } else {
        lemma_leading_zeros(width, s.drop_last());
        assert((zeros(width) + s).drop_last() =~= zeros(width) + s.drop_last());
    }
}

/// Padded decimal digits are digits, spell `n`, and are `width` long when
/// `n` fits.
proof fn lemma_padded(n: nat, width: nat)
    ensures
        all_digits(padded(n, width)),
        digits_value(padded(n, width)) == n,
        padded(n, width).len() >= width,
        width == 4 && n < 10000 ==> padded(n, width).len() == 4,
        width == 2 && n < 100 ==> padded(n, width).len() == 2,
{
    lemma_decimal_digits(n);
    let digits = decimal(n);
    if digits.len() < width {
        let z = zeros((width - digits.len()) as nat);
        lemma_leading_zeros((width - digits.len()) as nat, digits);
        assert forall|i: int| 0 <= i < (z + digits).len() implies is_digit(#[trigger] (z + digits)[i]) by {
            if i >= z.len() {
                assert((z + digits)[i] == digits[i - z.len()]);
            }
        }
    }
}

/// Reading back the text of a date whose year has at most four digits gives
/// the date again.
pub proof fn lemma_text_round_trip(year: int, month: int, day: int)
    requires
        is_calendar_day(year, month, day),
        -9999 <= year <= 9999,
    ensures
        date_fields(date_text(year, month, day)) == Some((year, month, day)),
        parse_outcome(date_text(year, month, day)) == Ok::<(int, int, int), DateError>(
            (year, month, day),
        ),
{
    let magnitude: nat = if year < 0 {
        (-year) as nat
    } else {
        year as nat
    };
    lemma_padded(magnitude, 4);
    lemma_padded(month as nat, 2);
    lemma_padded(day as nat, 2);
    let y = padded(magnitude, 4);
    let m = padded(month as nat, 2);
    let d = padded(day as nat, 2);
    let body = y + seq!['-'] + m + seq!['-'] + d;
    assert(body.subrange(0, 4) =~= y);
    assert(body.subrange(5, 7) =~= m);
    assert(body.subrange(8, 10) =~= d);
    if year < 0 {
        assert((seq!['-'] + body).drop_first() =~= body);
    } else {
        assert(body[0] == y[0]);
        assert(is_digit(y[0]));
    }
}

/// Append `n` in decimal.
pub(crate) fn push_decimal(out: &mut Vec<char>, n: u64)
    ensures
        final(out)@ == old(out)@ + decimal(n as nat),
    decreases n,
{
    if n >= 10 {
        push_decimal(out, n / 10);
    }
    let digit = (48 + (n % 10) as u8) as char;
    out.push(digit);
    proof {
        if n >= 10 {
            assert(old(out)@ + decimal(n as nat) =~= old(out)@ + decimal((n / 10) as nat) + seq![
                digit,
            ]);
        } else {
            assert(old(out)@ + decimal(n as nat) =~= old(out)@.push(digit));
        }
    }
}

/// How many digits `n` has in decimal.
fn decimal_len(n: u64) -> (len: usize)
    ensures
        len == decimal(n as nat).len(),
        len <= 20,
    decreases n,
{
    proof {
        assert(pow10(20) == 100_000_000_000_000_000_000) by {
            reveal_with_fuel(pow10, 21);
        }
        lemma_decimal_len(n as nat, 20);
    }
    if n >= 10 {
        decimal_len(n / 10) + 1
    } else {
        1
    }
}

/// Append `n` in decimal, with zeros in front up to `width` characters.
fn push_padded(out: &mut Vec<char>, n: u64, width: usize)
    ensures
        final(out)@ == old(out)@ + padded(n as nat, width as nat),
{
    let len = decimal_len(n);
    let mut count = len;
    while count < width
        invariant
            len <= count,
            len == decimal(n as nat).len(),
            count <= width || count == len,
            out@ == old(out)@ + zeros((count - len) as nat),
        decreases width - count,
    {
        out.push('0');
        assert(zeros((count + 1 - len) as nat) =~= zeros((count - len) as nat).push('0'));
        count = count + 1;
    }
    let ghost before = out@;
    push_decimal(out, n);
    proof {
        if len < width {
            assert(count == width);
            assert(old(out)@ + padded(n as nat, width as nat) =~= before + decimal(n as nat));
        } else {
            assert(zeros(0) =~= Seq::<char>::empty());
            assert(before =~= old(out)@);
        }
    }
}

/// The value of the decimal digits `chars[from..to]`.
fn value_of_digits(chars: &Vec<char>, from: usize, to: usize) -> (value: u32)
    requires
        from <= to <= chars@.len(),
        to - from <= 4,
        all_digits(chars@.subrange(from as int, to as int)),
    ensures
        value == digits_value(chars@.subrange(from as int, to as int)),
        value < 10000,
        to - from <= 2 ==> value < 100,
{
    let mut value: u32 = 0;
    let mut i = from;
    while i < to
        invariant
            from <= i <= to,
            to <= chars@.len(),
            to - from <= 4,
            all_digits(chars@.subrange(from as int, to as int)),
            value == digits_value(chars@.subrange(from as int, i as int)),
            value < if i - from == 0 {
                1int
            } else if i - from == 1 {
                10int
            } else if i - from == 2 {
                100int
            } else if i - from == 3 {
                1000int
            } else {
                10000int
            },
        decreases to - i,
    {
        assert(chars@.subrange(from as int, i + 1).drop_last() =~= chars@.subrange(
            from as int,
            i as int,
        ));
        assert(chars@.subrange(from as int, to as int)[i - from] == chars@[i as int]);
        value = value * 10 + (chars[i] as u32 - 48);
        i = i + 1;
    }
    value
}

impl LocalDate {
    /// The date as `YYYY-MM-DD`, zero-padded, with a minus sign in front of
    /// a year below zero.
    pub fn to_string(&self) -> (text: String)
        ensures
            text@ == date_text(self@.0, self@.1, self@.2),
    {
        let mut out: Vec<char> = Vec::new();
        let year = self.year as i64;
        let magnitude: u64 = if year < 0 {
            out.push('-');
            (-year) as u64
        } else {
            year as u64
        };
        push_padded(&mut out, magnitude, 4);
        out.push('-');
        push_padded(&mut out, self.month as u64, 2);
        out.push('-');
        push_padded(&mut out, self.day as u64, 2);
        let ghost magnitude_spec: nat = if self@.0 < 0 {
            (-self@.0) as nat
        } else {
            self@.0 as nat
        };
        assert(magnitude == magnitude_spec);
        let ghost body = padded(magnitude_spec, 4) + seq!['-'] + padded(self@.1 as nat, 2) + seq![
            '-',
        ] + padded(self@.2 as nat, 2);
        if year < 0 {
            assert(out@ =~= seq!['-'] + body);
        } else {
            assert(out@ =~= body);
        }
        string_of(&out)
    }

    /// Read `YYYY-MM-DD` (with an optional minus sign in front) back into a
    /// date, refusing text of any other form and a day that does not exist.
    pub fn parse(s: &str) -> (parsed: Result<LocalDate, DateError>)
        ensures
            outcome_of(parsed) == parse_outcome(s@),
    {
        let chars = chars_of(s);
        let negative = chars.len() > 0 && chars[0] == '-';
        let start: usize = if negative {
            1
        } else {
            0
        };
        let ghost rest = if negative {
            s@.drop_first()
        } else {
            s@
        };
        assert(rest =~= chars@.subrange(start as int, chars@.len() as int));
        if chars.len() != start + 10 || chars[start + 4] != '-' || chars[start + 7] != '-' {
            return Err(DateError::Malformed);
        }
        assert(rest.subrange(0, 4) =~= chars@.subrange(start as int, start + 4));
        assert(rest.subrange(5, 7) =~= chars@.subrange(start + 5, start + 7));
        assert(rest.subrange(8, 10) =~= chars@.subrange(start + 8, start + 10));
        if !all_digits_between(&chars, start, start + 4) || !all_digits_between(
            &chars,
            start + 5,
            start + 7,
        ) || !all_digits_between(&chars, start + 8, start + 10) {
            return Err(DateError::Malformed);
        }
        let magnitude = value_of_digits(&chars, start, start + 4);
        let month = value_of_digits(&chars, start + 5, start + 7);
        let day = value_of_digits(&chars, start + 8, start + 10);
        let year: i32 = if negative {
            -(magnitude as i32)
        } else {
            magnitude as i32
        };
        assert(date_fields(s@) == Some((year as int, month as int, day as int)));
        LocalDate::new(year, month as u8, day as u8)
    }
}

/// Every character of `chars[from..to]` is a decimal digit.
fn all_digits_between(chars: &Vec<char>, from: usize, to: usize) -> (answer: bool)
    requires
        from <= to <= chars@.len(),
    ensures
        answer == all_digits(chars@.subrange(from as int, to as int)),
{
    let mut i = from;
    while i < to
        invariant
            from <= i <= to,
            to <= chars@.len(),
            forall|k: int| from <= k < i ==> is_digit(#[trigger] chars@[k]),
        decreases to - i,
    {
        if !('0' <= chars[i] && chars[i] <= '9') {
            assert(chars@.subrange(from as int, to as int)[i - from] == chars@[i as int]);
            return false;
        }
        i = i + 1;
    }
    assert forall|k: int| 0 <= k < to - from implies is_digit(
        #[trigger] chars@.subrange(from as int, to as int)[k],
    ) by {
        assert(chars@.subrange(from as int, to as int)[k] == chars@[from + k]);
    }
    true
}

impl std::str::FromStr for LocalDate {
    type Err = DateError;

    fn from_str(s: &str) -> (parsed: Result<LocalDate, DateError>)
        ensures
            outcome_of(parsed) == parse_outcome(s@),
    {
        LocalDate::parse(s)
    }
}

impl DateError {
    /// What went wrong, in words.
    pub fn to_string(&self) -> (text: String)
        ensures
            text@ == error_text(*self),
    {
        let mut out: Vec<char> = Vec::new();
        match self {
            DateError::MonthOutOfRange(month) => {
                push_decimal(&mut out, *month as u64);
                push_str(&mut out, " is not a month between 1 and 12");
            },
            DateError::DayOutOfRange { year, month, day } => {
                let year = *year as i64;
                if year < 0 {
                    out.push('-');
                    push_padded(&mut out, (-year) as u64, 3);
                    assert(out@ =~= signed_padded(year as int, 4));
                } else {
                    push_padded(&mut out, year as u64, 4);
                    assert(out@ =~= signed_padded(year as int, 4));
                }
                out.push('-');
                push_padded(&mut out, *month as u64, 2);
                push_str(&mut out, " has no day ");
                push_decimal(&mut out, *day as u64);
            },
            DateError::Malformed => {
                push_str(&mut out, "text was not in the form YYYY-MM-DD");
            },
        }
        string_of(&out)
    }
}

} // verus!
