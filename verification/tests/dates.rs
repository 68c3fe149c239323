use cairn::domain::dates::{DateError, LocalDate};

#[test]
fn day_before_epoch_is_1969_12_31() {
    let date = LocalDate::new(1969, 12, 31).unwrap();
    assert_eq!(date.days_since_epoch(), -1);
    assert_eq!(LocalDate::from_days_since_epoch(-1), date);
}

#[test]
fn a_date_well_before_1900_maps_to_the_day_number_counted_by_hand() {
    let date = LocalDate::new(1600, 1, 1).unwrap();
    assert_eq!(date.days_since_epoch(), -135_140);
    assert_eq!(LocalDate::from_days_since_epoch(-135_140), date);
}

#[test]
fn february_29_is_accepted_in_2000_a_leap_year_divisible_by_400() {
    assert!(LocalDate::new(2000, 2, 29).is_ok());
}

#[test]
fn february_29_is_rejected_in_1900_divisible_by_100_but_not_400() {
    assert_eq!(
        LocalDate::new(1900, 2, 29),
        Err(DateError::DayOutOfRange { year: 1900, month: 2, day: 29 })
    );
}

#[test]
fn february_29_is_accepted_in_2024_an_ordinary_leap_year() {
    assert!(LocalDate::new(2024, 2, 29).is_ok());
}

#[test]
fn february_29_is_rejected_in_2023_an_ordinary_non_leap_year() {
    assert!(LocalDate::new(2023, 2, 29).is_err());
}

#[test]
fn the_epoch_day_1970_01_01_was_a_thursday_so_its_weekday_is_three() {
    let date = LocalDate::new(1970, 1, 1).unwrap();
    assert_eq!(date.weekday(), 3);
}

#[test]
fn day_1969_12_31_was_the_wednesday_before_the_epochs_thursday_so_its_weekday_is_two() {
    let date = LocalDate::new(1969, 12, 31).unwrap();
    assert_eq!(date.weekday(), 2);
}

#[test]
fn day_2024_01_01_was_a_monday_so_its_weekday_is_zero() {
    let date = LocalDate::new(2024, 1, 1).unwrap();
    assert_eq!(date.weekday(), 0);
}

#[test]
fn day_1970_01_04_was_the_sunday_three_days_after_the_epochs_thursday_so_its_weekday_is_six() {
    let date = LocalDate::new(1970, 1, 4).unwrap();
    assert_eq!(date.weekday(), 6);
}

#[test]
fn month_zero_is_rejected() {
    assert_eq!(LocalDate::new(2024, 0, 1), Err(DateError::MonthOutOfRange(0)));
}

#[test]
fn month_thirteen_is_rejected() {
    assert_eq!(LocalDate::new(2024, 13, 1), Err(DateError::MonthOutOfRange(13)));
}

#[test]
fn day_zero_is_rejected() {
    assert!(LocalDate::new(2024, 1, 0).is_err());
}

#[test]
fn day_thirty_two_is_rejected() {
    assert!(LocalDate::new(2024, 1, 32).is_err());
}

#[test]
fn april_thirty_first_is_rejected_april_has_thirty_days() {
    assert_eq!(
        LocalDate::new(2024, 4, 31),
        Err(DateError::DayOutOfRange { year: 2024, month: 4, day: 31 })
    );
}

#[test]
fn malformed_text_missing_a_component_is_rejected() {
    assert_eq!("2024-01".parse::<LocalDate>(), Err(DateError::Malformed));
}

#[test]
fn malformed_text_with_a_short_year_is_rejected() {
    assert_eq!("24-01-01".parse::<LocalDate>(), Err(DateError::Malformed));
}

#[test]
fn malformed_text_with_non_digits_is_rejected() {
    assert_eq!("2024-XX-01".parse::<LocalDate>(), Err(DateError::Malformed));
}

#[test]
fn malformed_text_with_trailing_content_is_rejected() {
    assert_eq!("2024-01-01-extra".parse::<LocalDate>(), Err(DateError::Malformed));
}

#[test]
fn text_for_an_impossible_date_is_rejected_not_silently_clamped() {
    assert_eq!(
        "2024-02-30".parse::<LocalDate>(),
        Err(DateError::DayOutOfRange { year: 2024, month: 2, day: 30 })
    );
}

#[test]
fn a_date_is_written_as_yyyy_mm_dd_and_read_back() {
    let date = LocalDate::new(2026, 8, 28).unwrap();
    assert_eq!(date.to_string(), "2026-08-28");
    assert_eq!("2026-08-28".parse::<LocalDate>(), Ok(date));
}

#[test]
fn a_year_before_zero_is_written_with_a_minus_sign_and_read_back() {
    let date = LocalDate::new(-44, 3, 15).unwrap();
    assert_eq!(date.to_string(), "-0044-03-15");
    assert_eq!(LocalDate::parse("-0044-03-15"), Ok(date));
}

#[test]
fn day_numbers_round_trip_across_a_wide_range() {
    for days in [-3_650_000i64, -719_468, -1, 0, 1, 59, 60, 11_016, 19_723, 3_650_000] {
        let date = LocalDate::from_days_since_epoch(days);
        assert_eq!(date.days_since_epoch(), days);
    }
}

#[test]
fn the_first_and_last_days_a_year_of_i32_can_hold_are_reached() {
    let first = LocalDate::from_days_since_epoch(-784_353_015_833);
    assert_eq!((first.year(), first.month(), first.day()), (i32::MIN, 1, 1));
    let last = LocalDate::from_days_since_epoch(784_351_576_776);
    assert_eq!((last.year(), last.month(), last.day()), (i32::MAX, 12, 31));
}

#[test]
fn consecutive_days_have_consecutive_weekdays() {
    let mut previous = LocalDate::from_days_since_epoch(-10).weekday();
    for days in -9i64..30 {
        let weekday = LocalDate::from_days_since_epoch(days).weekday();
        assert_eq!(weekday, (previous + 1) % 7);
        previous = weekday;
    }
}

#[test]
fn each_error_explains_itself() {
    assert_eq!(DateError::MonthOutOfRange(13).to_string(), "13 is not a month between 1 and 12");
    assert_eq!(
        DateError::DayOutOfRange { year: 2023, month: 2, day: 29 }.to_string(),
        "2023-02 has no day 29"
    );
    assert_eq!(
        DateError::DayOutOfRange { year: -5, month: 4, day: 31 }.to_string(),
        "-005-04 has no day 31"
    );
    assert_eq!(DateError::Malformed.to_string(), "text was not in the form YYYY-MM-DD");
}

#[test]
fn leap_days_follow_the_gregorian_rule_in_day_numbers() {
    let before = LocalDate::new(2000, 2, 28).unwrap().days_since_epoch();
    let leap = LocalDate::new(2000, 2, 29).unwrap().days_since_epoch();
    let after = LocalDate::new(2000, 3, 1).unwrap().days_since_epoch();
    assert_eq!((leap - before, after - leap), (1, 1));
    let no_leap = LocalDate::new(1900, 3, 1).unwrap().days_since_epoch()
        - LocalDate::new(1900, 2, 28).unwrap().days_since_epoch();
    assert_eq!(no_leap, 1);
}
