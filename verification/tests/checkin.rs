use cairn::domain::checkin::announcement_due;
use cairn::domain::dates::LocalDate;

fn day() -> LocalDate {
    LocalDate::new(2024, 1, 1).unwrap()
}

const START: i64 = 1_704_067_200;

#[test]
fn due_once_the_chosen_hour_arrives() {
    assert!(!announcement_due(day(), START, 20, START + 20 * 3_600 - 1, None, true));
    assert!(announcement_due(day(), START, 20, START + 20 * 3_600, None, true));
    assert!(announcement_due(day(), START, 20, START + 86_399, None, true));
}

#[test]
fn never_twice_on_the_same_day() {
    let mut announced = None;
    let mut count = 0;
    for minute in 0..1_440i64 {
        if announcement_due(day(), START, 9, START + minute * 60, announced, true) {
            count += 1;
            announced = Some(day());
        }
    }
    assert_eq!(count, 1);
}

#[test]
fn a_missed_hour_is_missed_not_queued() {
    assert!(!announcement_due(day(), START, 20, START + 86_400 + 3_600, None, true));
}

#[test]
fn never_while_switched_off() {
    assert!(!announcement_due(day(), START, 0, START + 60, None, false));
}

#[test]
fn yesterdays_announcement_does_not_count_for_today() {
    let yesterday = LocalDate::new(2023, 12, 31).unwrap();
    assert!(announcement_due(day(), START, 0, START, Some(yesterday), true));
}

#[test]
fn extreme_day_starts_saturate_instead_of_wrapping() {
    assert!(!announcement_due(day(), i64::MAX - 10, 23, i64::MAX, None, true));
    assert!(announcement_due(day(), i64::MIN, 0, i64::MIN, None, true));
}
