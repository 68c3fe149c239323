use cairn::domain::dates::LocalDate;
use cairn::domain::patterns::{crosses_offset_change, summarize, Reach};

#[test]
fn equal_offsets_never_cross() {
    assert!(!crosses_offset_change(0, 0));
    assert!(!crosses_offset_change(-18_000, -18_000));
    assert!(!crosses_offset_change(i32::MIN, i32::MIN));
    assert!(!crosses_offset_change(i32::MAX, i32::MAX));
}

#[test]
fn differing_offsets_always_cross() {
    assert!(crosses_offset_change(0, 3_600));
    assert!(crosses_offset_change(-18_000, -14_400));
    assert!(crosses_offset_change(i32::MIN, i32::MAX));
}

#[test]
fn the_sign_of_the_difference_does_not_matter() {
    assert_eq!(crosses_offset_change(0, 3_600), crosses_offset_change(3_600, 0));
    assert!(crosses_offset_change(0, 3_600));
    assert!(crosses_offset_change(3_600, 0));
}

fn reach(domain: &str, at: i64) -> Reach {
    Reach { domain: domain.to_string(), at }
}

#[test]
fn reaches_are_bucketed_by_site_hour_weekday_and_day() {
    // 2024-01-01 (a Monday) starts at 1_704_067_200.
    let monday = 1_704_067_200i64;
    let reaches = vec![
        reach("news.example", monday + 9 * 3_600),
        reach("example.com", monday + 9 * 3_600 + 60),
        reach("news.example", monday + 86_400 + 22 * 3_600),
        reach("news.example", monday - 1),
    ];
    let patterns = summarize(&reaches, &[], 0, monday, monday + 2 * 86_400);
    assert_eq!(patterns.by_hour.len(), 24);
    assert_eq!(patterns.by_hour[9], 2);
    assert_eq!(patterns.by_hour[22], 1);
    assert_eq!(patterns.by_hour.iter().sum::<u32>(), 3);
    assert_eq!(patterns.by_weekday, vec![2, 1, 0, 0, 0, 0, 0]);
    assert_eq!(
        patterns.by_site,
        vec![("news.example".to_string(), 2), ("example.com".to_string(), 1)]
    );
    assert_eq!(patterns.by_day.len(), 2);
    assert_eq!(patterns.by_day[0], (LocalDate::new(2024, 1, 1).unwrap(), 2));
    assert_eq!(patterns.by_day[1], (LocalDate::new(2024, 1, 2).unwrap(), 1));
    assert_eq!(patterns.estimates_excluded, 0);
}

#[test]
fn ties_between_sites_are_broken_by_name() {
    let reaches = vec![reach("b.example", 10), reach("a.example", 20), reach("c.example", 30), reach("c.example", 40)];
    let patterns = summarize(&reaches, &[], 0, 0, 100);
    assert_eq!(
        patterns.by_site,
        vec![
            ("c.example".to_string(), 2),
            ("a.example".to_string(), 1),
            ("b.example".to_string(), 1)
        ]
    );
}

#[test]
fn an_offset_moves_reaches_between_buckets_but_never_drops_one() {
    let reaches = vec![reach("example.com", 3_000), reach("example.com", 90_000), reach("example.com", 200_000)];
    let utc = summarize(&reaches, &[], 0, 0, 172_800);
    let east = summarize(&reaches, &[], 5 * 3_600, 0, 172_800);
    assert_eq!(utc.by_hour.iter().sum::<u32>(), 2);
    assert_eq!(east.by_hour.iter().sum::<u32>(), 2);
    assert_eq!(utc.by_hour[0], 1);
    assert_eq!(east.by_hour[5], 1);
    assert_eq!(east.by_day.len(), 3);
}

#[test]
fn estimates_in_the_window_are_counted_as_set_aside() {
    let day = LocalDate::new(2024, 1, 1).unwrap();
    let later = LocalDate::new(2024, 3, 1).unwrap();
    let start = day.days_since_epoch() * 86_400;
    let patterns = summarize(&[], &[(day, 4), (later, 2)], 0, start, start + 86_400);
    assert_eq!(patterns.estimates_excluded, 1);
    assert_eq!(patterns.by_hour, vec![0u32; 24]);
    assert!(patterns.by_site.is_empty());
}

#[test]
fn an_empty_range_covers_no_day() {
    let patterns = summarize(&[reach("example.com", 5)], &[(LocalDate::new(1970, 1, 1).unwrap(), 1)], 0, 10, 10);
    assert!(patterns.by_day.is_empty());
    assert_eq!(patterns.estimates_excluded, 0);
    assert_eq!(patterns.by_weekday, vec![0u32; 7]);
}

#[test]
fn days_before_the_epoch_land_on_the_right_local_day() {
    let patterns = summarize(&[reach("example.com", -1)], &[], 0, -86_400, 0);
    assert_eq!(patterns.by_day, vec![(LocalDate::new(1969, 12, 31).unwrap(), 1)]);
    assert_eq!(patterns.by_hour[23], 1);
    assert_eq!(patterns.by_weekday[2], 1);
}

#[test]
fn the_sites_and_the_count_do_not_depend_on_the_offset() {
    let reaches = vec![
        reach("b.example", 3_600),
        reach("a.example", 7_200),
        reach("b.example", 80_000),
        reach("c.example", 200_000),
    ];
    let utc = summarize(&reaches, &[], 0, 0, 100_000);
    let east = summarize(&reaches, &[], 36_000, 0, 100_000);
    let west = summarize(&reaches, &[], -36_000, 0, 100_000);
    assert_eq!(utc.by_site, vec![("b.example".to_string(), 2), ("a.example".to_string(), 1)]);
    assert_eq!(east.by_site, utc.by_site);
    assert_eq!(west.by_site, utc.by_site);
    assert_eq!(utc.by_hour.iter().sum::<u32>(), 3);
    assert_eq!(east.by_hour.iter().sum::<u32>(), 3);
    assert_eq!(west.by_weekday.iter().sum::<u32>(), 3);
}
