use cairn::domain::gate::{draw_id, is_eligible, remaining_seconds, PendingChange, PendingKind, TrustedClock, WAITING_PERIOD_SECONDS};

#[test]
fn a_fresh_clock_starts_at_zero() {
    let clock = TrustedClock::started(1_000, 50);
    assert_eq!(clock, TrustedClock { trusted_seconds: 0, last_wall_seconds: 1_000, last_monotonic_seconds: 50 });
}

#[test]
fn a_wall_clock_jump_is_credited_only_as_far_as_the_monotonic_clock_agrees() {
    let clock = TrustedClock::started(1_000, 50);
    let next = clock.heartbeat(1_000 + 86_400, 110);
    assert_eq!(next.trusted_seconds, 60);
    assert_eq!(next.last_wall_seconds, 1_000 + 86_400);
}

#[test]
fn a_backward_wall_clock_credits_nothing_and_takes_nothing() {
    let clock = TrustedClock { trusted_seconds: 500, last_wall_seconds: 10_000, last_monotonic_seconds: 0 };
    let next = clock.heartbeat(5_000, 100);
    assert_eq!(next.trusted_seconds, 500);
    assert_eq!(next.last_wall_seconds, 10_000);
}

#[test]
fn downtime_is_credited_from_the_wall_clock() {
    let clock = TrustedClock { trusted_seconds: 10, last_wall_seconds: 100, last_monotonic_seconds: 9_999 };
    let next = clock.resumed(3_700, 3);
    assert_eq!(next.trusted_seconds, 3_610);
    assert_eq!(next.last_monotonic_seconds, 3);
}

#[test]
fn the_trusted_clock_saturates_rather_than_wrapping() {
    let clock = TrustedClock { trusted_seconds: u64::MAX - 5, last_wall_seconds: i64::MIN, last_monotonic_seconds: 0 };
    assert_eq!(clock.resumed(i64::MAX, 0).trusted_seconds, u64::MAX);
}

#[test]
fn a_reduction_waits_a_full_day_on_the_trusted_clock() {
    let clock = TrustedClock { trusted_seconds: 1_000, last_wall_seconds: 0, last_monotonic_seconds: 0 };
    let pending = PendingChange::request(PendingKind::TurnOffProtection, &clock, 77, draw_id().unwrap());
    assert_eq!(pending.requested_at_wall, 77);
    assert_eq!(pending.eligible_after_trusted, 1_000 + WAITING_PERIOD_SECONDS);
    assert!(!is_eligible(&pending, 1_000));
    assert_eq!(remaining_seconds(&pending, 1_000), 86_400);
    assert!(!is_eligible(&pending, 1_000 + 86_399));
    assert!(is_eligible(&pending, 1_000 + 86_400));
    assert_eq!(remaining_seconds(&pending, 1_000 + 90_000), 0);
}

#[test]
fn two_requests_get_different_identifiers() {
    let clock = TrustedClock::default();
    let first = PendingChange::request(PendingKind::TurnOffProtection, &clock, 0, draw_id().unwrap());
    let second = PendingChange::request(PendingKind::TurnOffProtection, &clock, 0, draw_id().unwrap());
    assert_ne!(first.id, second.id);
}

#[test]
fn a_drawn_identifier_is_a_random_one() {
    let id = draw_id().unwrap();
    assert_eq!(id.get_version_num(), 4);
}
