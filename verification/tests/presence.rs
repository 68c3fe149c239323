use cairn::counting::presence::last_seen;

#[test]
fn a_mark_holding_a_positive_time_is_read() {
    assert_eq!(last_seen("1700000000"), Some(1_700_000_000));
    assert_eq!(last_seen("  1700000000\n"), Some(1_700_000_000));
    assert_eq!(last_seen("+7"), Some(7));
    assert_eq!(last_seen("9223372036854775807"), Some(i64::MAX));
}

#[test]
fn a_nonsense_mark_says_nothing() {
    assert_eq!(last_seen(""), None);
    assert_eq!(last_seen("0"), None);
    assert_eq!(last_seen("-5"), None);
    assert_eq!(last_seen("+"), None);
    assert_eq!(last_seen("12a"), None);
    assert_eq!(last_seen("1 2"), None);
    assert_eq!(last_seen("9223372036854775808"), None);
    assert_eq!(last_seen("99999999999999999999999"), None);
}
