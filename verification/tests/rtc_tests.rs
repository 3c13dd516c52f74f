use tisuos::rtc::Time;

#[test]
fn timestamp_zero_is_eight_in_the_morning() {
    let t = Time::from_timestamp(0);
    assert_eq!(t.year, 1970);
    assert_eq!(t.month, 1);
    assert_eq!(t.day, 0);
    assert_eq!(t.hour, 8);
    assert_eq!(t.minute, 0);
    assert_eq!(t.second, 0);
}

#[test]
fn timestamp_counts_seconds_minutes_hours() {
    let t = Time::from_timestamp(3600 * 5 + 60 * 7 + 9);
    assert_eq!(t.second, 9);
    assert_eq!(t.minute, 7);
    assert_eq!(t.hour, 13);
    assert_eq!(t.day, 0);
}

#[test]
fn timestamp_rolls_into_next_day_at_sixteen_utc() {
    let t = Time::from_timestamp(16 * 3600);
    assert_eq!(t.hour, 0);
    assert_eq!(t.day, 1);
    assert_eq!(t.month, 1);
}

#[test]
fn timestamp_in_february() {
    // 40 days after the start, at 00:00 in the +8 zone: 31 days of January
    // are taken off once more than 31 days remain.
    let t = Time::from_timestamp(40 * 86400 - 8 * 3600);
    assert_eq!(t.year, 1970);
    assert_eq!(t.month, 2);
    assert_eq!(t.day, 9);
}

#[test]
fn read_divides_nanoseconds() {
    let t = Time::read(1_000_000_000 * 61);
    assert_eq!(t.minute, 1);
    assert_eq!(t.second, 1);
}
