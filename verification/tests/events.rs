use princess::events::{civil_from_days, format_iso8601, EventRing, EVENT_MODEL_VERSION, RING_CAPACITY};

#[test]
fn civil_from_days_matches_known_dates() {
    assert_eq!(civil_from_days(0), (1970, 1, 1));
    assert_eq!(civil_from_days(19_723), (2024, 1, 1));
    assert_eq!(civil_from_days(-1), (1969, 12, 31));
}

#[test]
fn leap_days_and_century_rules_are_respected() {
    assert_eq!(civil_from_days(19_782), (2024, 2, 29));
    assert_eq!(civil_from_days(11_016), (2000, 2, 29));
    assert_eq!(civil_from_days(-25_508), (1900, 3, 1));
}

#[test]
fn timestamps_are_iso8601_utc() {
    assert_eq!(format_iso8601(0, 0), "1970-01-01T00:00:00.000Z");
    assert_eq!(format_iso8601(1_704_067_200, 5), "2024-01-01T00:00:00.005Z");
    let ts = format_iso8601(1_718_000_000, 123);
    assert_eq!(ts.len(), 24);
    assert!(ts.ends_with('Z'));
    assert_eq!(ts.as_bytes()[10], b'T');
    assert_eq!(ts, "2024-06-10T06:13:20.123Z");
}

#[test]
fn seq_is_monotonic_and_replayable() {
    let mut ring: EventRing<String> = EventRing::with_default_capacity();
    let a = ring.record("log.append a".to_string());
    let b = ring.record("log.append b".to_string());
    assert_eq!(a, 1);
    assert_eq!(b, 2);
    assert_eq!(EVENT_MODEL_VERSION, 1);

    let replayed = ring.since(2);
    assert_eq!(replayed.len(), 1);
    assert_eq!(replayed[0], "log.append b");
    assert_eq!(ring.since(1).len(), 2);
    assert_eq!(ring.since(3).len(), 0);
}

#[test]
fn ring_is_bounded() {
    let mut ring: EventRing<usize> = EventRing::with_default_capacity();
    for i in 1..=RING_CAPACITY + 3 {
        ring.record(i);
    }
    let all = ring.since(1);
    assert_eq!(all.len(), RING_CAPACITY);
    assert_eq!(*all[0], 4, "the three oldest envelopes were evicted");
    assert_eq!(ring.last_seq(), (RING_CAPACITY + 3) as u64);
    assert_eq!(ring.len(), RING_CAPACITY);
}

#[test]
fn a_tiny_ring_keeps_only_the_newest() {
    let mut ring: EventRing<&str> = EventRing::new(0);
    ring.record("first");
    ring.record("second");
    assert_eq!(ring.since(0), vec![&"second"]);
    assert_eq!(ring.next_seq(), 3);
}

#[test]
fn the_calendar_reaches_the_ends_of_the_machine_range() {
    let (_, m, d) = civil_from_days(i64::MAX - 719_468);
    assert!((1..=12).contains(&m) && (1..=31).contains(&d));
    let (_, m, d) = civil_from_days(i64::MIN);
    assert!((1..=12).contains(&m) && (1..=31).contains(&d));
    assert!(format_iso8601(u64::MAX, 999).ends_with(".999Z"));
}
