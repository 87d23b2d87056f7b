use dashstream::presence::{ByteCounter, PresenceTracker, EXPIRY_MILLIS};
use dashstream::web::{
    parse_content_length, record_request, rejection_status, resolve_client_identity,
};

#[test]
fn first_sight_joins_refresh_does_not() {
    let mut t = PresenceTracker::new();
    assert!(t.note_seen(7, 1_000));
    assert_eq!(t.len(), 1);
    assert!(!t.note_seen(7, 2_000));
    assert_eq!(t.len(), 1);
}

#[test]
fn fresh_identity_survives_sweeps() {
    let mut t = PresenceTracker::new();
    t.note_seen(7, 1_000);
    // refreshed every second; sweeps never report it gone
    for tick in 1..10u64 {
        let now = 1_000 + tick * 1_000;
        t.note_seen(7, now);
        let removed = t.sweep(now);
        assert!(removed.is_empty());
        assert_eq!(t.len(), 1);
    }
}

#[test]
fn silence_past_expiry_sweeps_exactly_once() {
    let mut t = PresenceTracker::new();
    t.note_seen(7, 1_000);
    let removed = t.sweep(1_000 + EXPIRY_MILLIS + 1);
    assert_eq!(removed, vec![7]);
    assert_eq!(t.len(), 0);
    let removed = t.sweep(1_000 + EXPIRY_MILLIS + 2_000);
    assert!(removed.is_empty());
}

#[test]
fn sweep_at_exact_expiry_boundary_keeps_entry() {
    let mut t = PresenceTracker::new();
    t.note_seen(7, 1_000);
    let removed = t.sweep(1_000 + EXPIRY_MILLIS);
    assert!(removed.is_empty());
    assert_eq!(t.len(), 1);
}

#[test]
fn rejoin_after_expiry_is_a_new_join() {
    let mut t = PresenceTracker::new();
    t.note_seen(7, 1_000);
    t.sweep(1_000 + EXPIRY_MILLIS + 1);
    assert!(t.note_seen(7, 20_000));
    assert_eq!(t.len(), 1);
}

#[test]
fn sweep_separates_stale_from_fresh() {
    let mut t = PresenceTracker::new();
    t.note_seen(1, 1_000);
    t.note_seen(2, 8_000);
    t.note_seen(3, 1_500);
    let removed = t.sweep(8_500);
    let mut removed = removed;
    removed.sort();
    assert_eq!(removed, vec![1, 3]);
    assert_eq!(t.len(), 1);
}

#[test]
fn byte_counter_drains_and_tracks_maximum() {
    let mut c = ByteCounter::new();
    c.add(1_000);
    c.add(500);
    assert_eq!(c.drain(), 1_500);
    assert_eq!(c.current, 0);
    assert_eq!(c.max_per_interval, 1_500);
    c.add(200);
    assert_eq!(c.drain(), 200);
    assert_eq!(c.max_per_interval, 1_500);
    c.add(2_000);
    assert_eq!(c.drain(), 2_000);
    assert_eq!(c.max_per_interval, 2_000);
}

#[test]
fn byte_counter_saturates() {
    let mut c = ByteCounter::new();
    c.add(u64::MAX);
    c.add(10);
    assert_eq!(c.drain(), u64::MAX);
}

#[test]
fn forwarded_address_wins_over_peer() {
    assert_eq!(resolve_client_identity(Some(1), Some(2)), Some(1));
    assert_eq!(resolve_client_identity(None, Some(2)), Some(2));
    assert_eq!(resolve_client_identity(None, None), None);
}

#[test]
fn content_length_reads_digits_only() {
    assert_eq!(parse_content_length("1234"), Some(1234));
    assert_eq!(parse_content_length("0"), Some(0));
    assert_eq!(parse_content_length(""), None);
    assert_eq!(parse_content_length("12a4"), None);
    assert_eq!(parse_content_length("99999999999999999999999"), None);
}

#[test]
fn request_recording_joins_and_counts() {
    let mut t = PresenceTracker::new();
    let mut c = ByteCounter::new();
    let r = record_request(&mut t, &mut c, None, Some(9), Some("2048"), 1_000);
    assert_eq!(r, Some((9, true)));
    assert_eq!(c.current, 2_048);
    let r = record_request(&mut t, &mut c, Some(9), Some(4), Some("bad"), 2_000);
    assert_eq!(r, Some((9, false)));
    assert_eq!(c.current, 2_048);
    let r = record_request(&mut t, &mut c, None, None, None, 3_000);
    assert_eq!(r, None);
    assert_eq!(t.len(), 1);
}

#[test]
fn rejections_keep_their_status() {
    assert_eq!(rejection_status(true), 404);
    assert_eq!(rejection_status(false), 500);
}
