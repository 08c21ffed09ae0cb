use memo_server::registry::{DeviceRegistry, RecordingMap};
use memo_server::timestamp::Timestamp;

fn ts(hour: u8, minute: u8, second: u8) -> Timestamp {
    Timestamp { year: 2026, month: 1, day: 19, hour, minute, second }
}

#[test]
fn touch_inserts_and_overwrites() {
    let mut reg = DeviceRegistry::new();
    let id = String::from("esp-1");
    reg.touch(&id, 100, ts(17, 20, 0), None);
    assert_eq!(reg.entries.len(), 1);
    assert_eq!(reg.entries[0].last_seen, 100);
    assert!(reg.entries[0].ip_address.is_none());

    // last write wins, the whole record is replaced
    reg.touch(&id, 105, ts(17, 20, 5), Some(String::from("10.0.0.7")));
    assert_eq!(reg.entries.len(), 1);
    assert_eq!(reg.entries[0].last_seen, 105);
    assert_eq!(reg.entries[0].ip_address.as_deref(), Some("10.0.0.7"));

    let other = String::from("esp-2");
    reg.touch(&other, 106, ts(17, 20, 6), None);
    assert_eq!(reg.entries.len(), 2);
}

#[test]
fn list_active_returns_fresh_and_purges_stale() {
    let mut reg = DeviceRegistry::new();
    let fresh = String::from("fresh");
    let stale = String::from("stale");
    reg.touch(&stale, 100, ts(17, 0, 0), None);
    reg.touch(&fresh, 195, ts(17, 1, 35), Some(String::from("10.0.0.9")));

    let rows = reg.list_active(200, 10);
    assert_eq!(rows.len(), 1);
    assert_eq!(rows[0].device_id, "fresh");
    assert_eq!(rows[0].ip, "10.0.0.9");
    assert_eq!(rows[0].seconds_ago, 5);
    assert_eq!(rows[0].last_seen_iso, "2026-01-19T17:01:35+00:00");
    // every returned record was seen within the window
    for row in &rows {
        assert!(row.seconds_ago <= 10);
    }

    // the stale record is gone for good: a later, laxer listing cannot
    // bring it back
    let rows_again = reg.list_active(200, 1_000_000);
    assert_eq!(rows_again.len(), 1);
    assert_eq!(rows_again[0].device_id, "fresh");
}

#[test]
fn list_active_boundary_is_inclusive() {
    let mut reg = DeviceRegistry::new();
    let id = String::from("edge");
    reg.touch(&id, 100, ts(0, 0, 0), None);
    let rows = reg.list_active(110, 10);
    assert_eq!(rows.len(), 1);
    assert_eq!(rows[0].seconds_ago, 10);
}

#[test]
fn recording_flags_default_and_update() {
    let mut flags = RecordingMap::new();
    let a = String::from("a");
    let b = String::from("b");
    assert!(!flags.get_recording(&a));

    flags.set_recording(&a, true);
    assert!(flags.get_recording(&a));
    assert!(!flags.get_recording(&b));

    flags.set_recording(&a, false);
    assert!(!flags.get_recording(&a));

    flags.set_recording(&b, true);
    let snap = flags.snapshot();
    assert_eq!(snap.len(), 2);
    assert_eq!(snap[0], (String::from("a"), false));
    assert_eq!(snap[1], (String::from("b"), true));
}
