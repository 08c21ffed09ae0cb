use memo_server::codec::AudioQuality;
use memo_server::store::{
    StoredRecord, Transcript, TranscriptLog, normalize_record, sort_records_desc, stamped_filename,
    str_lex_le,
};
use memo_server::timestamp::Timestamp;

fn transcript(n: usize) -> Transcript {
    Transcript {
        device_id: format!("dev-{}", n),
        timestamp: Timestamp { year: 2026, month: 1, day: 19, hour: 17, minute: 20, second: 3 },
        text: format!("text {}", n),
        audio_file: None,
        audio_quality: Vec::new(),
        analysis: AudioQuality { num_samples: 1, sample_rate: 16000, duration_ms: 0 },
    }
}

#[test]
fn log_evicts_oldest_first_at_capacity() {
    let mut log = TranscriptLog::new();
    for n in 0..1001 {
        log.append(transcript(n));
    }
    assert_eq!(log.entries.len(), 1000);
    // the single oldest entry left; everything else is in order
    assert_eq!(log.entries[0].device_id, "dev-1");
    assert_eq!(log.entries[999].device_id, "dev-1000");
}

#[test]
fn log_under_capacity_is_plain_append() {
    let mut log = TranscriptLog::new();
    for n in 0..3 {
        log.append(transcript(n));
    }
    assert_eq!(log.entries.len(), 3);
    assert_eq!(log.entries[0].device_id, "dev-0");
    assert_eq!(log.entries[2].device_id, "dev-2");
}

#[test]
fn stamped_filename_layout() {
    let ts = Timestamp { year: 2026, month: 1, day: 19, hour: 17, minute: 20, second: 3 };
    let name = stamped_filename(&String::from("esp-1"), &ts, ".wav");
    assert_eq!(name, "esp-1_20260119_172003.wav");
}

#[test]
fn normalize_record_backfills_display_text() {
    let rec = StoredRecord {
        timestamp: Some(String::from("2026-01-19T17:20:03+00:00")),
        text: Some(String::from("hello")),
        transcript: None,
        payload: 7,
    };
    let out = normalize_record(&rec);
    assert_eq!(out.payload, 7);
    assert_eq!(out.timestamp.as_deref(), Some("2026-01-19T17:20:03+00:00"));
    assert_eq!(out.text.as_deref(), Some("hello"));
    assert_eq!(out.transcript.as_deref(), Some("hello"));
}

#[test]
fn normalize_record_keeps_existing_display_text() {
    let rec = StoredRecord {
        timestamp: Some(String::from("20260119_172003")),
        text: Some(String::from("engine words")),
        transcript: Some(String::from("display words")),
        payload: 0,
    };
    let out = normalize_record(&rec);
    assert_eq!(out.timestamp.as_deref(), Some("2026-01-19T17:20:03+00:00"));
    assert_eq!(out.transcript.as_deref(), Some("display words"));
}

fn rec(ts: &str, payload: usize) -> StoredRecord {
    StoredRecord { timestamp: Some(String::from(ts)), text: None, transcript: None, payload }
}

#[test]
fn sort_newest_first() {
    let records = vec![
        rec("2026-01-19T17:20:03+00:00", 0),
        rec("2026-01-21T09:00:00+00:00", 1),
        rec("2025-12-31T23:59:59+00:00", 2),
    ];
    let sorted = sort_records_desc(records);
    assert_eq!(sorted.len(), 3);
    assert_eq!(sorted[0].payload, 1);
    assert_eq!(sorted[1].payload, 0);
    assert_eq!(sorted[2].payload, 2);
}

#[test]
fn sort_puts_missing_timestamps_last() {
    let no_ts = StoredRecord { timestamp: None, text: None, transcript: None, payload: 9 };
    let records = vec![no_ts, rec("2026-01-19T17:20:03+00:00", 1)];
    let sorted = sort_records_desc(records);
    assert_eq!(sorted[0].payload, 1);
    assert_eq!(sorted[1].payload, 9);
}

#[test]
fn lexicographic_comparison_matches_text_order() {
    assert!(str_lex_le("", "a"));
    assert!(str_lex_le("abc", "abd"));
    assert!(!str_lex_le("abd", "abc"));
    assert!(str_lex_le("abc", "abc"));
    assert!(str_lex_le("ab", "abc"));
    assert!(!str_lex_le("abc", "ab"));
}
