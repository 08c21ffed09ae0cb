use memo_server::codec::{AudioQuality, decode_wav_header};
use memo_server::ingest::{
    AudioQuery, IngestError, StatusReply, audio_metric_name, complete_transcription, ingest_audio,
    sanitize_audio_path, status_query, toggle_recording,
};
use memo_server::registry::{DeviceRegistry, RecordingMap};
use memo_server::store::{StoredRecord, Transcript, TranscriptLog, sort_records_desc};
use memo_server::timestamp::Timestamp;

fn now_ts() -> Timestamp {
    Timestamp { year: 2026, month: 1, day: 19, hour: 17, minute: 20, second: 3 }
}

fn query(bits: u16) -> AudioQuery {
    AudioQuery { device: String::from("esp-1"), rate: 16000, bits, channels: 1 }
}

#[test]
fn eight_bit_audio_is_rejected_whatever_else_is_sent() {
    let body: Vec<u8> = vec![1, 2, 3, 4];
    for (rate, channels) in [(0u32, 0u16), (16000, 1), (44100, 2), (1, 8)] {
        let mut reg = DeviceRegistry::new();
        let q = AudioQuery { device: String::from("esp-1"), rate, bits: 8, channels };
        let r = ingest_audio(&mut reg, &q, &body, 100, &now_ts());
        assert_eq!(r.err(), Some(IngestError::UnsupportedBitDepth));
        // rejection happens before any work: the registry is untouched
        assert_eq!(reg.entries.len(), 0);
    }
}

#[test]
fn empty_payload_is_rejected() {
    let mut reg = DeviceRegistry::new();
    let r = ingest_audio(&mut reg, &query(16), &Vec::new(), 100, &now_ts());
    assert_eq!(r.err(), Some(IngestError::EmptyAudio));
    // a single stray byte decodes to no samples either
    let r1 = ingest_audio(&mut reg, &query(16), &vec![7], 100, &now_ts());
    assert_eq!(r1.err(), Some(IngestError::EmptyAudio));
    // rejection happens before any work: the registry is untouched
    assert_eq!(reg.entries.len(), 0);
}

#[test]
fn accepted_audio_yields_samples_container_and_name() {
    let mut reg = DeviceRegistry::new();
    let body: Vec<u8> = vec![0x01, 0x00, 0x00, 0x80];
    let a = ingest_audio(&mut reg, &query(16), &body, 100, &now_ts()).expect("valid submission");
    assert_eq!(a.samples, vec![1, -32768]);
    assert_eq!(a.wav_filename, "esp-1_20260119_172003.wav");
    assert_eq!(a.quality.num_samples, 2);
    assert_eq!(a.quality.sample_rate, 16000);
    let info = decode_wav_header(&a.wav_bytes).unwrap();
    assert_eq!(info.sample_rate, 16000);
    assert_eq!(info.channels, 1);
    assert_eq!(info.num_samples, 2);
    assert_eq!(reg.entries.len(), 1);
    assert_eq!(reg.entries[0].last_seen, 100);
}

#[test]
fn completed_transcript_is_logged_and_named() {
    let mut log = TranscriptLog::new();
    let t = Transcript {
        device_id: String::from("esp-1"),
        timestamp: now_ts(),
        text: String::from("hello there"),
        audio_file: Some(String::from("received_audio/esp-1_20260119_172003.wav")),
        audio_quality: vec![(String::from("rms"), String::from("0.25"))],
        analysis: AudioQuality { num_samples: 2, sample_rate: 16000, duration_ms: 0 },
    };
    let artifacts = complete_transcription(&mut log, t);
    assert_eq!(artifacts.json_filename, "esp-1_20260119_172003.json");
    assert_eq!(artifacts.txt_filename, "esp-1_20260119_172003.txt");
    assert_eq!(log.entries.len(), 1);
    assert_eq!(log.entries[0].text, "hello there");
}

#[test]
fn parent_directory_paths_are_refused() {
    assert!(sanitize_audio_path("../../etc/passwd").is_none());
    assert!(sanitize_audio_path("foo/../bar.wav").is_none());
    assert!(sanitize_audio_path("received_audio/../x.wav").is_none());
    assert!(sanitize_audio_path("a..b").is_none());
}

#[test]
fn ordinary_paths_are_cleaned() {
    assert_eq!(sanitize_audio_path("esp-1_20260119_172003.wav").as_deref(), Some("esp-1_20260119_172003.wav"));
    assert_eq!(sanitize_audio_path("received_audio/x.wav").as_deref(), Some("x.wav"));
    assert_eq!(sanitize_audio_path("/x.wav").as_deref(), Some("x.wav"));
    assert_eq!(sanitize_audio_path("///received_audio/x.wav").as_deref(), Some("x.wav"));
    assert_eq!(sanitize_audio_path("").as_deref(), Some(""));
}

#[test]
fn metric_headers_are_recognized_by_prefix() {
    assert_eq!(audio_metric_name("x-audio-rms").as_deref(), Some("rms"));
    assert_eq!(audio_metric_name("x-audio-peak_level").as_deref(), Some("peak_level"));
    assert_eq!(audio_metric_name("content-type"), None);
    assert_eq!(audio_metric_name("x-audio"), None);
}

#[test]
fn status_query_for_one_device_touches_and_reports() {
    let mut reg = DeviceRegistry::new();
    let mut flags = RecordingMap::new();
    let id = String::from("esp-1");
    flags.set_recording(&id, true);
    let reply = status_query(&mut reg, &flags, &id, 100, &now_ts(), Some(String::from("10.0.0.7")));
    match reply {
        StatusReply::Device(recording) => assert!(recording),
        StatusReply::AllDevices(_) => panic!("a named device gets its own flag"),
    }
    assert_eq!(reg.entries.len(), 1);
    assert_eq!(reg.entries[0].ip_address.as_deref(), Some("10.0.0.7"));
}

#[test]
fn status_query_without_device_reports_all_flags() {
    let mut reg = DeviceRegistry::new();
    let mut flags = RecordingMap::new();
    flags.set_recording(&String::from("a"), true);
    flags.set_recording(&String::from("b"), false);
    let reply = status_query(&mut reg, &flags, &String::new(), 100, &now_ts(), None);
    match reply {
        StatusReply::AllDevices(all) => {
            assert_eq!(all.len(), 2);
            assert_eq!(all[0], (String::from("a"), true));
            assert_eq!(all[1], (String::from("b"), false));
        },
        StatusReply::Device(_) => panic!("an empty device name gets the full map"),
    }
    assert_eq!(reg.entries.len(), 0);
}

#[test]
fn toggle_recording_flips_one_flag_and_acknowledges() {
    let mut flags = RecordingMap::new();
    let a = String::from("a");
    let b = String::from("b");
    flags.set_recording(&b, true);
    assert_eq!(toggle_recording(&mut flags, &a, true), "started");
    assert!(flags.get_recording(&a));
    assert!(flags.get_recording(&b));
    assert_eq!(toggle_recording(&mut flags, &a, false), "stopped");
    assert!(!flags.get_recording(&a));
    assert!(flags.get_recording(&b));
}

#[test]
fn two_devices_are_both_accepted_before_any_transcription() {
    // two submissions against one registry: each is accepted — and its
    // container named — with no transcription involved at all
    let mut reg = DeviceRegistry::new();
    let q1 = AudioQuery { device: String::from("esp-1"), rate: 16000, bits: 16, channels: 1 };
    let q2 = AudioQuery { device: String::from("esp-2"), rate: 16000, bits: 16, channels: 1 };
    let a1 = ingest_audio(&mut reg, &q1, &vec![1, 0], 100, &now_ts()).unwrap();
    let a2 = ingest_audio(&mut reg, &q2, &vec![2, 0], 100, &now_ts()).unwrap();
    assert_eq!(reg.entries.len(), 2);
    assert_eq!(a1.wav_filename, "esp-1_20260119_172003.wav");
    assert_eq!(a2.wav_filename, "esp-2_20260119_172003.wav");

    // whichever transcription completes later sorts first in the listing
    let earlier = StoredRecord {
        timestamp: Some(String::from("2026-01-19T17:20:05+00:00")),
        text: None,
        transcript: None,
        payload: 1,
    };
    let later = StoredRecord {
        timestamp: Some(String::from("2026-01-19T17:20:09+00:00")),
        text: None,
        transcript: None,
        payload: 2,
    };
    let sorted = sort_records_desc(vec![earlier, later]);
    assert_eq!(sorted[0].payload, 2);
    assert_eq!(sorted[1].payload, 1);
}
