use memo_server::codec::{analyze_audio_quality, decode_pcm_samples, decode_wav_header, encode_wav};

#[test]
fn encode_wav_exact_bytes() {
    let samples: Vec<i16> = vec![0, 1, -1, 256];
    let out = encode_wav(&samples, 16000, 1);
    assert_eq!(out.len(), 44 + 8);
    // RIFF chunk: size = 36 + 8
    assert_eq!(&out[0..4], b"RIFF");
    assert_eq!(u32::from_le_bytes([out[4], out[5], out[6], out[7]]), 44);
    assert_eq!(&out[8..12], b"WAVE");
    // fmt chunk
    assert_eq!(&out[12..16], b"fmt ");
    assert_eq!(u32::from_le_bytes([out[16], out[17], out[18], out[19]]), 16);
    assert_eq!(u16::from_le_bytes([out[20], out[21]]), 1); // PCM
    assert_eq!(u16::from_le_bytes([out[22], out[23]]), 1); // channels
    assert_eq!(u32::from_le_bytes([out[24], out[25], out[26], out[27]]), 16000);
    assert_eq!(u32::from_le_bytes([out[28], out[29], out[30], out[31]]), 32000); // byte rate
    assert_eq!(u16::from_le_bytes([out[32], out[33]]), 2); // block align
    assert_eq!(u16::from_le_bytes([out[34], out[35]]), 16); // bits
    // data chunk
    assert_eq!(&out[36..40], b"data");
    assert_eq!(u32::from_le_bytes([out[40], out[41], out[42], out[43]]), 8);
    // samples, little-endian
    assert_eq!(&out[44..], &[0u8, 0, 1, 0, 0xFF, 0xFF, 0, 1]);
}

#[test]
fn encode_wav_deterministic() {
    let samples: Vec<i16> = vec![12, -345, 6789, -32768, 32767];
    let a = encode_wav(&samples, 44100, 2);
    let b = encode_wav(&samples, 44100, 2);
    assert_eq!(a, b);
}

#[test]
fn wav_header_round_trip() {
    let samples: Vec<i16> = vec![5; 321];
    let out = encode_wav(&samples, 22050, 2);
    let info = decode_wav_header(&out).expect("a freshly encoded container has a header");
    assert_eq!(info.sample_rate, 22050);
    assert_eq!(info.channels, 2);
    assert_eq!(info.bits_per_sample, 16);
    assert_eq!(info.num_samples, 321);
}

#[test]
fn decode_header_rejects_short_or_foreign_bytes() {
    assert!(decode_wav_header(&vec![1, 2, 3]).is_none());
    let not_riff = vec![0u8; 64];
    assert!(decode_wav_header(&not_riff).is_none());
}

#[test]
fn decode_pcm_little_endian_pairs() {
    let body: Vec<u8> = vec![0x01, 0x00, 0xFF, 0xFF, 0x00, 0x80, 0xFF];
    let samples = decode_pcm_samples(&body);
    // the trailing odd byte is dropped
    assert_eq!(samples, vec![1, -1, -32768]);
}

#[test]
fn analyze_audio_quality_counts_and_duration() {
    let samples: Vec<i16> = vec![0; 16000];
    let q = analyze_audio_quality(&samples, 16000);
    assert_eq!(q.num_samples, 16000);
    assert_eq!(q.sample_rate, 16000);
    assert_eq!(q.duration_ms, 1000);

    let q0 = analyze_audio_quality(&samples, 0);
    assert_eq!(q0.duration_ms, 0);

    let half = analyze_audio_quality(&vec![0i16; 8000], 16000);
    assert_eq!(half.duration_ms, 500);
}
