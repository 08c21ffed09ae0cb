//! Uncompressed PCM audio container (RIFF/WAVE) encoding.
//!
//! `encode_wav` is a pure function from 16-bit samples and format
//! parameters to the exact container bytes: a 44-byte header followed by
//! the little-endian samples. `decode_wav_header` reads the format
//! parameters back out of such a container, and `lemma_wav_round_trip`
//! proves that decoding recovers exactly what was encoded.

use vstd::prelude::*;

verus! {

/// The two little-endian bytes of a value below 2^16.
pub open spec fn le_bytes2(v: int) -> Seq<u8> {
    seq![(v % 256) as u8, ((v / 256) % 256) as u8]
}

/// The four little-endian bytes of a value below 2^32.
pub open spec fn le_bytes4(v: int) -> Seq<u8> {
    seq![
        (v % 256) as u8,
        ((v / 256) % 256) as u8,
        ((v / 65536) % 256) as u8,
        ((v / 16777216) % 256) as u8,
    ]
}

/// The value encoded by two little-endian bytes.
pub open spec fn from_le2(b0: u8, b1: u8) -> int {
    b0 + 256 * b1
}

/// The value encoded by four little-endian bytes.
pub open spec fn from_le4(b0: u8, b1: u8, b2: u8, b3: u8) -> int {
    b0 + 256 * b1 + 65536 * b2 + 16777216 * b3
}

/// A signed 16-bit sample as its unsigned two's-complement image.
pub open spec fn sample_to_unsigned(s: i16) -> int {
    if s >= 0 {
        s as int
    } else {
        s + 65536
    }
}

/// The signed sample encoded by an unsigned 16-bit image.
pub open spec fn sample_from_unsigned(v: int) -> int {
    if v < 32768 {
        v
    } else {
        v - 65536
    }
}

/// The sample section of the container: each sample as two
/// little-endian bytes, in order.
pub open spec fn sample_bytes(samples: Seq<i16>) -> Seq<u8>
    decreases samples.len(),
{
    if samples.len() == 0 {
        Seq::empty()
    } else {
        sample_bytes(samples.drop_last()) + le_bytes2(sample_to_unsigned(samples.last()))
    }
}

/// The 44-byte RIFF/WAVE header for PCM data of `num_samples` 16-bit
/// samples: format tag 1, the given channel count and sample rate,
/// byte rate `rate * channels * 2`, block align `channels * 2`,
/// 16 bits per sample.
pub open spec fn wav_header(sample_rate: u32, channels: u16, num_samples: int) -> Seq<u8> {
    seq![82u8, 73u8, 70u8, 70u8]  // "RIFF"
    + le_bytes4(36 + 2 * num_samples)
    + seq![87u8, 65u8, 86u8, 69u8]  // "WAVE"
    + seq![102u8, 109u8, 116u8, 32u8]  // "fmt "
    + le_bytes4(16)
    + le_bytes2(1)
    + le_bytes2(channels as int)
    + le_bytes4(sample_rate as int)
    + le_bytes4(sample_rate * channels * 2)
    + le_bytes2(channels * 2)
    + le_bytes2(16)
    + seq![100u8, 97u8, 116u8, 97u8]  // "data"
    + le_bytes4(2 * num_samples)
}

/// The whole container: header, then the samples verbatim.
pub open spec fn wav_bytes(samples: Seq<i16>, sample_rate: u32, channels: u16) -> Seq<u8> {
    wav_header(sample_rate, channels, samples.len() as int) + sample_bytes(samples)
}

/// The format parameters a container header carries.
pub struct WavHeaderInfo {
    pub channels: u16,
    pub sample_rate: u32,
    pub bits_per_sample: u16,
    pub num_samples: usize,
}

fn push_le2(out: &mut Vec<u8>, v: u16)
    ensures
        final(out)@ == old(out)@ + le_bytes2(v as int),
{
    out.push((v % 256) as u8);
    out.push((v / 256) as u8);
    assert(final(out)@ =~= old(out)@ + le_bytes2(v as int));
}

fn push_le4(out: &mut Vec<u8>, v: u32)
    ensures
        final(out)@ == old(out)@ + le_bytes4(v as int),
{
    out.push((v % 256) as u8);
    out.push(((v / 256) % 256) as u8);
    out.push(((v / 65536) % 256) as u8);
    out.push((v / 16777216) as u8);
    assert(final(out)@ =~= old(out)@ + le_bytes4(v as int));
}

/// Encode 16-bit PCM samples as an uncompressed RIFF/WAVE container.
/// Pure and deterministic: the result is exactly `wav_bytes`.
pub fn encode_wav(samples: &Vec<i16>, sample_rate: u32, channels: u16) -> (out: Vec<u8>)
    requires
        36 + 2 * samples@.len() <= u32::MAX,
        sample_rate * channels * 2 <= u32::MAX,
        channels * 2 <= u16::MAX,
    ensures
        out@ == wav_bytes(samples@, sample_rate, channels),
        out@.len() == 44 + 2 * samples@.len(),
{
    let mut out: Vec<u8> = Vec::new();
    let data_len: u32 = 2 * samples.len() as u32;

    out.push(82);
    out.push(73);
    out.push(70);
    out.push(70);
    push_le4(&mut out, 36 + data_len);
    out.push(87);
    out.push(65);
    out.push(86);
    out.push(69);
    out.push(102);
    out.push(109);
    out.push(116);
    out.push(32);
    push_le4(&mut out, 16);
    push_le2(&mut out, 1);
    push_le2(&mut out, channels);
    push_le4(&mut out, sample_rate);
    push_le4(&mut out, sample_rate * channels as u32 * 2);
    push_le2(&mut out, channels * 2);
    push_le2(&mut out, 16);
    out.push(100);
    out.push(97);
    out.push(116);
    out.push(97);
    push_le4(&mut out, data_len);

    assert(out@ =~= wav_header(sample_rate, channels, samples@.len() as int));

    let ghost header = out@;
    let mut i: usize = 0;
    while i < samples.len()
        invariant
            i <= samples@.len(),
            out@ == header + sample_bytes(samples@.take(i as int)),
            header == wav_header(sample_rate, channels, samples@.len() as int),
        decreases samples@.len() - i,
    {
        let s = samples[i];
        let u: u16 = if s >= 0 {
            s as u16
        } else {
            ((s as i32) + 65536) as u16
        };
        push_le2(&mut out, u);
        proof {
            assert(samples@.take(i + 1).drop_last() =~= samples@.take(i as int));
            assert(samples@.take(i + 1).last() == samples@[i as int]);
            assert(u as int == sample_to_unsigned(samples@[i as int]));
            assert(out@ =~= header + sample_bytes(samples@.take(i + 1)));
        }
        i = i + 1;
    }
    proof {
        assert(samples@.take(samples@.len() as int) =~= samples@);
        lemma_sample_bytes_len(samples@);
    }
    out
}

/// The sample section is two bytes per sample.
pub proof fn lemma_sample_bytes_len(samples: Seq<i16>)
    ensures
        sample_bytes(samples).len() == 2 * samples.len(),
    decreases samples.len(),
{
    if samples.len() > 0 {
        lemma_sample_bytes_len(samples.drop_last());
    }
}

/// What a byte sequence's container header says, if the sequence is
/// long enough to hold one and carries the RIFF/WAVE markers.
pub open spec fn parse_wav_header(bytes: Seq<u8>) -> Option<WavHeaderInfo> {
    if bytes.len() >= 44 && bytes[0] == 82 && bytes[1] == 73 && bytes[2] == 70 && bytes[3] == 70
        && bytes[8] == 87 && bytes[9] == 65 && bytes[10] == 86 && bytes[11] == 69 && bytes[12]
        == 102 && bytes[13] == 109 && bytes[14] == 116 && bytes[15] == 32 && bytes[36] == 100
        && bytes[37] == 97 && bytes[38] == 116 && bytes[39] == 97 && from_le4(
        bytes[40],
        bytes[41],
        bytes[42],
        bytes[43],
    ) / 2 <= usize::MAX {
        Some(
            WavHeaderInfo {
                channels: from_le2(bytes[22], bytes[23]) as u16,
                sample_rate: from_le4(bytes[24], bytes[25], bytes[26], bytes[27]) as u32,
                bits_per_sample: from_le2(bytes[34], bytes[35]) as u16,
                num_samples: (from_le4(bytes[40], bytes[41], bytes[42], bytes[43]) / 2) as usize,
            },
        )
    } else {
        None
    }
}

/// Read the format parameters back out of a container produced by
/// `encode_wav` (or any byte sequence with the same layout).
pub fn decode_wav_header(bytes: &Vec<u8>) -> (r: Option<WavHeaderInfo>)
    ensures
        r == parse_wav_header(bytes@),
{
    if bytes.len() < 44 {
        return None;
    }
    if !(bytes[0] == 82 && bytes[1] == 73 && bytes[2] == 70 && bytes[3] == 70) {
        return None;
    }
    if !(bytes[8] == 87 && bytes[9] == 65 && bytes[10] == 86 && bytes[11] == 69) {
        return None;
    }
    if !(bytes[12] == 102 && bytes[13] == 109 && bytes[14] == 116 && bytes[15] == 32) {
        return None;
    }
    if !(bytes[36] == 100 && bytes[37] == 97 && bytes[38] == 116 && bytes[39] == 97) {
        return None;
    }
    let channels: u16 = bytes[22] as u16 + 256 * bytes[23] as u16;
    let sample_rate: u32 = bytes[24] as u32 + 256 * bytes[25] as u32 + 65536 * bytes[26] as u32
        + 16777216 * bytes[27] as u32;
    let bits: u16 = bytes[34] as u16 + 256 * bytes[35] as u16;
    let data_len: u32 = bytes[40] as u32 + 256 * bytes[41] as u32 + 65536 * bytes[42] as u32
        + 16777216 * bytes[43] as u32;
    let num_samples: usize = (data_len / 2) as usize;
    Some(WavHeaderInfo { channels, sample_rate, bits_per_sample: bits, num_samples })
}

/// Splitting a value below 2^32 into four little-endian bytes and
/// reassembling them gives the value back.
pub proof fn lemma_le4_round(v: int)
    requires
        0 <= v < 0x100000000,
    ensures
        from_le4(
            le_bytes4(v)[0],
            le_bytes4(v)[1],
            le_bytes4(v)[2],
            le_bytes4(v)[3],
        ) == v,
{
    assert(from_le4(
        (v % 256) as u8,
        ((v / 256) % 256) as u8,
        ((v / 65536) % 256) as u8,
        ((v / 16777216) % 256) as u8,
    ) == v) by (nonlinear_arith)
        requires
            0 <= v < 0x100000000,
    ;
}

/// The two-byte analogue of `lemma_le4_round`.
pub proof fn lemma_le2_round(v: int)
    requires
        0 <= v < 0x10000,
    ensures
        from_le2(le_bytes2(v)[0], le_bytes2(v)[1]) == v,
{
    assert(from_le2((v % 256) as u8, ((v / 256) % 256) as u8) == v) by (nonlinear_arith)
        requires
            0 <= v < 0x10000,
    ;
}

/// Decoding the header of an encoded container recovers exactly the
/// sample rate, channel count, bit depth (16) and sample count that
/// were supplied to the encoder.
pub proof fn lemma_wav_round_trip(samples: Seq<i16>, sample_rate: u32, channels: u16)
    requires
        36 + 2 * samples.len() <= u32::MAX,
        sample_rate * channels * 2 <= u32::MAX,
    ensures
        parse_wav_header(wav_bytes(samples, sample_rate, channels)) == Some(
            WavHeaderInfo {
                channels,
                sample_rate,
                bits_per_sample: 16,
                num_samples: samples.len() as usize,
            },
        ),
{
    let bytes = wav_bytes(samples, sample_rate, channels);
    lemma_sample_bytes_len(samples);
    assert(bytes.len() == 44 + 2 * samples.len());
    let n = samples.len() as int;
    assert(bytes[0] == 82 && bytes[1] == 73 && bytes[2] == 70 && bytes[3] == 70);
    assert(bytes[8] == 87 && bytes[9] == 65 && bytes[10] == 86 && bytes[11] == 69);
    assert(bytes[12] == 102 && bytes[13] == 109 && bytes[14] == 116 && bytes[15] == 32);
    assert(bytes[36] == 100 && bytes[37] == 97 && bytes[38] == 116 && bytes[39] == 97);
    assert(bytes[22] == le_bytes2(channels as int)[0] && bytes[23] == le_bytes2(
        channels as int,
    )[1]);
    assert(bytes[24] == le_bytes4(sample_rate as int)[0] && bytes[25] == le_bytes4(
        sample_rate as int,
    )[1] && bytes[26] == le_bytes4(sample_rate as int)[2] && bytes[27] == le_bytes4(
        sample_rate as int,
    )[3]);
    assert(bytes[34] == le_bytes2(16)[0] && bytes[35] == le_bytes2(16)[1]);
    assert(bytes[40] == le_bytes4(2 * n)[0] && bytes[41] == le_bytes4(2 * n)[1] && bytes[42]
        == le_bytes4(2 * n)[2] && bytes[43] == le_bytes4(2 * n)[3]);
    lemma_le2_round(channels as int);
    lemma_le4_round(sample_rate as int);
    lemma_le2_round(16);
    lemma_le4_round(2 * n);
}

/// The 16-bit samples a raw little-endian byte payload decodes to:
/// byte pairs in order, a trailing odd byte dropped.
pub open spec fn pcm_of(bytes: Seq<u8>) -> Seq<i16> {
    Seq::new((bytes.len() / 2) as nat, |i: int| sample_from_unsigned(bytes[2 * i] + 256 * bytes[2 * i + 1]) as i16)
}

/// Decode a raw little-endian byte payload into 16-bit samples.
pub fn decode_pcm_samples(body: &Vec<u8>) -> (r: Vec<i16>)
    ensures
        r@ == pcm_of(body@),
{
    let blen = body.len();
    let n = blen / 2;
    let mut out: Vec<i16> = Vec::new();
    let mut i: usize = 0;
    while i < n
        invariant
            blen == body@.len(),
            n == body@.len() / 2,
            i <= n,
            out@.len() == i,
            forall|j: int| 0 <= j < i ==> out@[j] == pcm_of(body@)[j],
        decreases n - i,
    {
        proof {
            assert(2 * (i as int) + 1 < body@.len());
        }
        let lo = body[2 * i];
        let hi = body[2 * i + 1];
        let v: u16 = lo as u16 + 256 * (hi as u16);
        let s: i16 = if v < 32768 {
            v as i16
        } else {
            ((v as i32) - 65536) as i16
        };
        proof {
            assert(s as int == sample_from_unsigned(v as int));
            assert(pcm_of(body@)[i as int] == s);
        }
        out.push(s);
        i = i + 1;
    }
    proof {
        assert(out@ =~= pcm_of(body@));
    }
    out
}

/// Basic shape summary of a sample buffer: sample count and duration.
/// Duration is held in milliseconds so that it stays a plain integer.
pub struct AudioQuality {
    pub num_samples: usize,
    pub sample_rate: u32,
    pub duration_ms: u64,
}

/// Summarize a sample buffer: its length, and its duration as
/// `num_samples * 1000 / sample_rate` milliseconds (zero when the rate
/// is zero). No further analysis is performed by design.
pub fn analyze_audio_quality(pcm_data: &Vec<i16>, sample_rate: u32) -> (q: AudioQuality)
    requires
        pcm_data@.len() * 1000 <= u64::MAX,
    ensures
        q.num_samples == pcm_data@.len(),
        q.sample_rate == sample_rate,
        q.duration_ms == if sample_rate > 0 {
            pcm_data@.len() as int * 1000 / sample_rate as int
        } else {
            0
        },
{
    let n = pcm_data.len();
    let duration_ms: u64 = if sample_rate > 0 {
        ((n as u64) * 1000) / (sample_rate as u64)
    } else {
        0
    };
    AudioQuality { num_samples: n, sample_rate, duration_ms }
}

} // verus!
