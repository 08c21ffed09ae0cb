//! The ingestion and transcription orchestration logic, as plain
//! decisions: validate an audio submission and turn it into container
//! bytes and a file name, compose and log a completed transcript,
//! answer status queries, toggle recording flags, and vet a requested
//! audio file path. The transport layer performs the I/O around these
//! and hands every outcome back in as a plain value.

use vstd::prelude::*;
use crate::codec::{
    AudioQuality, analyze_audio_quality, decode_pcm_samples, encode_wav, pcm_of, wav_bytes,
};
use crate::registry::{DeviceRegistry, RecordingMap, ip_view, touch_post};
use crate::store::{LOG_CAPACITY, Transcript, TranscriptLog, stamped_filename, stamped_name};
use crate::timestamp::Timestamp;

verus! {

/// The format parameters an audio submission carries.
pub struct AudioQuery {
    pub device: String,
    pub rate: u32,
    pub bits: u16,
    pub channels: u16,
}

/// Why a submission was rejected before any work was done.
#[derive(PartialEq, Eq, Structural, Debug, Clone, Copy)]
pub enum IngestError {
    /// Only 16-bit samples are accepted.
    UnsupportedBitDepth,
    /// The payload decoded to no samples at all.
    EmptyAudio,
}

/// Everything an accepted submission yields before transcription: the
/// decoded samples, the encoded container, the name to store it under,
/// and the server-side analysis.
pub struct AcceptedAudio {
    pub samples: Vec<i16>,
    pub wav_bytes: Vec<u8>,
    pub wav_filename: String,
    pub quality: AudioQuality,
}

/// Accept or reject one audio submission. A submission is rejected
/// exactly when its bit depth is not 16 or its payload decodes to no
/// samples, before any work is done: a rejected submission leaves the
/// registry exactly as it was. An accepted one registers the
/// submitting device as seen and yields the decoded samples, the exact
/// container bytes, the stamped `.wav` name and the analysis, before —
/// independent of — any transcription.
pub fn ingest_audio(
    registry: &mut DeviceRegistry,
    query: &AudioQuery,
    body: &Vec<u8>,
    now: u64,
    now_ts: &Timestamp,
) -> (r: Result<AcceptedAudio, IngestError>)
    requires
        old(registry).wf(),
        now_ts.wf(),
        query.bits == 16 ==> 36 + body@.len() <= u32::MAX && query.rate * query.channels * 2
            <= u32::MAX && query.channels * 2 <= u16::MAX,
    ensures
        final(registry).wf(),
        r is Err ==> *final(registry) == *old(registry),
        r is Ok ==> touch_post(*old(registry), *final(registry), query.device@, now, *now_ts, None),
        r is Err ==> (r->Err_0 == IngestError::UnsupportedBitDepth <==> query.bits != 16),
        r is Err && query.bits == 16 ==> r->Err_0 == IngestError::EmptyAudio,
        r is Ok <==> query.bits == 16 && body@.len() / 2 > 0,
        r is Ok ==> ({
            let a = r->Ok_0;
            &&& a.samples@ == pcm_of(body@)
            &&& a.wav_bytes@ == wav_bytes(pcm_of(body@), query.rate, query.channels)
            &&& a.wav_filename@ == stamped_name(query.device@, *now_ts, seq!['.', 'w', 'a', 'v'])
            &&& a.quality.num_samples == pcm_of(body@).len()
            &&& a.quality.sample_rate == query.rate
            &&& a.quality.duration_ms == if query.rate > 0 {
                pcm_of(body@).len() as int * 1000 / query.rate as int
            } else {
                0
            }
        }),
{
    if query.bits != 16 {
        return Err(IngestError::UnsupportedBitDepth);
    }
    let samples = decode_pcm_samples(body);
    if samples.len() == 0 {
        return Err(IngestError::EmptyAudio);
    }
    registry.touch(&query.device, now, *now_ts, None);
    let quality = analyze_audio_quality(&samples, query.rate);
    let wav = encode_wav(&samples, query.rate, query.channels);
    let wav_filename = stamped_filename(&query.device, now_ts, ".wav");
    proof {
        reveal_strlit(".wav");
        assert(".wav"@ =~= seq!['.', 'w', 'a', 'v']);
    }
    Ok(AcceptedAudio { samples, wav_bytes: wav, wav_filename, quality })
}

/// The names a completed transcript's two durable artifacts go under.
pub struct TranscriptArtifacts {
    pub json_filename: String,
    pub txt_filename: String,
}

/// Finish one successful transcription job: the transcript enters the
/// bounded in-memory log (oldest out first at capacity), and the names
/// for its durable `.json` and `.txt` artifacts are derived from its
/// device and timestamp. Failed jobs never reach this point: nothing
/// is logged and nothing is named for them.
pub fn complete_transcription(log: &mut TranscriptLog, t: Transcript) -> (r: TranscriptArtifacts)
    requires
        old(log).wf(),
        t.timestamp.wf(),
    ensures
        final(log).wf(),
        final(log).entries@ == if old(log).entries@.len() < LOG_CAPACITY {
            old(log).entries@.push(t)
        } else {
            old(log).entries@.push(t).drop_first()
        },
        r.json_filename@ == stamped_name(t.device_id@, t.timestamp, seq!['.', 'j', 's', 'o', 'n']),
        r.txt_filename@ == stamped_name(t.device_id@, t.timestamp, seq!['.', 't', 'x', 't']),
{
    let json_filename = stamped_filename(&t.device_id, &t.timestamp, ".json");
    let txt_filename = stamped_filename(&t.device_id, &t.timestamp, ".txt");
    proof {
        reveal_strlit(".json");
        reveal_strlit(".txt");
        assert(".json"@ =~= seq!['.', 'j', 's', 'o', 'n']);
        assert(".txt"@ =~= seq!['.', 't', 'x', 't']);
    }
    log.append(t);
    TranscriptArtifacts { json_filename, txt_filename }
}

/// The reply to a status poll: the one device's flag, or every flag.
pub enum StatusReply {
    Device(bool),
    AllDevices(Vec<(String, bool)>),
}

/// Answer a status poll. A named device is registered as seen (with
/// the caller's address) and gets its own recording flag; an empty
/// device name leaves the registry alone and gets every flag.
pub fn status_query(
    registry: &mut DeviceRegistry,
    flags: &RecordingMap,
    device_id: &String,
    now: u64,
    now_ts: &Timestamp,
    ip: Option<String>,
) -> (r: StatusReply)
    requires
        old(registry).wf(),
        flags.wf(),
        now_ts.wf(),
    ensures
        final(registry).wf(),
        device_id@.len() > 0 ==> touch_post(
            *old(registry),
            *final(registry),
            device_id@,
            now,
            *now_ts,
            ip_view(ip),
        ) && r == StatusReply::Device(flags.spec_get(device_id@)),
        device_id@.len() == 0 ==> *final(registry) == *old(registry) && (r matches
            StatusReply::AllDevices(v) && v@.len() == flags.entries@.len() && (forall|i: int|
            0 <= i < v@.len() ==> (#[trigger] v@[i]).0@ == flags.entries@[i].0@ && v@[i].1
                == flags.entries@[i].1)),
{
    if !device_id.as_str().is_empty() {
        registry.touch(device_id, now, *now_ts, ip);
        StatusReply::Device(flags.get_recording(device_id))
    } else {
        StatusReply::AllDevices(flags.snapshot())
    }
}

/// The acknowledgment word for a recording toggle.
pub open spec fn status_word(recording: bool) -> Seq<char> {
    if recording {
        seq!['s', 't', 'a', 'r', 't', 'e', 'd']
    } else {
        seq!['s', 't', 'o', 'p', 'p', 'e', 'd']
    }
}

/// Flip one device's recording flag and give the acknowledgment word;
/// every other flag stays. The caller publishes the matching event.
pub fn toggle_recording(flags: &mut RecordingMap, device_id: &String, recording: bool) -> (status:
    String)
    requires
        old(flags).wf(),
    ensures
        final(flags).wf(),
        final(flags).spec_get(device_id@) == recording,
        forall|other: Seq<char>|
            other != device_id@ ==> #[trigger] final(flags).spec_get(other) == old(
                flags,
            ).spec_get(other),
        status@ == status_word(recording),
{
    flags.set_recording(device_id, recording);
    if recording {
        proof {
            reveal_strlit("started");
            assert("started"@ =~= status_word(true));
        }
        "started".to_owned()
    } else {
        proof {
            reveal_strlit("stopped");
            assert("stopped"@ =~= status_word(false));
        }
        "stopped".to_owned()
    }
}

/// Whether `s` starts with `p`.
fn has_prefix(s: &str, p: &str) -> (r: bool)
    ensures
        r == (s@.len() >= p@.len() && s@.take(p@.len() as int) == p@),
{
    let np = p.unicode_len();
    let ns = s.unicode_len();
    if ns < np {
        return false;
    }
    let mut i: usize = 0;
    while i < np
        invariant
            np == p@.len(),
            ns == s@.len(),
            ns >= np,
            i <= np,
            forall|j: int| 0 <= j < i ==> s@[j] == p@[j],
        decreases np - i,
    {
        if s.get_char(i) != p.get_char(i) {
            proof {
                assert(s@.take(np as int)[i as int] == s@[i as int]);
                assert(s@.take(np as int) != p@);
            }
            return false;
        }
        i = i + 1;
    }
    proof {
        assert(s@.take(np as int) =~= p@);
    }
    true
}

/// The marker under which a submission's transport metadata carries a
/// device-measured audio metric.
pub open spec fn metric_prefix() -> Seq<char> {
    seq!['x', '-', 'a', 'u', 'd', 'i', 'o', '-']
}

/// The metric a metadata key names, if it carries the marker.
pub open spec fn metric_suffix(k: Seq<char>) -> Option<Seq<char>> {
    if k.len() >= 8 && k.take(8) == metric_prefix() {
        Some(k.skip(8))
    } else {
        None
    }
}

/// Recognize a device-supplied audio metric by its key (already in
/// lower case, as the transport hands keys over): the metric's name,
/// or nothing for any other key.
pub fn audio_metric_name(key: &str) -> (r: Option<String>)
    ensures
        r is Some <==> metric_suffix(key@) is Some,
        r is Some ==> r->0@ == metric_suffix(key@)->0,
{
    let p = "x-audio-";
    proof {
        reveal_strlit("x-audio-");
        assert(p@ =~= metric_prefix());
    }
    if has_prefix(key, p) {
        let suffix = key.substring_char(8, key.unicode_len());
        proof {
            assert(suffix@ =~= key@.skip(8));
        }
        Some(suffix.to_owned())
    } else {
        None
    }
}

/// Leading `/` characters, dropped.
pub open spec fn trim_slashes(s: Seq<char>) -> Seq<char>
    decreases s.len(),
{
    if s.len() > 0 && s[0] == '/' {
        trim_slashes(s.drop_first())
    } else {
        s
    }
}

proof fn lemma_trim_slashes(s: Seq<char>, k: int)
    requires
        0 <= k <= s.len(),
        forall|j: int| 0 <= j < k ==> s[j] == '/',
        k < s.len() ==> s[k] != '/',
    ensures
        trim_slashes(s) == s.skip(k),
    decreases k,
{
    if k == 0 {
        assert(s.skip(0) =~= s);
    } else {
        assert forall|j: int| 0 <= j < k - 1 implies s.drop_first()[j] == '/' by {
            assert(s[j + 1] == '/');
        }
        lemma_trim_slashes(s.drop_first(), k - 1);
        assert(s.drop_first().skip(k - 1) =~= s.skip(k));
    }
}

/// The storage-directory prefix a caller may spell out.
pub open spec fn audio_dir_prefix() -> Seq<char> {
    seq!['r', 'e', 'c', 'e', 'i', 'v', 'e', 'd', '_', 'a', 'u', 'd', 'i', 'o', '/']
}

/// That prefix, stripped once where present.
pub open spec fn strip_audio_prefix(s: Seq<char>) -> Seq<char> {
    if s.len() >= 15 && s.take(15) == audio_dir_prefix() {
        s.skip(15)
    } else {
        s
    }
}

/// Whether the text holds two dots in a row (a parent-directory step).
pub open spec fn has_dotdot(s: Seq<char>) -> bool {
    exists|i: int| 0 <= i < s.len() - 1 && #[trigger] s[i] == '.' && s[i + 1] == '.'
}

/// What a requested audio path cleans to, or nothing where it must be
/// refused: leading slashes and one spelled-out storage-directory
/// prefix come off; what still holds `..` or starts at the root is
/// refused.
pub open spec fn sanitized_audio_path(s: Seq<char>) -> Option<Seq<char>> {
    let t = strip_audio_prefix(trim_slashes(s));
    if has_dotdot(t) || (t.len() > 0 && t[0] == '/') {
        None
    } else {
        Some(t)
    }
}

/// Vet a requested audio file path: the cleaned name to look up under
/// the storage root, or nothing exactly when the request must be
/// refused as out of root.
pub fn sanitize_audio_path(path: &str) -> (r: Option<String>)
    ensures
        r is Some <==> sanitized_audio_path(path@) is Some,
        r is Some ==> r->0@ == sanitized_audio_path(path@)->0,
{
    let n = path.unicode_len();
    let mut k: usize = 0;
    while k < n && path.get_char(k) == '/'
        invariant
            n == path@.len(),
            k <= n,
            forall|j: int| 0 <= j < k ==> path@[j] == '/',
        decreases n - k,
    {
        k = k + 1;
    }
    proof {
        lemma_trim_slashes(path@, k as int);
    }
    let t1 = path.substring_char(k, n);
    let p = "received_audio/";
    proof {
        reveal_strlit("received_audio/");
        assert(p@ =~= audio_dir_prefix());
    }
    let t2: &str = if has_prefix(t1, p) {
        let stripped = t1.substring_char(15, t1.unicode_len());
        proof {
            assert(stripped@ =~= t1@.skip(15));
        }
        stripped
    } else {
        t1
    };
    proof {
        assert(t2@ == strip_audio_prefix(trim_slashes(path@)));
    }
    let m = t2.unicode_len();
    if m > 1 {
        let mut i: usize = 0;
        while i < m - 1
            invariant
                m == t2@.len(),
                m > 1,
                i <= m - 1,
                t2@ == strip_audio_prefix(trim_slashes(path@)),
                forall|j: int| 0 <= j < i ==> !(#[trigger] t2@[j] == '.' && t2@[j + 1] == '.'),
            decreases m - i,
        {
            if t2.get_char(i) == '.' && t2.get_char(i + 1) == '.' {
                proof {
                    let w = i as int;
                    assert(0 <= w < t2@.len() - 1 && t2@[w] == '.' && t2@[w + 1] == '.');
                    assert(has_dotdot(t2@));
                }
                return None;
            }
            i = i + 1;
        }
    }
    assert(!has_dotdot(t2@));
    if m > 0 && t2.get_char(0) == '/' {
        return None;
    }
    Some(t2.to_owned())
}

} // verus!
