//! Transcript records and the two read paths over them.
//!
//! A `Transcript` is composed once, when a transcription job completes,
//! and never mutated. `TranscriptLog` is the bounded in-memory recent
//! history: capacity 1000, strict FIFO eviction. `StoredRecord` is the
//! durable side as the listing reads it back: its timestamp is
//! normalized and its display text backfilled per record, and the whole
//! listing is sorted newest first by plain lexicographic comparison of
//! the (normalized) timestamp text.

use vstd::prelude::*;
use vstd::multiset::Multiset;
use crate::codec::AudioQuality;
use crate::timestamp::{Timestamp, compact_format, normalized_timestamp, normalize_timestamp};

verus! {

/// The in-memory log holds at most this many transcripts.
pub const LOG_CAPACITY: usize = 1000;

/// One completed transcription result. `audio_quality` carries the
/// device-supplied metrics as (name, raw numeric text) pairs;
/// `analysis` is what the server computed from the samples itself.
pub struct Transcript {
    pub device_id: String,
    pub timestamp: Timestamp,
    pub text: String,
    pub audio_file: Option<String>,
    pub audio_quality: Vec<(String, String)>,
    pub analysis: AudioQuality,
}

/// The name under which an artifact for `device_id` made at `ts` is
/// stored: `<device_id>_<YYYYMMDD_HHMMSS><ext>`.
pub open spec fn stamped_name(device_id: Seq<char>, ts: Timestamp, ext: Seq<char>) -> Seq<char> {
    device_id + seq!['_'] + compact_format(ts) + ext
}

/// Build a stamped artifact file name.
pub fn stamped_filename(device_id: &String, ts: &Timestamp, ext: &str) -> (r: String)
    requires
        ts.wf(),
    ensures
        r@ == stamped_name(device_id@, *ts, ext@),
{
    let mut s = device_id.clone();
    s.append("_");
    let stamp = crate::timestamp::format_compact(ts);
    s.append(stamp.as_str());
    s.append(ext);
    proof {
        reveal_strlit("_");
        assert("_"@ =~= seq!['_']);
        assert(s@ =~= stamped_name(device_id@, *ts, ext@));
    }
    s
}

/// The bounded in-memory transcript history: at most `LOG_CAPACITY`
/// entries, oldest evicted first.
pub struct TranscriptLog {
    pub entries: Vec<Transcript>,
}

impl TranscriptLog {
    pub open spec fn wf(self) -> bool {
        self.entries@.len() <= LOG_CAPACITY
    }

    pub fn new() -> (r: TranscriptLog)
        ensures
            r.wf(),
            r.entries@.len() == 0,
    {
        TranscriptLog { entries: Vec::new() }
    }

    /// Append a transcript. While the log is under capacity this is a
    /// plain append; at capacity the oldest entry — and exactly that
    /// one — leaves to make room.
    pub fn append(&mut self, t: Transcript)
        requires
            old(self).wf(),
        ensures
            final(self).wf(),
            final(self).entries@ == if old(self).entries@.len() < LOG_CAPACITY {
                old(self).entries@.push(t)
            } else {
                old(self).entries@.push(t).drop_first()
            },
            final(self).entries@.len() == if old(self).entries@.len() < LOG_CAPACITY {
                old(self).entries@.len() + 1
            } else {
                LOG_CAPACITY as nat
            },
    {
        self.entries.push(t);
        if self.entries.len() > LOG_CAPACITY {
            self.entries.remove(0);
            proof {
                assert(final(self).entries@ =~= old(self).entries@.push(t).drop_first());
            }
        }
    }
}

/// A durable record as read back for listing: only the fields the
/// normalization and ordering read, plus the caller's handle to the
/// rest of the record.
pub struct StoredRecord {
    pub timestamp: Option<String>,
    pub text: Option<String>,
    pub transcript: Option<String>,
    pub payload: usize,
}

/// The key records are ordered by: the timestamp text, or the empty
/// text where a record carries none.
pub open spec fn rec_key(r: StoredRecord) -> Seq<char> {
    match r.timestamp {
        Some(t) => t@,
        None => Seq::empty(),
    }
}

/// Normalize one record at the read boundary: rewrite a legacy compact
/// timestamp to the canonical form (leaving any other timestamp text
/// alone), and give a record that lacks the display text field a copy
/// of the engine text field. Nothing else changes.
pub fn normalize_record(rec: &StoredRecord) -> (r: StoredRecord)
    ensures
        r.payload == rec.payload,
        match rec.timestamp {
            Some(t) => r.timestamp is Some && r.timestamp->0@ == normalized_timestamp(t@),
            None => r.timestamp is None,
        },
        match rec.text {
            Some(t) => r.text is Some && r.text->0@ == t@,
            None => r.text is None,
        },
        match rec.transcript {
            Some(t) => r.transcript is Some && r.transcript->0@ == t@,
            None => match rec.text {
                Some(t) => r.transcript is Some && r.transcript->0@ == t@,
                None => r.transcript is None,
            },
        },
{
    let timestamp: Option<String> = match &rec.timestamp {
        Some(t) => Some(normalize_timestamp(t.as_str())),
        None => None,
    };
    let text: Option<String> = match &rec.text {
        Some(t) => Some(t.clone()),
        None => None,
    };
    let transcript: Option<String> = match &rec.transcript {
        Some(t) => Some(t.clone()),
        None => match &rec.text {
            Some(t) => Some(t.clone()),
            None => None,
        },
    };
    StoredRecord { timestamp, text, transcript, payload: rec.payload }
}

/// Lexicographic order on character sequences (by scalar value), the
/// order plain text comparison gives.
pub open spec fn lex_le(a: Seq<char>, b: Seq<char>) -> bool
    decreases a.len(),
{
    if a.len() == 0 {
        true
    } else if b.len() == 0 {
        false
    } else if (a[0] as u32) < (b[0] as u32) {
        true
    } else if (a[0] as u32) > (b[0] as u32) {
        false
    } else {
        lex_le(a.drop_first(), b.drop_first())
    }
}

/// The order is total: of any two texts, one is less-or-equal the other.
pub proof fn lemma_lex_total(a: Seq<char>, b: Seq<char>)
    ensures
        lex_le(a, b) || lex_le(b, a),
    decreases a.len(),
{
    if a.len() > 0 && b.len() > 0 && (a[0] as u32) == (b[0] as u32) {
        lemma_lex_total(a.drop_first(), b.drop_first());
    }
}

/// Compare two texts lexicographically.
pub fn str_lex_le(a: &str, b: &str) -> (r: bool)
    ensures
        r == lex_le(a@, b@),
{
    let na = a.unicode_len();
    let nb = b.unicode_len();
    let mut i: usize = 0;
    proof {
        assert(a@.skip(0) =~= a@);
        assert(b@.skip(0) =~= b@);
    }
    while i < na && i < nb
        invariant
            na == a@.len(),
            nb == b@.len(),
            i <= na,
            i <= nb,
            lex_le(a@, b@) == lex_le(a@.skip(i as int), b@.skip(i as int)),
        decreases na - i,
    {
        let ca = a.get_char(i);
        let cb = b.get_char(i);
        proof {
            assert(a@.skip(i as int)[0] == a@[i as int]);
            assert(b@.skip(i as int)[0] == b@[i as int]);
            assert(a@.skip(i as int).drop_first() =~= a@.skip(i + 1));
            assert(b@.skip(i as int).drop_first() =~= b@.skip(i + 1));
        }
        if (ca as u32) < (cb as u32) {
            return true;
        }
        if (ca as u32) > (cb as u32) {
            return false;
        }
        i = i + 1;
    }
    proof {
        if i >= na {
            assert(a@.skip(i as int).len() == 0);
        } else {
            assert(b@.skip(i as int).len() == 0);
            assert(a@.skip(i as int).len() > 0);
        }
    }
    i >= na
}

/// Adjacent-pair form of "sorted newest first": each record's key is
/// at least the next one's.
pub open spec fn sorted_desc(s: Seq<StoredRecord>) -> bool {
    forall|k: int| 0 <= k < s.len() - 1 ==> lex_le(rec_key(s[k + 1]), #[trigger] rec_key(s[k]))
}

fn key_str(r: &StoredRecord) -> (k: &str)
    ensures
        k@ == rec_key(*r),
{
    match &r.timestamp {
        Some(t) => t.as_str(),
        None => {
            proof {
                reveal_strlit("");
                assert(""@ =~= Seq::<char>::empty());
            }
            ""
        },
    }
}

fn find_insert_pos(out: &Vec<StoredRecord>, x: &StoredRecord) -> (p: usize)
    ensures
        p <= out@.len(),
        forall|j: int| 0 <= j < p ==> !lex_le(rec_key(#[trigger] out@[j]), rec_key(*x)),
        p < out@.len() ==> lex_le(rec_key(out@[p as int]), rec_key(*x)),
{
    let n = out.len();
    let mut p: usize = 0;
    while p < n
        invariant
            n == out@.len(),
            p <= n,
            forall|j: int| 0 <= j < p ==> !lex_le(rec_key(#[trigger] out@[j]), rec_key(*x)),
        decreases n - p,
    {
        if str_lex_le(key_str(&out[p]), key_str(x)) {
            return p;
        }
        p = p + 1;
    }
    p
}

/// Sort records newest first by their (normalized) timestamp text:
/// the result is the same records — the same multiset — in an order
/// where each key is at least the next.
pub fn sort_records_desc(records: Vec<StoredRecord>) -> (r: Vec<StoredRecord>)
    ensures
        sorted_desc(r@),
        r@.to_multiset() == records@.to_multiset(),
        r@.len() == records@.len(),
{
    broadcast use vstd::seq_lib::group_to_multiset_ensures;

    let mut rest = records;
    let mut out: Vec<StoredRecord> = Vec::new();
    while rest.len() > 0
        invariant
            sorted_desc(out@),
            out@.to_multiset().add(rest@.to_multiset()) == records@.to_multiset(),
            out@.len() + rest@.len() == records@.len(),
        decreases rest@.len(),
    {
        broadcast use vstd::seq_lib::group_to_multiset_ensures;

        let ghost rest_before = rest@;
        let x = rest.pop().unwrap();
        proof {
            assert(rest_before =~= rest@.push(x));
        }
        let p = find_insert_pos(&out, &x);
        let ghost out_before = out@;
        out.insert(p, x);
        proof {
            assert forall|k: int| 0 <= k < out@.len() - 1 implies lex_le(
                rec_key(out@[k + 1]),
                #[trigger] rec_key(out@[k]),
            ) by {
                if k + 1 < p {
                    assert(out@[k] == out_before[k]);
                    assert(out@[k + 1] == out_before[k + 1]);
                } else if k + 1 == p {
                    assert(out@[k] == out_before[k]);
                    assert(out@[k + 1] == x);
                    assert(!lex_le(rec_key(out_before[k]), rec_key(x)));
                    lemma_lex_total(rec_key(out_before[k]), rec_key(x));
                } else if k == p {
                    assert(out@[k] == x);
                    assert(out@[k + 1] == out_before[k]);
                } else {
                    assert(out@[k] == out_before[k - 1]);
                    assert(out@[k + 1] == out_before[k]);
                }
            }
        }
    }
    proof {
        assert(rest@ =~= Seq::<StoredRecord>::empty());
        assert(rest@.to_multiset() =~= Multiset::<StoredRecord>::empty());
        assert(out@.to_multiset() =~= records@.to_multiset());
    }
    out
}

} // verus!
