//! Device liveness registry and recording-flag map.
//!
//! The registry maps a device identifier to the moment it was last
//! seen; `touch` is last-write-wins, and `list_active` both returns the
//! devices seen within the liveness window and permanently removes the
//! rest (sweep-on-read: stale entries leave the registry only when
//! somebody lists). The recording map is independent of liveness: a
//! device may carry a flag without ever appearing in the active list.

use vstd::prelude::*;
use crate::timestamp::{Timestamp, iso_format};

verus! {

/// One live device: identifier, when it was last seen (as epoch
/// seconds for arithmetic and as calendar fields for display), and the
/// transport address if the caller knew it.
pub struct DeviceInfo {
    pub device_id: String,
    pub last_seen: u64,
    pub last_seen_ts: Timestamp,
    pub ip_address: Option<String>,
}

/// First index in `s` whose device identifier reads `id`, or -1.
pub open spec fn find_device(s: Seq<DeviceInfo>, id: Seq<char>) -> int
    decreases s.len(),
{
    if s.len() == 0 {
        -1
    } else if s[0].device_id@ == id {
        0
    } else {
        let r = find_device(s.drop_first(), id);
        if r == -1 {
            -1
        } else {
            r + 1
        }
    }
}

/// `find_device` finds exactly the first match: if everything before
/// `i` misses and `i` (when in range) hits, the result is `i`, and a
/// full scan without a hit gives -1.
pub proof fn lemma_find_device(s: Seq<DeviceInfo>, id: Seq<char>, i: int)
    requires
        0 <= i <= s.len(),
        forall|j: int| 0 <= j < i ==> s[j].device_id@ != id,
        i < s.len() ==> s[i].device_id@ == id,
    ensures
        find_device(s, id) == if i == s.len() {
            -1int
        } else {
            i
        },
    decreases s.len(),
{
    if s.len() > 0 {
        if s[0].device_id@ == id {
        } else {
            lemma_find_device(s.drop_first(), id, i - 1);
        }
    }
}

/// A device is active at `now` when it was seen within the window.
pub open spec fn device_active(e: DeviceInfo, now: u64, timeout_seconds: u64) -> bool {
    now <= e.last_seen + timeout_seconds
}

/// One row of the active-devices listing, as plain values.
pub struct ActiveDevice {
    pub device_id: String,
    pub ip: String,
    pub last_seen_iso: String,
    pub seconds_ago: u64,
}

pub open spec fn ip_view(ip: Option<String>) -> Option<Seq<char>> {
    match ip {
        Some(s) => Some(s@),
        None => None,
    }
}

/// What `touch` does to a registry: the record for `id` is replaced
/// in place where `id` was registered, appended where it was not, with
/// the given instant and address, and no other record moves or changes.
pub open spec fn touch_post(
    pre: DeviceRegistry,
    post: DeviceRegistry,
    id: Seq<char>,
    now: u64,
    now_ts: Timestamp,
    ip: Option<Seq<char>>,
) -> bool {
    let idx = find_device(pre.entries@, id);
    if idx >= 0 {
        &&& post.entries@.len() == pre.entries@.len()
        &&& forall|j: int|
            0 <= j < pre.entries@.len() && j != idx ==> post.entries@[j] == #[trigger] pre.entries@[j]
        &&& post.entries@[idx].device_id@ == id
        &&& post.entries@[idx].last_seen == now
        &&& post.entries@[idx].last_seen_ts == now_ts
        &&& ip_view(post.entries@[idx].ip_address) == ip
    } else {
        &&& post.entries@.len() == pre.entries@.len() + 1
        &&& forall|j: int|
            0 <= j < pre.entries@.len() ==> post.entries@[j] == #[trigger] pre.entries@[j]
        &&& post.entries@.last().device_id@ == id
        &&& post.entries@.last().last_seen == now
        &&& post.entries@.last().last_seen_ts == now_ts
        &&& ip_view(post.entries@.last().ip_address) == ip
    }
}

/// The registry of devices, keyed by identifier.
pub struct DeviceRegistry {
    pub entries: Vec<DeviceInfo>,
}

impl DeviceRegistry {
    /// Identifiers are unique and every stored instant is a real one.
    pub open spec fn wf(self) -> bool {
        &&& forall|i: int, j: int|
            0 <= i < j < self.entries@.len() ==> (#[trigger] self.entries@[i]).device_id@
                != (#[trigger] self.entries@[j]).device_id@
        &&& forall|i: int|
            0 <= i < self.entries@.len() ==> (#[trigger] self.entries@[i]).last_seen_ts.wf()
    }

    pub fn new() -> (r: DeviceRegistry)
        ensures
            r.wf(),
            r.entries@.len() == 0,
    {
        DeviceRegistry { entries: Vec::new() }
    }

    /// Insert or overwrite the record for `device_id` with the given
    /// instant and address: last write wins, the whole record is
    /// replaced, and no other record moves or changes.
    pub fn touch(&mut self, device_id: &String, now: u64, now_ts: Timestamp, ip: Option<String>)
        requires
            old(self).wf(),
            now_ts.wf(),
        ensures
            final(self).wf(),
            touch_post(*old(self), *final(self), device_id@, now, now_ts, ip_view(ip)),
    {
        let n = self.entries.len();
        let mut i: usize = 0;
        while i < n
            invariant
                old(self) == self,
                old(self).wf(),
                now_ts.wf(),
                n == self.entries@.len(),
                i <= n,
                forall|j: int| 0 <= j < i ==> self.entries@[j].device_id@ != device_id@,
            decreases n - i,
        {
            if self.entries[i].device_id == *device_id {
                proof {
                    lemma_find_device(self.entries@, device_id@, i as int);
                }
                let rec = DeviceInfo {
                    device_id: device_id.clone(),
                    last_seen: now,
                    last_seen_ts: now_ts,
                    ip_address: ip,
                };
                self.entries.set(i, rec);
                return ;
            }
            i = i + 1;
        }
        proof {
            lemma_find_device(self.entries@, device_id@, n as int);
        }
        let rec = DeviceInfo {
            device_id: device_id.clone(),
            last_seen: now,
            last_seen_ts: now_ts,
            ip_address: ip,
        };
        self.entries.push(rec);
    }

    /// Return the devices seen within `timeout_seconds` of `now` and
    /// remove every other entry for good: after the call the registry
    /// holds exactly its active entries, in their old order, and every
    /// returned row shows how long ago its device was seen.
    pub fn list_active(&mut self, now: u64, timeout_seconds: u64) -> (r: Vec<ActiveDevice>)
        requires
            old(self).wf(),
        ensures
            final(self).wf(),
            final(self).entries@ == old(self).entries@.filter(
                |e: DeviceInfo| device_active(e, now, timeout_seconds),
            ),
            forall|i: int|
                0 <= i < final(self).entries@.len() ==> device_active(
                    #[trigger] final(self).entries@[i],
                    now,
                    timeout_seconds,
                ),
            r@.len() == final(self).entries@.len(),
            forall|i: int|
                0 <= i < r@.len() ==> {
                    let e = final(self).entries@[i];
                    &&& (#[trigger] r@[i]).device_id@ == e.device_id@
                    &&& r@[i].ip@ == match e.ip_address {
                        Some(s) => s@,
                        None => Seq::<char>::empty(),
                    }
                    &&& r@[i].last_seen_iso@ == iso_format(e.last_seen_ts)
                    &&& r@[i].seconds_ago == if now >= e.last_seen {
                        now - e.last_seen
                    } else {
                        0
                    }
                },
    {
        broadcast use vstd::seq_lib::group_filter_ensures;

        let ghost pred = |e: DeviceInfo| device_active(e, now, timeout_seconds);
        let mut kept: Vec<DeviceInfo> = Vec::new();
        let mut rows: Vec<ActiveDevice> = Vec::new();
        let n = self.entries.len();
        let mut i: usize = 0;
        while i < n
            invariant
                old(self) == self,
                old(self).wf(),
                n == self.entries@.len(),
                i <= n,
                pred == (|e: DeviceInfo| device_active(e, now, timeout_seconds)),
                kept@ == self.entries@.take(i as int).filter(pred),
                rows@.len() == kept@.len(),
                forall|k: int|
                    0 <= k < kept@.len() ==> {
                        let e = kept@[k];
                        &&& (#[trigger] rows@[k]).device_id@ == e.device_id@
                        &&& rows@[k].ip@ == match e.ip_address {
                            Some(s) => s@,
                            None => Seq::<char>::empty(),
                        }
                        &&& rows@[k].last_seen_iso@ == iso_format(e.last_seen_ts)
                        &&& rows@[k].seconds_ago == if now >= e.last_seen {
                            now - e.last_seen
                        } else {
                            0
                        }
                    },
            decreases n - i,
        {
            let e = &self.entries[i];
            let active = now <= e.last_seen || now - e.last_seen <= timeout_seconds;
            proof {
                assert(self.entries@.take(i + 1).drop_last() =~= self.entries@.take(i as int));
                assert(self.entries@.take(i + 1).last() == self.entries@[i as int]);
                reveal_with_fuel(Seq::filter, 2);
            }
            if active {
                let seconds_ago: u64 = if now >= e.last_seen {
                    now - e.last_seen
                } else {
                    0
                };
                let ip: String = match &e.ip_address {
                    Some(s) => s.clone(),
                    None => String::new(),
                };
                let row = ActiveDevice {
                    device_id: e.device_id.clone(),
                    ip,
                    last_seen_iso: crate::timestamp::format_iso(&e.last_seen_ts),
                    seconds_ago,
                };
                let e2 = DeviceInfo {
                    device_id: e.device_id.clone(),
                    last_seen: e.last_seen,
                    last_seen_ts: e.last_seen_ts,
                    ip_address: match &e.ip_address {
                        Some(s) => Some(s.clone()),
                        None => None,
                    },
                };
                proof {
                    assert(device_active(e2, now, timeout_seconds));
                }
                kept.push(e2);
                rows.push(row);
                proof {
                    assert(kept@ =~= self.entries@.take(i + 1).filter(pred));
                }
            } else {
                proof {
                    assert(kept@ =~= self.entries@.take(i + 1).filter(pred));
                }
            }
            i = i + 1;
        }
        proof {
            assert(self.entries@.take(n as int) =~= self.entries@);
        }
        self.entries = kept;
        proof {
            lemma_filter_keeps_wf(old(self).entries@, pred);
        }
        rows
    }
}

/// Every element of a filtering is an element of the source.
proof fn lemma_filter_origin<A>(s: Seq<A>, pred: spec_fn(A) -> bool)
    ensures
        forall|k: int| 0 <= k < s.filter(pred).len() ==> s.contains(#[trigger] s.filter(pred)[k]),
    decreases s.len(),
{
    reveal(Seq::filter);
    if s.len() > 0 {
        lemma_filter_origin(s.drop_last(), pred);
        let f = s.filter(pred);
        let fd = s.drop_last().filter(pred);
        assert forall|k: int| 0 <= k < f.len() implies s.contains(#[trigger] f[k]) by {
            if pred(s.last()) && k == f.len() - 1 {
                assert(f[k] == s.last());
                assert(s[s.len() - 1] == f[k]);
            } else {
                assert(f[k] == fd[k]);
                assert(s.drop_last().contains(fd[k]));
                let m = choose|m: int| 0 <= m < s.drop_last().len() && s.drop_last()[m] == fd[k];
                assert(s[m] == f[k]);
            }
        }
    }
}

/// Filtering a registry's entries keeps identifiers unique and every
/// kept instant well formed.
proof fn lemma_filter_keeps_wf(s: Seq<DeviceInfo>, pred: spec_fn(DeviceInfo) -> bool)
    requires
        forall|i: int, j: int|
            0 <= i < j < s.len() ==> (#[trigger] s[i]).device_id@ != (#[trigger] s[j]).device_id@,
        forall|i: int| 0 <= i < s.len() ==> (#[trigger] s[i]).last_seen_ts.wf(),
    ensures
        forall|i: int, j: int|
            0 <= i < j < s.filter(pred).len() ==> (#[trigger] s.filter(pred)[i]).device_id@
                != (#[trigger] s.filter(pred)[j]).device_id@,
        forall|i: int| 0 <= i < s.filter(pred).len() ==> (#[trigger] s.filter(pred)[i]).last_seen_ts.wf(),
    decreases s.len(),
{
    broadcast use vstd::seq_lib::group_filter_ensures;

    reveal(Seq::filter);
    if s.len() > 0 {
        lemma_filter_keeps_wf(s.drop_last(), pred);
        let f = s.filter(pred);
        let fd = s.drop_last().filter(pred);
        if pred(s.last()) {
            assert(f == fd.push(s.last()));
            assert forall|i: int, j: int| 0 <= i < j < f.len() implies (#[trigger] f[i]).device_id@
                != (#[trigger] f[j]).device_id@ by {
                if j < f.len() - 1 {
                } else {
                    // f[i] is an element of the prefix's filtering, so an
                    // element of the prefix, while f[j] is the last element.
                    assert(fd.contains(f[i]));
                    let k = choose|k: int| 0 <= k < fd.len() && fd[k] == f[i];
                    lemma_filter_origin(s.drop_last(), pred);
                    assert(s.drop_last().contains(fd[k]));
                    let m = choose|m: int|
                        0 <= m < s.drop_last().len() && s.drop_last()[m] == fd[k];
                    assert(s[m] == f[i]);
                    assert(s[s.len() - 1] == f[j]);
                    assert(s[m].device_id@ != s[s.len() - 1].device_id@);
                }
            }
        }
    }
}

/// The recording flags, keyed by device identifier; a device that was
/// never flagged reads as not recording.
pub struct RecordingMap {
    pub entries: Vec<(String, bool)>,
}

/// First index in `s` whose key reads `id`, or -1.
pub open spec fn find_flag(s: Seq<(String, bool)>, id: Seq<char>) -> int
    decreases s.len(),
{
    if s.len() == 0 {
        -1
    } else if s[0].0@ == id {
        0
    } else {
        let r = find_flag(s.drop_first(), id);
        if r == -1 {
            -1
        } else {
            r + 1
        }
    }
}

/// The `find_device` lemma, for flag entries.
pub proof fn lemma_find_flag(s: Seq<(String, bool)>, id: Seq<char>, i: int)
    requires
        0 <= i <= s.len(),
        forall|j: int| 0 <= j < i ==> s[j].0@ != id,
        i < s.len() ==> s[i].0@ == id,
    ensures
        find_flag(s, id) == if i == s.len() {
            -1int
        } else {
            i
        },
    decreases s.len(),
{
    if s.len() > 0 {
        if s[0].0@ == id {
        } else {
            lemma_find_flag(s.drop_first(), id, i - 1);
        }
    }
}

impl RecordingMap {
    /// Keys are unique.
    pub open spec fn wf(self) -> bool {
        forall|i: int, j: int|
            0 <= i < j < self.entries@.len() ==> (#[trigger] self.entries@[i]).0@
                != (#[trigger] self.entries@[j]).0@
    }

    /// The flag stored for `id`: absent means not recording.
    pub open spec fn spec_get(self, id: Seq<char>) -> bool {
        let idx = find_flag(self.entries@, id);
        if idx >= 0 {
            self.entries@[idx].1
        } else {
            false
        }
    }

    pub fn new() -> (r: RecordingMap)
        ensures
            r.wf(),
            r.entries@.len() == 0,
    {
        RecordingMap { entries: Vec::new() }
    }

    /// Whether `id` is recording; a device never flagged is not.
    pub fn get_recording(&self, device_id: &String) -> (r: bool)
        requires
            self.wf(),
        ensures
            r == self.spec_get(device_id@),
    {
        let n = self.entries.len();
        let mut i: usize = 0;
        while i < n
            invariant
                n == self.entries@.len(),
                i <= n,
                forall|j: int| 0 <= j < i ==> self.entries@[j].0@ != device_id@,
            decreases n - i,
        {
            if self.entries[i].0 == *device_id {
                proof {
                    lemma_find_flag(self.entries@, device_id@, i as int);
                }
                return self.entries[i].1;
            }
            i = i + 1;
        }
        proof {
            lemma_find_flag(self.entries@, device_id@, n as int);
        }
        false
    }

    /// Set the flag for `id`, inserting it if it was never flagged;
    /// every other flag is untouched.
    pub fn set_recording(&mut self, device_id: &String, recording: bool)
        requires
            old(self).wf(),
        ensures
            final(self).wf(),
            final(self).spec_get(device_id@) == recording,
            forall|other: Seq<char>|
                other != device_id@ ==> #[trigger] final(self).spec_get(other) == old(
                    self,
                ).spec_get(other),
    {
        let n = self.entries.len();
        let mut i: usize = 0;
        while i < n
            invariant
                old(self) == self,
                old(self).wf(),
                n == self.entries@.len(),
                i <= n,
                forall|j: int| 0 <= j < i ==> self.entries@[j].0@ != device_id@,
            decreases n - i,
        {
            if self.entries[i].0 == *device_id {
                proof {
                    lemma_find_flag(self.entries@, device_id@, i as int);
                }
                let key = device_id.clone();
                self.entries.set(i, (key, recording));
                proof {
                    let before = old(self).entries@;
                    let after = self.entries@;
                    assert(after[i as int].0@ == before[i as int].0@);
                    assert forall|a: int, b: int|
                        0 <= a < b < after.len() implies (#[trigger] after[a]).0@
                        != (#[trigger] after[b]).0@ by {
                        assert((#[trigger] before[a]).0@ != (#[trigger] before[b]).0@);
                        if a != i as int {
                            assert(after[a] == before[a]);
                        }
                        if b != i as int {
                            assert(after[b] == before[b]);
                        }
                    }
                    lemma_set_same_keys(before, after, device_id@, i as int);
                    assert(find_flag(after, device_id@) == i as int);
                }
                return ;
            }
            i = i + 1;
        }
        proof {
            lemma_find_flag(self.entries@, device_id@, n as int);
        }
        let key = device_id.clone();
        self.entries.push((key, recording));
        proof {
            let before = old(self).entries@;
            let after = self.entries@;
            assert forall|a: int, b: int|
                0 <= a < b < after.len() implies (#[trigger] after[a]).0@
                != (#[trigger] after[b]).0@ by {
                if b == before.len() as int {
                    assert(after[a] == before[a]);
                    assert(before[a].0@ != device_id@);
                } else {
                    assert(after[a] == before[a]);
                    assert(after[b] == before[b]);
                }
            }
            lemma_push_same_keys(before, after, device_id@);
        }
    }

    /// Every flag, as plain pairs, in stored order.
    pub fn snapshot(&self) -> (r: Vec<(String, bool)>)
        ensures
            r@.len() == self.entries@.len(),
            forall|i: int|
                0 <= i < r@.len() ==> (#[trigger] r@[i]).0@ == self.entries@[i].0@ && r@[i].1
                    == self.entries@[i].1,
    {
        let mut out: Vec<(String, bool)> = Vec::new();
        let n = self.entries.len();
        let mut i: usize = 0;
        while i < n
            invariant
                n == self.entries@.len(),
                i <= n,
                out@.len() == i,
                forall|j: int|
                    0 <= j < i ==> (#[trigger] out@[j]).0@ == self.entries@[j].0@ && out@[j].1
                        == self.entries@[j].1,
            decreases n - i,
        {
            let key = self.entries[i].0.clone();
            let val = self.entries[i].1;
            out.push((key, val));
            i = i + 1;
        }
        out
    }
}

/// Updating one entry in place, key kept, changes no other key's
/// lookup: `find_flag` lands on the same indices as before.
proof fn lemma_set_same_keys(
    before: Seq<(String, bool)>,
    after: Seq<(String, bool)>,
    id: Seq<char>,
    idx: int,
)
    requires
        0 <= idx < before.len(),
        after.len() == before.len(),
        forall|j: int| 0 <= j < before.len() && j != idx ==> after[j] == #[trigger] before[j],
        after[idx].0@ == before[idx].0@,
        forall|i: int, j: int|
            0 <= i < j < before.len() ==> (#[trigger] before[i]).0@ != (#[trigger] before[j]).0@,
    ensures
        forall|other: Seq<char>| #[trigger] find_flag(after, other) == find_flag(before, other),
        forall|other: Seq<char>|
            other != after[idx].0@ && find_flag(after, other) >= 0 ==> after[find_flag(
                after,
                other,
            )].1 == before[find_flag(before, other)].1,
{
    assert forall|j: int| 0 <= j < before.len() implies after[j].0@ == (#[trigger] before[j]).0@ by {
        if j != idx {
            assert(after[j] == before[j]);
        }
    }
    assert forall|other: Seq<char>| #[trigger] find_flag(after, other) == find_flag(
        before,
        other,
    ) by {
        lemma_find_flag_same_keys(before, after, other);
    }
    assert forall|other: Seq<char>|
        other != after[idx].0@ && find_flag(after, other) >= 0 implies after[find_flag(
        after,
        other,
    )].1 == before[find_flag(before, other)].1 by {
        let k = find_flag(after, other);
        lemma_find_flag_hit(after, other);
        if k == idx {
            assert(after[idx].0@ == other);
        }
    }
}

/// Two flag sequences whose keys agree position by position are
/// searched alike.
proof fn lemma_find_flag_same_keys(
    before: Seq<(String, bool)>,
    after: Seq<(String, bool)>,
    id: Seq<char>,
)
    requires
        after.len() == before.len(),
        forall|j: int| 0 <= j < before.len() ==> after[j].0@ == #[trigger] before[j].0@,
    ensures
        find_flag(after, id) == find_flag(before, id),
    decreases before.len(),
{
    if before.len() > 0 {
        lemma_find_flag_same_keys(before.drop_first(), after.drop_first(), id);
    }
}

/// A successful search lands on its key.
proof fn lemma_find_flag_hit(s: Seq<(String, bool)>, id: Seq<char>)
    requires
        find_flag(s, id) >= 0,
    ensures
        find_flag(s, id) < s.len(),
        s[find_flag(s, id)].0@ == id,
    decreases s.len(),
{
    if s.len() > 0 && s[0].0@ != id {
        lemma_find_flag_hit(s.drop_first(), id);
    }
}

/// Appending a fresh key leaves every other key's lookup unchanged.
proof fn lemma_push_same_keys(
    before: Seq<(String, bool)>,
    after: Seq<(String, bool)>,
    id: Seq<char>,
)
    requires
        after.len() == before.len() + 1,
        forall|j: int| 0 <= j < before.len() ==> after[j] == #[trigger] before[j],
        after.last().0@ == id,
        forall|j: int| 0 <= j < before.len() ==> before[j].0@ != id,
    ensures
        find_flag(after, id) == before.len(),
        forall|other: Seq<char>|
            other != id ==> #[trigger] find_flag(after, other) == find_flag(before, other),
        forall|other: Seq<char>|
            other != id && find_flag(after, other) >= 0 ==> after[find_flag(after, other)].1
                == before[find_flag(before, other)].1,
{
    assert forall|j: int| 0 <= j < before.len() implies after[j].0@ != id by {
        assert(after[j] == before[j]);
    }
    lemma_find_flag(after, id, before.len() as int);
    assert forall|other: Seq<char>| other != id implies #[trigger] find_flag(after, other)
        == find_flag(before, other) by {
        lemma_find_flag_extend(before, after, other);
    }
    assert forall|other: Seq<char>|
        other != id && find_flag(after, other) >= 0 implies after[find_flag(after, other)].1
        == before[find_flag(before, other)].1 by {
        lemma_find_flag_hit(after, other);
    }
}

/// Searching for a key other than the appended one ignores the append.
proof fn lemma_find_flag_extend(
    before: Seq<(String, bool)>,
    after: Seq<(String, bool)>,
    id: Seq<char>,
)
    requires
        after.len() == before.len() + 1,
        forall|j: int| 0 <= j < before.len() ==> after[j] == #[trigger] before[j],
        after.last().0@ != id,
    ensures
        find_flag(after, id) == find_flag(before, id),
    decreases before.len(),
{
    if before.len() == 0 {
        reveal_with_fuel(find_flag, 3);
        assert(after[0] == after.last());
        assert(after.drop_first().len() == 0);
    } else {
        assert(after[0] == before[0]);
        assert forall|j: int| 0 <= j < before.drop_first().len() implies
            after.drop_first()[j] == #[trigger] before.drop_first()[j] by {
            assert(after[j + 1] == before[j + 1]);
        }
        assert(after.drop_first().last() == after.last());
        lemma_find_flag_extend(before.drop_first(), after.drop_first(), id);
    }
}

} // verus!
