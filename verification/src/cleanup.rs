//! Audio file retention and cleanup.
//!
//! Recordings are WAV files in the app data directory. Without a retention
//! policy they accumulate forever; this module decides which recordings
//! have expired and sums what a cleanup freed and what the recordings use.
//! Cleanup is opt-in per retention setting (`audio_retention_days`, default
//! 30); a value of `0` disables automatic cleanup entirely.
//!
//! Reading the directory and deleting files happen outside the library.
use vstd::prelude::*;

use crate::text::{ascii_lower_seq, chars_eq, chars_of, slice_vec};

verus! {

/// The file extension treated as a recording.
pub const RECORDING_EXTENSION: &'static str = "wav";

/// Seconds in a day.
pub const SECONDS_PER_DAY: u64 = 24 * 60 * 60;

/// Summary of a cleanup pass.
pub struct CleanupSummary {
    pub deleted_count: usize,
    pub freed_bytes: u64,
    pub retention_days: u64,
}

/// Disk usage of the recordings directory.
pub struct StorageUsage {
    pub file_count: usize,
    pub total_bytes: u64,
    pub recordings_dir: String,
}

// ---------------------------------------------------------------------------
// Recording files
// ---------------------------------------------------------------------------

/// The position of the last `.` in `s`.
pub open spec fn last_dot(s: Seq<char>) -> Option<int>
    decreases s.len(),
{
    if s.len() == 0 {
        None
    } else if s.last() == '.' {
        Some(s.len() - 1)
    } else {
        last_dot(s.drop_last())
    }
}

/// The extension of a file name (std `Path::extension`): what follows the
/// last `.`, unless there is no `.`, the only `.` starts the name, or the
/// name is `..`.
pub open spec fn file_extension(name: Seq<char>) -> Option<Seq<char>> {
    if name == ".."@ {
        None
    } else {
        match last_dot(name) {
            Some(i) => if i == 0 {
                None
            } else {
                Some(name.skip(i + 1))
            },
            None => None,
        }
    }
}

/// A file name whose extension is `wav` in any ASCII case.
pub open spec fn is_recording_name(name: Seq<char>) -> bool {
    file_extension(name) matches Some(ext) && ascii_lower_seq(ext) == RECORDING_EXTENSION@
}

/// The position of the last `.` in `v[..hi]`.
fn find_last_dot(v: &Vec<char>, hi: usize) -> (r: Option<usize>)
    requires
        hi <= v.len(),
    ensures
        match r {
            Some(i) => last_dot(v@.take(hi as int)) == Some(i as int) && i < hi,
            None => last_dot(v@.take(hi as int)) is None,
        },
    decreases hi,
{
    if hi == 0 {
        return None;
    }
    assert(v@.take(hi as int).drop_last() =~= v@.take(hi - 1));
    if v[hi - 1] == '.' {
        Some(hi - 1)
    } else {
        find_last_dot(v, hi - 1)
    }
}

/// The extension of a file name, as std `Path::extension` gives it.
pub fn extension_of(name: &str) -> (r: Option<Vec<char>>)
    ensures
        match r {
            Some(e) => file_extension(name@) == Some(e@),
            None => file_extension(name@) is None,
        },
{
    let v = chars_of(name);
    assert(v@.take(v.len() as int) =~= v@);
    if chars_eq(&v, &chars_of("..")) {
        return None;
    }
    match find_last_dot(&v, v.len()) {
        Some(i) => if i == 0 {
            None
        } else {
            let e = slice_vec(&v, i + 1, v.len());
            assert(e@ =~= v@.skip(i + 1));
            Some(e)
        },
        None => None,
    }
}

/// Whether a file name is a recording: its extension is `wav`, in any ASCII
/// case.
pub fn is_recording_file(file_name: &str) -> (r: bool)
    ensures
        r == is_recording_name(file_name@),
{
    match extension_of(file_name) {
        Some(e) => {
            let mut lower: Vec<char> = Vec::new();
            let mut i: usize = 0;
            while i < e.len()
                invariant
                    0 <= i <= e.len(),
                    lower@ == ascii_lower_seq(e@.take(i as int)),
                decreases e.len() - i,
            {
                lower.push(crate::text::lower_ascii_char(e[i]));
                assert(lower@ =~= ascii_lower_seq(e@.take(i + 1)));
                i += 1;
            }
            assert(e@.take(e.len() as int) =~= e@);
            chars_eq(&lower, &chars_of(RECORDING_EXTENSION))
        },
        None => false,
    }
}

// ---------------------------------------------------------------------------
// Expiry
// ---------------------------------------------------------------------------

/// The retention window in seconds: `days` days, saturating.
pub open spec fn retention_secs(days: u64) -> u64 {
    if days * SECONDS_PER_DAY > u64::MAX {
        u64::MAX
    } else {
        (days * SECONDS_PER_DAY) as u64
    }
}

/// The retention window in seconds for a number of days.
pub fn retention_window_secs(retention_days: u64) -> (r: u64)
    ensures
        r == retention_secs(retention_days),
{
    match retention_days.checked_mul(SECONDS_PER_DAY) {
        Some(secs) => secs,
        None => u64::MAX,
    }
}

/// A directory entry as cleanup sees it: its file name, whether it is a
/// regular file, its size in bytes, and its age as whole seconds and
/// nanoseconds (`None` when its metadata or modification time could not be
/// read).
pub struct RecordingEntry {
    pub file_name: String,
    pub is_file: bool,
    pub size: u64,
    pub age: Option<(u64, u32)>,
}

/// An age is older than a window of whole seconds.
pub open spec fn older_than(age: (u64, u32), window_secs: u64) -> bool {
    age.0 > window_secs || (age.0 == window_secs && age.1 > 0)
}

/// An entry cleanup removes: a recording file whose age could be read and
/// exceeds the retention window. An entry whose metadata could not be read
/// is never treated as old.
pub open spec fn expired(e: RecordingEntry, retention_days: u64) -> bool {
    &&& retention_days != 0
    &&& e.is_file
    &&& is_recording_name(e.file_name@)
    &&& e.age matches Some(a) && older_than(a, retention_secs(retention_days))
}

/// Whether cleanup removes this entry.
pub fn is_expired(entry: &RecordingEntry, retention_days: u64) -> (r: bool)
    ensures
        r == expired(*entry, retention_days),
{
    if retention_days == 0 || !entry.is_file || !is_recording_file(entry.file_name.as_str()) {
        return false;
    }
    let window = retention_window_secs(retention_days);
    match entry.age {
        Some((secs, nanos)) => secs > window || (secs == window && nanos > 0),
        None => false,
    }
}

/// A retention of 0 days disables cleanup: nothing is removed.
pub proof fn zero_retention_removes_nothing(e: RecordingEntry)
    ensures
        !expired(e, 0),
{
}

/// An entry whose age could not be read is never removed, however long the
/// retention.
pub proof fn unreadable_entries_are_kept(e: RecordingEntry, retention_days: u64)
    requires
        e.age is None,
    ensures
        !expired(e, retention_days),
{
}

/// A longer retention never removes an entry a shorter one keeps.
pub proof fn longer_retention_removes_less(e: RecordingEntry, shorter: u64, longer: u64)
    requires
        0 < shorter <= longer,
        expired(e, longer),
    ensures
        expired(e, shorter),
{
    assert(shorter * SECONDS_PER_DAY <= longer * SECONDS_PER_DAY) by (nonlinear_arith)
        requires
            shorter <= longer,
    ;
}

/// The indices of the entries a cleanup pass removes, in order.
pub fn expired_recordings(entries: &Vec<RecordingEntry>, retention_days: u64) -> (r: Vec<usize>)
    ensures
        forall|k: int| 0 <= k < r.len() ==> r@[k] < entries.len() && expired(entries@[r@[k] as int], retention_days),
        forall|a: int, b: int| 0 <= a < b < r.len() ==> r@[a] < r@[b],
        forall|i: int| 0 <= i < entries.len() && expired(#[trigger] entries@[i], retention_days) ==> r@.contains(i as usize),
{
    let mut r: Vec<usize> = Vec::new();
    let mut i: usize = 0;
    while i < entries.len()
        invariant
            0 <= i <= entries.len(),
            forall|k: int| 0 <= k < r.len() ==> r@[k] < i && expired(entries@[r@[k] as int], retention_days),
            forall|a: int, b: int| 0 <= a < b < r.len() ==> r@[a] < r@[b],
            forall|j: int| 0 <= j < i && expired(#[trigger] entries@[j], retention_days) ==> r@.contains(j as usize),
        decreases entries.len() - i,
    {
        if is_expired(&entries[i], retention_days) {
            let ghost before = r@;
            r.push(i);
            assert forall|j: int| 0 <= j < i + 1 && expired(#[trigger] entries@[j], retention_days) implies r@.contains(
                j as usize,
            ) by {
                if j < i {
                    let k = choose|k: int| 0 <= k < before.len() && before[k] == j as usize;
                    assert(r@[k] == j as usize);
                } else {
                    assert(r@[r.len() - 1] == j as usize);
                }
            }
        }
        i += 1;
    }
    r
}

/// The sum of a sequence of sizes.
pub open spec fn total(sizes: Seq<u64>) -> nat
    decreases sizes.len(),
{
    if sizes.len() == 0 {
        0
    } else {
        total(sizes.drop_last()) + sizes.last() as nat
    }
}

/// The summary of a cleanup pass that removed files of the given sizes.
pub fn cleanup_summary(retention_days: u64, freed: &Vec<u64>) -> (r: CleanupSummary)
    requires
        total(freed@) <= u64::MAX,
    ensures
        r.retention_days == retention_days,
        r.deleted_count == freed.len(),
        r.freed_bytes == total(freed@),
{
    let mut bytes: u64 = 0;
    let mut i: usize = 0;
    while i < freed.len()
        invariant
            0 <= i <= freed.len(),
            total(freed@) <= u64::MAX,
            bytes == total(freed@.take(i as int)),
        decreases freed.len() - i,
    {
        assert(freed@.take(i + 1).drop_last() =~= freed@.take(i as int));
        proof {
            lemma_total_prefix(freed@, i + 1);
        }
        bytes = bytes + freed[i];
        i += 1;
    }
    assert(freed@.take(freed.len() as int) =~= freed@);
    CleanupSummary { deleted_count: freed.len(), freed_bytes: bytes, retention_days }
}

/// A prefix sums to no more than the whole.
pub proof fn lemma_total_prefix(sizes: Seq<u64>, n: int)
    requires
        0 <= n <= sizes.len(),
    ensures
        total(sizes.take(n)) <= total(sizes),
    decreases sizes.len(),
{
    if n < sizes.len() {
        assert(sizes.drop_last().take(n) =~= sizes.take(n));
        lemma_total_prefix(sizes.drop_last(), n);
    } else {
        assert(sizes.take(n) =~= sizes);
    }
}

/// A directory entry as the storage report sees it: its file name, whether
/// it is a regular file, and its size (`None` when its metadata could not be
/// read).
pub struct StorageEntry {
    pub file_name: String,
    pub is_file: bool,
    pub size: Option<u64>,
}

/// The sizes of the recording files whose metadata could be read, in order.
pub open spec fn counted_sizes(es: Seq<StorageEntry>) -> Seq<u64>
    decreases es.len(),
{
    if es.len() == 0 {
        Seq::empty()
    } else {
        let prev = counted_sizes(es.drop_last());
        let e = es.last();
        if e.is_file && is_recording_name(e.file_name@) && e.size is Some {
            prev.push(e.size->0)
        } else {
            prev
        }
    }
}

/// The total size and count of the recording files in the directory named
/// `recordings_dir`, given its entries (none when it does not exist).
pub fn storage_usage(entries: &Vec<StorageEntry>, recordings_dir: &str) -> (r: StorageUsage)
    requires
        total(counted_sizes(entries@)) <= u64::MAX,
    ensures
        r.file_count == counted_sizes(entries@).len(),
        r.total_bytes == total(counted_sizes(entries@)),
        r.recordings_dir@ == recordings_dir@,
{
    let ghost cs = counted_sizes(entries@);
    let mut count: usize = 0;
    let mut bytes: u64 = 0;
    let mut i: usize = 0;
    proof {
        lemma_counted_prefix(entries@, entries@.len() as int);
        assert(entries@.take(entries@.len() as int) =~= entries@);
    }
    while i < entries.len()
        invariant
            0 <= i <= entries.len(),
            cs == counted_sizes(entries@),
            total(cs) <= u64::MAX,
            count == counted_sizes(entries@.take(i as int)).len(),
            bytes == total(counted_sizes(entries@.take(i as int))),
            count <= i,
        decreases entries.len() - i,
    {
        let ghost pre = entries@.take(i + 1);
        assert(pre.drop_last() =~= entries@.take(i as int));
        proof {
            lemma_counted_prefix(entries@, i + 1);
            lemma_total_prefix(counted_sizes(entries@.take(i + 1)), counted_sizes(entries@.take(i + 1)).len() as int);
        }
        let e = &entries[i];
        assert(pre.last() == entries@[i as int]);
        let ghost prev = counted_sizes(entries@.take(i as int));
        if e.is_file && is_recording_file(e.file_name.as_str()) {
            if let Some(size) = e.size {
                assert(counted_sizes(pre) == prev.push(size));
                assert(counted_sizes(pre).drop_last() =~= prev);
                assert(total(counted_sizes(pre)) == bytes + size);
                count = count + 1;
                bytes = bytes + size;
            } else {
                assert(counted_sizes(pre) == prev);
            }
        } else {
            assert(counted_sizes(pre) == prev);
        }
        i += 1;
    }
    assert(entries@.take(entries.len() as int) =~= entries@);
    let mut dir = String::new();
    crate::text::push_str(&mut dir, recordings_dir);
    StorageUsage { file_count: count, total_bytes: bytes, recordings_dir: dir }
}

/// The sizes counted for a prefix of the entries sum to no more than those
/// counted for all of them.
proof fn lemma_counted_prefix(es: Seq<StorageEntry>, n: int)
    requires
        0 <= n <= es.len(),
    ensures
        total(counted_sizes(es.take(n))) <= total(counted_sizes(es)),
    decreases es.len(),
{
    if n < es.len() {
        assert(es.drop_last().take(n) =~= es.take(n));
        lemma_counted_prefix(es.drop_last(), n);
        let prev = counted_sizes(es.drop_last());
        if es.last().is_file && is_recording_name(es.last().file_name@) && es.last().size is Some {
            assert(prev.push(es.last().size->0).drop_last() =~= prev);
        }
    } else {
        assert(es.take(n) =~= es);
    }
}

} // verus!
