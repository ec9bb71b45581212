//! Audio recording: the bounded in-memory sample buffer, recording file
//! names, input-device identifiers and matching, and the decisions taken
//! when a recording stops.
//!
//! Capturing from devices (cpal), mixing the float samples and writing WAV
//! files happen outside the library; this module holds the logic they run.
use vstd::prelude::*;

use crate::export::{chrono_utc_format, format_utc, utc_timestamp_in_range, RECORDING_STAMP_FORMAT};

use std::collections::VecDeque;

use crate::assoc::{
    distinct_keys, entries_view, find_entry, lemma_absent_key, lemma_find_entry_bounds, lookup, lookup_after_store,
    position, stored,
};
use crate::llm::string_views;
use crate::text::{
    decimal, has_substring, hex_digit, hex_fixed, push_decimal, push_hex_fixed, push_str, str_contains, str_eq,
    str_lowercase, to_lowercase,
};

verus! {

/// Maximum recording duration retained in memory before the oldest samples
/// are dropped.
pub const MAX_RECORDING_DURATION_SECS: u64 = 2 * 60 * 60;

/// The sample cap for a recording at `sample_rate`.
pub fn max_samples_for(sample_rate: u32) -> (r: usize)
    requires
        MAX_RECORDING_DURATION_SECS * sample_rate <= usize::MAX,
    ensures
        r == MAX_RECORDING_DURATION_SECS * sample_rate,
{
    assert(MAX_RECORDING_DURATION_SECS * sample_rate <= 7200 * 0xffff_ffffu64) by (nonlinear_arith)
        requires
            sample_rate <= 0xffff_ffffu32,
            MAX_RECORDING_DURATION_SECS == 7200,
    ;
    (MAX_RECORDING_DURATION_SECS * (sample_rate as u64)) as usize
}

// ---------------------------------------------------------------------------
// Recording file names
// ---------------------------------------------------------------------------

/// The file name of the `attempt`-th candidate for a recording stopped at
/// `timestamp`: `recording_{timestamp}.wav` first, then
/// `recording_{timestamp}_{attempt}.wav`.
pub open spec fn recording_name(timestamp: Seq<char>, attempt: nat) -> Seq<char> {
    if attempt == 0 {
        "recording_"@ + timestamp + ".wav"@
    } else {
        "recording_"@ + timestamp + "_"@ + decimal(attempt) + ".wav"@
    }
}

/// The stamp of a recording stopped at the UTC instant `secs` seconds after
/// the Unix epoch, as chrono formats it with `%Y%m%d_%H%M%S`.
pub fn recording_stamp(secs: i64) -> (r: String)
    requires
        utc_timestamp_in_range(secs as int),
    ensures
        r@ == chrono_utc_format(secs as int, RECORDING_STAMP_FORMAT@),
{
    format_utc(secs, RECORDING_STAMP_FORMAT)
}

/// The file name of a recording candidate; a caller tries attempts 0, 1,
/// 2, ... until a name is free, so two recordings stopped within the same
/// second never share a file.
pub fn recording_file_name(timestamp: &str, attempt: u32) -> (r: String)
    ensures
        r@ == recording_name(timestamp@, attempt as nat),
{
    let mut name = String::new();
    push_str(&mut name, "recording_");
    push_str(&mut name, timestamp);
    if attempt > 0 {
        push_str(&mut name, "_");
        push_decimal(&mut name, attempt as u64);
    }
    push_str(&mut name, ".wav");
    name
}

/// Different attempts give different file names.
pub proof fn recording_names_differ(timestamp: Seq<char>, a: nat, b: nat)
    requires
        a != b,
    ensures
        recording_name(timestamp, a) != recording_name(timestamp, b),
{
    let p = "recording_"@ + timestamp;
    let ra = recording_name(timestamp, a);
    let rb = recording_name(timestamp, b);
    reveal_strlit("recording_");
    reveal_strlit("_");
    reveal_strlit(".wav");
    if ra == rb {
        if a == 0 || b == 0 {
            // one name is the prefix and ".wav"; the other continues with '_'
            let n = if a == 0 { b } else { a };
            let long = p + "_"@ + decimal(n) + ".wav"@;
            let short = p + ".wav"@;
            assert(long[p.len() as int] == '_');
            assert(short[p.len() as int] == '.');
        } else {
            let da = decimal(a);
            let db = decimal(b);
            let ha = p + "_"@;
            assert(ra =~= ha + da + ".wav"@);
            assert(rb =~= ha + db + ".wav"@);
            assert(ra.subrange(ha.len() as int, ra.len() - 4) =~= da);
            assert(rb.subrange(ha.len() as int, rb.len() - 4) =~= db);
            lemma_decimal_injective(a, b);
        }
    }
}

/// The decimal representation of `n` has at least two digits when `n >= 10`.
pub proof fn lemma_decimal_len(n: nat)
    ensures
        decimal(n).len() >= 1,
        n >= 10 ==> decimal(n).len() >= 2,
    decreases n,
{
    if n >= 10 {
        lemma_decimal_len(n / 10);
    }
}

/// Decimal digits are characters `'0'..'9'`, one per value.
proof fn lemma_digit_injective(a: nat, b: nat)
    requires
        a < 10,
        b < 10,
        crate::text::hex_digit(a) == crate::text::hex_digit(b),
    ensures
        a == b,
{
}

/// Different numbers have different decimal representations.
pub proof fn lemma_decimal_injective(a: nat, b: nat)
    requires
        decimal(a) == decimal(b),
    ensures
        a == b,
    decreases a,
{
    lemma_decimal_len(a);
    lemma_decimal_len(b);
    if a < 10 && b < 10 {
        assert(decimal(a) =~= seq![crate::text::hex_digit(a)]);
        assert(decimal(b) =~= seq![crate::text::hex_digit(b)]);
        assert(decimal(a)[0] == decimal(b)[0]);
        assert(crate::text::hex_digit(a) == decimal(a)[0]);
        assert(crate::text::hex_digit(b) == decimal(b)[0]);
        lemma_digit_injective(a, b);
    } else if a >= 10 && b >= 10 {
        let da = decimal(a);
        let db = decimal(b);
        assert(da.last() == db.last());
        assert(da.drop_last() =~= decimal(a / 10));
        assert(db.drop_last() =~= decimal(b / 10));
        lemma_digit_injective(a % 10, b % 10);
        lemma_decimal_injective(a / 10, b / 10);
    } else {
        assert(decimal(a).len() != decimal(b).len());
    }
}

// ---------------------------------------------------------------------------
// The bounded sample buffer
// ---------------------------------------------------------------------------

/// The last `max` items of `s` (all of them when there are at most `max`).
pub open spec fn keep_last<T>(s: Seq<T>, max: nat) -> Seq<T> {
    if s.len() <= max {
        s
    } else {
        s.skip(s.len() - max)
    }
}

/// A circular buffer of samples: once it holds `max_samples`, each new
/// sample drops the oldest one and marks the buffer truncated, so very long
/// recordings degrade gracefully instead of exhausting memory.
pub struct SampleBuffer<T> {
    samples: VecDeque<T>,
    max_samples: usize,
    truncated: bool,
}

impl<T> SampleBuffer<T> {
    /// The samples held, oldest first.
    pub closed spec fn view(&self) -> Seq<T> {
        self.samples@
    }

    /// The sample cap.
    pub closed spec fn capacity(&self) -> nat {
        self.max_samples as nat
    }

    /// Whether a sample has ever been dropped.
    pub closed spec fn was_truncated(&self) -> bool {
        self.truncated
    }

    /// The buffer never holds more than its cap.
    #[verifier::type_invariant]
    closed spec fn within_cap(&self) -> bool {
        self.samples@.len() <= self.max_samples
    }

    /// An empty buffer capped at `max_samples`.
    pub fn new(max_samples: usize) -> (b: Self)
        ensures
            b.view() == Seq::<T>::empty(),
            b.capacity() == max_samples,
            !b.was_truncated(),
    {
        SampleBuffer { samples: VecDeque::new(), max_samples, truncated: false }
    }

    /// The number of samples held.
    pub fn len(&self) -> (n: usize)
        ensures
            n == self.view().len(),
    {
        self.samples.len()
    }

    /// Whether a sample has ever been dropped.
    pub fn is_truncated(&self) -> (t: bool)
        ensures
            t == self.was_truncated(),
    {
        self.truncated
    }

    /// Append a sample; when that exceeds the cap, drop the oldest sample
    /// and mark the buffer truncated.
    pub fn push(&mut self, sample: T)
        ensures
            final(self).view() == keep_last(old(self).view().push(sample), old(self).capacity()),
            final(self).capacity() == old(self).capacity(),
            final(self).was_truncated() == (old(self).was_truncated() || old(self).view().len() + 1 > old(self).capacity()),
    {
        proof {
            use_type_invariant(&*self);
        }
        let mut samples: VecDeque<T> = VecDeque::new();
        std::mem::swap(&mut samples, &mut self.samples);
        let ghost before = samples@;
        samples.push_back(sample);
        if samples.len() > self.max_samples {
            samples.pop_front();
            self.truncated = true;
            assert(samples@ =~= before.push(sample).skip(1));
        }
        self.samples = samples;
    }
}

impl<T: Copy> SampleBuffer<T> {
    /// Append samples in order, each as [`SampleBuffer::push`] does.
    pub fn push_all(&mut self, samples: &[T])
        ensures
            final(self).view() == keep_last(old(self).view() + samples@, old(self).capacity()),
            final(self).capacity() == old(self).capacity(),
            final(self).was_truncated() == (old(self).was_truncated() || old(self).view().len() + samples@.len()
                > old(self).capacity()),
    {
        let ghost start = self.view();
        let mut i: usize = 0;
        proof {
            use_type_invariant(&*self);
            assert(start + samples@.take(0) =~= start);
        }
        while i < samples.len()
            invariant
                0 <= i <= samples@.len(),
                start.len() <= self.capacity(),
                self.view() == keep_last(start + samples@.take(i as int), self.capacity()),
                self.capacity() == old(self).capacity(),
                start == old(self).view(),
                self.was_truncated() == (old(self).was_truncated() || start.len() + i > self.capacity()),
            decreases samples@.len() - i,
        {
            let ghost prev = start + samples@.take(i as int);
            self.push(samples[i]);
            proof {
                keep_last_push(prev, samples@[i as int], self.capacity());
                assert(prev.push(samples@[i as int]) =~= start + samples@.take(i + 1));
            }
            i += 1;
        }
        assert(samples@.take(samples@.len() as int) =~= samples@);
    }

    /// The samples held, oldest first.
    pub fn to_vec(&self) -> (v: Vec<T>)
        ensures
            v@ == self.view(),
    {
        let mut v: Vec<T> = Vec::new();
        let mut i: usize = 0;
        while i < self.samples.len()
            invariant
                0 <= i <= self.samples@.len(),
                v@ == self.samples@.take(i as int),
            decreases self.samples@.len() - i,
        {
            v.push(self.samples[i]);
            assert(v@ =~= self.samples@.take(i + 1));
            i += 1;
        }
        assert(self.samples@.take(self.samples@.len() as int) =~= self.samples@);
        v
    }
}

/// Pushing onto what a bounded buffer kept keeps the same samples as
/// keeping the latest of everything pushed: samples arriving in pieces end
/// up as if they had arrived at once.
pub proof fn keep_last_push<T>(s: Seq<T>, x: T, max: nat)
    ensures
        keep_last(keep_last(s, max).push(x), max) == keep_last(s.push(x), max),
{
    let k = keep_last(s, max);
    assert(keep_last(k.push(x), max) =~= keep_last(s.push(x), max));
}

/// A bounded buffer never holds more than its cap, and holds every sample
/// while fewer than the cap have arrived.
pub proof fn keep_last_len<T>(s: Seq<T>, max: nat)
    ensures
        keep_last(s, max).len() == if s.len() <= max { s.len() } else { max },
        s.len() <= max ==> keep_last(s, max) == s,
{
}

// ---------------------------------------------------------------------------
// Device identifiers
// ---------------------------------------------------------------------------

/// The digest std's `DefaultHasher` computes for a device name.
pub uninterp spec fn default_hasher_digest(name: Seq<char>) -> u64;

/// Hashes the name with std's `DefaultHasher::new()` (`str::hash`, then
/// `finish`). The contract claims only that the digest is the named result
/// `default_hasher_digest(name)`: `DefaultHasher::new` starts from fixed
/// keys, so equal names give equal digests; std leaves the algorithm itself
/// unspecified.
#[verifier::external_body]
fn stable_device_name_hash(name: &str) -> (r: u64)
    ensures
        r == default_hasher_digest(name@),
{
    let mut hasher = std::collections::hash_map::DefaultHasher::new();
    std::hash::Hash::hash(name, &mut hasher);
    std::hash::Hasher::finish(&hasher)
}

/// The identifier of the `occurrence`-th input device (from 0) whose name
/// has digest `hash`: `coreaudio-input:{hash:016x}:{occurrence}`.
pub open spec fn device_id_text(hash: nat, occurrence: nat) -> Seq<char> {
    "coreaudio-input:"@ + hex_fixed(hash, 16) + ":"@ + decimal(occurrence)
}

/// The identifier for a device-name digest and occurrence number.
pub fn audio_device_id_from_hash(hash: u64, occurrence: usize) -> (r: String)
    ensures
        r@ == device_id_text(hash as nat, occurrence as nat),
{
    let mut id = String::new();
    push_str(&mut id, "coreaudio-input:");
    push_hex_fixed(&mut id, hash, 16);
    push_str(&mut id, ":");
    push_decimal(&mut id, occurrence as u64);
    id
}

/// A deterministic identifier for an input device, from its name and the
/// number of devices of the same name listed before it.
pub fn make_audio_device_id(name: &str, occurrence: usize) -> (r: String)
    ensures
        r@ == device_id_text(default_hasher_digest(name@) as nat, occurrence as nat),
{
    audio_device_id_from_hash(stable_device_name_hash(name), occurrence)
}

/// `16^w`, the number of values `w` hexadecimal digits tell apart.
pub open spec fn hex_range(w: nat) -> nat
    decreases w,
{
    if w == 0 {
        1
    } else {
        16 * hex_range((w - 1) as nat)
    }
}

/// `w` hexadecimal digits are `w` characters.
pub proof fn lemma_hex_fixed_len(n: nat, w: nat)
    ensures
        hex_fixed(n, w).len() == w,
    decreases w,
{
    if w > 0 {
        lemma_hex_fixed_len(n / 16, (w - 1) as nat);
    }
}

/// Hexadecimal digits are characters, one per value below 16.
proof fn lemma_hex_digit_injective(a: nat, b: nat)
    requires
        a < 16,
        b < 16,
        hex_digit(a) == hex_digit(b),
    ensures
        a == b,
{
}

/// Numbers below `16^w` have different `w`-digit hexadecimal forms.
pub proof fn lemma_hex_fixed_injective(a: nat, b: nat, w: nat)
    requires
        a < hex_range(w),
        b < hex_range(w),
        hex_fixed(a, w) == hex_fixed(b, w),
    ensures
        a == b,
    decreases w,
{
    if w > 0 {
        let r = hex_range((w - 1) as nat);
        let ha = hex_fixed(a, w);
        let hb = hex_fixed(b, w);
        assert(ha.last() == hex_digit(a % 16));
        assert(hb.last() == hex_digit(b % 16));
        lemma_hex_digit_injective(a % 16, b % 16);
        assert(ha.drop_last() =~= hex_fixed(a / 16, (w - 1) as nat));
        assert(hb.drop_last() =~= hex_fixed(b / 16, (w - 1) as nat));
        assert(a / 16 < r && b / 16 < r) by (nonlinear_arith)
            requires
                a < 16 * r,
                b < 16 * r,
        ;
        lemma_hex_fixed_injective(a / 16, b / 16, (w - 1) as nat);
        assert(a == 16 * (a / 16) + a % 16);
        assert(b == 16 * (b / 16) + b % 16);
    }
}

/// Every `u64` fits in sixteen hexadecimal digits.
pub proof fn lemma_u64_hex_range()
    ensures
        hex_range(16) == 0x1_0000_0000_0000_0000,
{
    reveal_with_fuel(hex_range, 17);
}

/// Identifiers are equal only for equal digests and equal occurrence
/// numbers: devices of the same name get different identifiers, and an
/// identifier names one digest and one occurrence.
pub proof fn device_ids_identify(h1: u64, o1: nat, h2: u64, o2: nat)
    requires
        device_id_text(h1 as nat, o1) == device_id_text(h2 as nat, o2),
    ensures
        h1 == h2,
        o1 == o2,
{
    let a = device_id_text(h1 as nat, o1);
    let b = device_id_text(h2 as nat, o2);
    let p = "coreaudio-input:"@;
    reveal_strlit("coreaudio-input:");
    reveal_strlit(":");
    lemma_hex_fixed_len(h1 as nat, 16);
    lemma_hex_fixed_len(h2 as nat, 16);
    assert(a.subrange(16, 32) =~= hex_fixed(h1 as nat, 16));
    assert(b.subrange(16, 32) =~= hex_fixed(h2 as nat, 16));
    lemma_u64_hex_range();
    lemma_hex_fixed_injective(h1 as nat, h2 as nat, 16);
    assert(a.skip(33) =~= decimal(o1));
    assert(b.skip(33) =~= decimal(o2));
    lemma_decimal_injective(o1, o2);
}

// ---------------------------------------------------------------------------
// Counting devices by name
// ---------------------------------------------------------------------------

/// How many devices of each name have been numbered so far.
pub struct DeviceNameCounts {
    counts: Vec<(String, usize)>,
}

/// The count recorded for `name`; 0 when none is.
pub open spec fn count_of(es: Seq<(Seq<char>, usize)>, name: Seq<char>) -> nat {
    match lookup(es, name) {
        Some(c) => c as nat,
        None => 0,
    }
}

impl DeviceNameCounts {
    /// The names seen and their counts, first seen first.
    pub closed spec fn view(&self) -> Seq<(Seq<char>, usize)> {
        entries_view(self.counts@)
    }

    /// No name is counted twice.
    #[verifier::type_invariant]
    closed spec fn names_distinct(&self) -> bool {
        distinct_keys(entries_view(self.counts@))
    }

    /// No names counted yet.
    pub fn new() -> (c: Self)
        ensures
            c.view() == Seq::<(Seq<char>, usize)>::empty(),
    {
        let c = DeviceNameCounts { counts: Vec::new() };
        assert(c.view() =~= Seq::<(Seq<char>, usize)>::empty());
        c
    }
}

/// The occurrence number of the next device called `name` (its count so
/// far), counting it.
pub fn next_device_occurrence(name_counts: &mut DeviceNameCounts, name: &str) -> (r: usize)
    requires
        count_of(old(name_counts).view(), name@) < usize::MAX,
    ensures
        r == count_of(old(name_counts).view(), name@),
        final(name_counts).view() == stored(old(name_counts).view(), name@, (r + 1) as usize),
{
    proof {
        use_type_invariant(&*name_counts);
        lemma_find_entry_bounds(name_counts.view(), name@);
    }
    let ghost before = name_counts.view();
    let mut key = String::new();
    push_str(&mut key, name);
    let mut counts: Vec<(String, usize)> = Vec::new();
    std::mem::swap(&mut counts, &mut name_counts.counts);
    let occurrence = match position(&counts, name) {
        Some(i) => {
            let c = counts[i].1;
            proof {
                lookup_after_store(before, name@, (c + 1) as usize, name@);
                assert(entries_view(counts@.update(i as int, (key, (c + 1) as usize))) =~= stored(
                    before,
                    name@,
                    (c + 1) as usize,
                ));
            }
            counts.set(i, (key, c + 1));
            c
        },
        None => {
            proof {
                lemma_absent_key(before, name@);
                lookup_after_store(before, name@, 1usize, name@);
                assert(entries_view(counts@.push((key, 1usize))) =~= stored(before, name@, 1usize));
            }
            counts.push((key, 1));
            0
        },
    };
    name_counts.counts = counts;
    occurrence
}

/// Numbering a device changes the count of its name only, by one.
pub proof fn occurrence_counts_step(es: Seq<(Seq<char>, usize)>, name: Seq<char>, other: Seq<char>)
    requires
        distinct_keys(es),
        count_of(es, name) < usize::MAX,
    ensures
        count_of(stored(es, name, (count_of(es, name) + 1) as usize), other) == if other == name {
            count_of(es, name) + 1
        } else {
            count_of(es, other)
        },
{
    lookup_after_store(es, name, (count_of(es, name) + 1) as usize, other);
}

/// How often `x` occurs in `s`.
pub open spec fn occurrences(s: Seq<Seq<char>>, x: Seq<char>) -> nat
    decreases s.len(),
{
    if s.len() == 0 {
        0
    } else {
        occurrences(s.drop_last(), x) + if s.last() == x { 1nat } else { 0nat }
    }
}

/// The identifiers of devices listed under `names`, in order: each device is
/// numbered by how many devices of the same name come before it.
pub open spec fn assigned_ids(names: Seq<Seq<char>>) -> Seq<Seq<char>> {
    Seq::new(
        names.len(),
        |i: int| device_id_text(default_hasher_digest(names[i]) as nat, occurrences(names.take(i), names[i])),
    )
}

/// A name occurs at most as often as the sequence is long.
pub proof fn lemma_occurrences_bound(s: Seq<Seq<char>>, x: Seq<char>)
    ensures
        occurrences(s, x) <= s.len(),
    decreases s.len(),
{
    if s.len() > 0 {
        lemma_occurrences_bound(s.drop_last(), x);
    }
}

/// Longer prefixes hold at least as many occurrences, and one more for each
/// further copy of `x`.
pub proof fn lemma_occurrences_grow(s: Seq<Seq<char>>, x: Seq<char>, i: int, j: int)
    requires
        0 <= i < j <= s.len(),
        s[i] == x,
    ensures
        occurrences(s.take(j), x) >= occurrences(s.take(i), x) + 1,
    decreases j - i,
{
    if j == i + 1 {
        assert(s.take(j).drop_last() =~= s.take(i));
    } else {
        lemma_occurrences_grow(s, x, i, j - 1);
        assert(s.take(j).drop_last() =~= s.take(j - 1));
    }
}

/// Devices of the same name get different identifiers.
pub proof fn assigned_ids_distinct_for_same_name(names: Seq<Seq<char>>, i: int, j: int)
    requires
        0 <= i < j < names.len(),
        names[i] == names[j],
    ensures
        assigned_ids(names)[i] != assigned_ids(names)[j],
{
    lemma_occurrences_grow(names, names[i], i, j);
    let h = default_hasher_digest(names[i]);
    if assigned_ids(names)[i] == assigned_ids(names)[j] {
        device_ids_identify(h, occurrences(names.take(i), names[i]), h, occurrences(names.take(j), names[j]));
    }
}

/// The identifiers of devices listed under `names`, in order.
pub fn assign_device_ids(names: &Vec<String>) -> (ids: Vec<String>)
    requires
        names.len() < usize::MAX,
    ensures
        ids.len() == names.len(),
        string_views(ids@) == assigned_ids(string_views(names@)),
{
    let ghost ns = string_views(names@);
    let mut counts = DeviceNameCounts::new();
    let mut ids: Vec<String> = Vec::new();
    let mut i: usize = 0;
    while i < names.len()
        invariant
            0 <= i <= names.len() < usize::MAX,
            ns == string_views(names@),
            forall|x: Seq<char>| #[trigger] count_of(counts.view(), x) == occurrences(ns.take(i as int), x),
            string_views(ids@) == assigned_ids(ns).take(i as int),
        decreases names.len() - i,
    {
        let ghost before = counts.view();
        let ghost x = ns[i as int];
        proof {
            use_type_invariant(&counts);
            lemma_occurrences_bound(ns.take(i as int), x);
            assert(count_of(before, x) == occurrences(ns.take(i as int), x));
        }
        let occurrence = next_device_occurrence(&mut counts, names[i].as_str());
        let id = make_audio_device_id(names[i].as_str(), occurrence);
        proof {
            assert(names@[i as int]@ == x);
            assert(ns.take(i + 1).drop_last() =~= ns.take(i as int));
            assert forall|y: Seq<char>| #[trigger] count_of(counts.view(), y) == occurrences(ns.take(i + 1), y) by {
                occurrence_counts_step(before, x, y);
            }
        }
        let ghost prev = string_views(ids@);
        ids.push(id);
        assert(string_views(ids@) =~= assigned_ids(ns).take(i + 1)) by {
            assert(string_views(ids@) =~= prev.push(assigned_ids(ns)[i as int]));
        }
        i += 1;
    }
    assert(assigned_ids(ns).take(names.len() as int) =~= assigned_ids(ns));
    assert(string_views(ids@).len() == ids.len());
    ids
}

// ---------------------------------------------------------------------------
// Choosing an input device
// ---------------------------------------------------------------------------

/// A query for BlackHole matches a device whose name mentions BlackHole.
pub open spec fn blackhole_match(query: Seq<char>, candidate: Seq<char>) -> bool {
    has_substring(query, "BlackHole"@) && (has_substring(candidate, "BlackHole"@) || has_substring(
        candidate,
        "BlackHole2ch"@,
    ))
}

/// A query for a microphone matches a device whose lowercase name mentions
/// a microphone or a mic.
pub open spec fn microphone_match(query: Seq<char>, candidate: Seq<char>) -> bool {
    has_substring(query, "microphone"@) && (has_substring(str_lowercase(candidate), "microphone"@)
        || has_substring(str_lowercase(candidate), "mic"@))
}

/// Whether a stored BlackHole name still finds a BlackHole device.
pub fn is_blackhole_device_match(device_id_or_name: &str, candidate_name: &str) -> (r: bool)
    ensures
        r == blackhole_match(device_id_or_name@, candidate_name@),
{
    str_contains(device_id_or_name, "BlackHole") && (str_contains(candidate_name, "BlackHole") || str_contains(
        candidate_name,
        "BlackHole2ch",
    ))
}

/// Whether a stored microphone name still finds a microphone.
pub fn is_microphone_device_match(device_id_or_name: &str, candidate_name: &str) -> (r: bool)
    ensures
        r == microphone_match(device_id_or_name@, candidate_name@),
{
    if !str_contains(device_id_or_name, "microphone") {
        return false;
    }
    let lower = to_lowercase(candidate_name);
    str_contains(lower.as_str(), "microphone") || str_contains(lower.as_str(), "mic")
}

/// The ways a stored device setting can pick a listed device, strongest
/// first.
#[derive(Clone, Copy, PartialEq, Eq, Structural)]
pub enum MatchRule {
    Id,
    Name,
    BlackHole,
    Microphone,
}

/// Whether the listed device `(id, name)` answers `query` by `rule`.
pub open spec fn rule_holds(rule: MatchRule, query: Seq<char>, device: (Seq<char>, Seq<char>)) -> bool {
    match rule {
        MatchRule::Id => device.0 == query,
        MatchRule::Name => device.1 == query,
        MatchRule::BlackHole => blackhole_match(query, device.1),
        MatchRule::Microphone => microphone_match(query, device.1),
    }
}

/// `i` is the first listed device that answers `query` by `rule`.
pub open spec fn is_first_match(ds: Seq<(Seq<char>, Seq<char>)>, query: Seq<char>, rule: MatchRule, i: int) -> bool {
    &&& 0 <= i < ds.len()
    &&& rule_holds(rule, query, ds[i])
    &&& forall|k: int| 0 <= k < i ==> !#[trigger] rule_holds(rule, query, ds[k])
}

/// The first listed device that answers `query` by `rule`.
pub open spec fn first_match(ds: Seq<(Seq<char>, Seq<char>)>, query: Seq<char>, rule: MatchRule) -> Option<int> {
    if exists|i: int| is_first_match(ds, query, rule, i) {
        Some(choose|i: int| is_first_match(ds, query, rule, i))
    } else {
        None
    }
}

/// The device a stored setting picks: the first with that identifier, else
/// the first with that name, else the first BlackHole device for a BlackHole
/// setting, else the first microphone for a microphone setting.
pub open spec fn input_device_match(ds: Seq<(Seq<char>, Seq<char>)>, query: Seq<char>) -> Option<int> {
    match first_match(ds, query, MatchRule::Id) {
        Some(i) => Some(i),
        None => match first_match(ds, query, MatchRule::Name) {
            Some(i) => Some(i),
            None => match first_match(ds, query, MatchRule::BlackHole) {
                Some(i) => Some(i),
                None => first_match(ds, query, MatchRule::Microphone),
            },
        },
    }
}

/// Listed devices as `(id, name)` pairs of characters.
pub open spec fn device_views(v: Seq<(String, String)>) -> Seq<(Seq<char>, Seq<char>)> {
    Seq::new(v.len(), |i: int| (v[i].0@, v[i].1@))
}

/// Whether the listed device `(id, name)` answers `query` by `rule`.
fn rule_matches(rule: MatchRule, query: &str, id: &str, name: &str) -> (r: bool)
    ensures
        r == rule_holds(rule, query@, (id@, name@)),
{
    match rule {
        MatchRule::Id => str_eq(id, query),
        MatchRule::Name => str_eq(name, query),
        MatchRule::BlackHole => is_blackhole_device_match(query, name),
        MatchRule::Microphone => is_microphone_device_match(query, name),
    }
}

/// The first listed device that answers `query` by `rule`.
fn find_by_rule(devices: &Vec<(String, String)>, query: &str, rule: MatchRule) -> (r: Option<usize>)
    ensures
        match r {
            Some(i) => first_match(device_views(devices@), query@, rule) == Some(i as int),
            None => first_match(device_views(devices@), query@, rule) is None,
        },
{
    let ghost ds = device_views(devices@);
    let mut i: usize = 0;
    while i < devices.len()
        invariant
            0 <= i <= devices.len(),
            ds == device_views(devices@),
            forall|k: int| 0 <= k < i ==> !#[trigger] rule_holds(rule, query@, ds[k]),
        decreases devices.len() - i,
    {
        assert(ds[i as int] == (devices@[i as int].0@, devices@[i as int].1@));
        if rule_matches(rule, query, devices[i].0.as_str(), devices[i].1.as_str()) {
            assert(is_first_match(ds, query@, rule, i as int));
            let ghost j = choose|j: int| is_first_match(ds, query@, rule, j);
            assert(j == i) by {
                if j < i {
                    assert(!rule_holds(rule, query@, ds[j]));
                } else if i < j {
                    assert(!rule_holds(rule, query@, ds[i as int]));
                }
            }
            return Some(i);
        }
        i += 1;
    }
    assert forall|j: int| !is_first_match(ds, query@, rule, j) by {
        if 0 <= j < ds.len() {
            assert(!rule_holds(rule, query@, ds[j]));
        }
    }
    None
}

/// The listed device a stored device setting picks, if any.
pub fn find_input_device(devices: &Vec<(String, String)>, device_id_or_name: &str) -> (r: Option<usize>)
    ensures
        match r {
            Some(i) => input_device_match(device_views(devices@), device_id_or_name@) == Some(i as int),
            None => input_device_match(device_views(devices@), device_id_or_name@) is None,
        },
{
    match find_by_rule(devices, device_id_or_name, MatchRule::Id) {
        Some(i) => Some(i),
        None => match find_by_rule(devices, device_id_or_name, MatchRule::Name) {
            Some(i) => Some(i),
            None => match find_by_rule(devices, device_id_or_name, MatchRule::BlackHole) {
                Some(i) => Some(i),
                None => find_by_rule(devices, device_id_or_name, MatchRule::Microphone),
            },
        },
    }
}

/// Which input device to open for a device setting.
pub enum InputChoice {
    /// The setting is `default`: the host's default input device.
    Default,
    /// The listed device at this index.
    Listed(usize),
    /// No listed device answers the setting: the host's default input
    /// device, if there is one.
    FallbackDefault,
}

/// Which input device to open for the device setting `device_id_or_name`.
pub fn resolve_input_choice(devices: &Vec<(String, String)>, device_id_or_name: &str) -> (r: InputChoice)
    ensures
        device_id_or_name@ == "default"@ ==> r is Default,
        device_id_or_name@ != "default"@ ==> match input_device_match(device_views(devices@), device_id_or_name@) {
            Some(i) => r == InputChoice::Listed(i as usize),
            None => r is FallbackDefault,
        },
{
    if str_eq(device_id_or_name, "default") {
        return InputChoice::Default;
    }
    match find_input_device(devices, device_id_or_name) {
        Some(i) => InputChoice::Listed(i),
        None => InputChoice::FallbackDefault,
    }
}

// ---------------------------------------------------------------------------
// Listing devices and diagnostics
// ---------------------------------------------------------------------------

/// The device list offered to the user: the default microphone first, then
/// each named input device with its identifier.
pub open spec fn device_list(names: Seq<Seq<char>>) -> Seq<(Seq<char>, Seq<char>)> {
    seq![("default"@, "Default Microphone"@)] + Seq::new(names.len(), |i: int| (assigned_ids(names)[i], names[i]))
}

/// The `(id, name)` list of input devices, given the names of the devices
/// the host lists (those whose name could be read), in order.
pub fn list_audio_devices(names: &Vec<String>) -> (r: Vec<(String, String)>)
    requires
        names.len() < usize::MAX,
    ensures
        device_views(r@) == device_list(string_views(names@)),
{
    let ghost ns = string_views(names@);
    let ids = assign_device_ids(names);
    let mut list: Vec<(String, String)> = Vec::new();
    let mut id = String::new();
    push_str(&mut id, "default");
    let mut label = String::new();
    push_str(&mut label, "Default Microphone");
    list.push((id, label));
    let mut i: usize = 0;
    while i < names.len()
        invariant
            0 <= i <= names.len(),
            ns == string_views(names@),
            ids@.len() == names.len(),
            string_views(ids@) == assigned_ids(ns),
            device_views(list@) == device_list(ns).take(i + 1),
        decreases names.len() - i,
    {
        let mut name = String::new();
        push_str(&mut name, names[i].as_str());
        let mut did = String::new();
        push_str(&mut did, ids[i].as_str());
        assert(string_views(ids@)[i as int] == ids@[i as int]@);
        let ghost prev = device_views(list@);
        list.push((did, name));
        assert(device_views(list@) =~= device_list(ns).take(i + 2)) by {
            assert(device_views(list@) =~= prev.push((assigned_ids(ns)[i as int], ns[i as int])));
        }
        i += 1;
    }
    assert(device_list(ns).take(names.len() + 1) =~= device_list(ns));
    list
}

/// A sample format a device can report.
#[derive(Clone, Copy, PartialEq, Eq, Structural)]
pub enum SampleFormat {
    I8,
    I16,
    I32,
    I64,
    U8,
    U16,
    U32,
    U64,
    F32,
    F64,
    /// A format this library does not know by name.
    Unknown,
}

/// The label of a sample format.
pub open spec fn format_label(format: SampleFormat) -> Seq<char> {
    match format {
        SampleFormat::F32 => "f32"@,
        SampleFormat::F64 => "f64"@,
        SampleFormat::I8 => "i8"@,
        SampleFormat::I16 => "i16"@,
        SampleFormat::I32 => "i32"@,
        SampleFormat::I64 => "i64"@,
        SampleFormat::U8 => "u8"@,
        SampleFormat::U16 => "u16"@,
        SampleFormat::U32 => "u32"@,
        SampleFormat::U64 => "u64"@,
        SampleFormat::Unknown => "unknown"@,
    }
}

/// Stable, human-readable label for a sample format; unknown formats get
/// `unknown` rather than a failure.
pub fn sample_format_label(format: SampleFormat) -> (r: &'static str)
    ensures
        r@ == format_label(format),
{
    match format {
        SampleFormat::F32 => "f32",
        SampleFormat::F64 => "f64",
        SampleFormat::I8 => "i8",
        SampleFormat::I16 => "i16",
        SampleFormat::I32 => "i32",
        SampleFormat::I64 => "i64",
        SampleFormat::U8 => "u8",
        SampleFormat::U16 => "u16",
        SampleFormat::U32 => "u32",
        SampleFormat::U64 => "u64",
        SampleFormat::Unknown => "unknown",
    }
}

/// Whether recording supports a sample format: 32-bit float and 16-bit
/// signed and unsigned integer samples.
pub fn is_capture_format(format: SampleFormat) -> (r: bool)
    ensures
        r == (format == SampleFormat::F32 || format == SampleFormat::I16 || format == SampleFormat::U16),
{
    match format {
        SampleFormat::F32 | SampleFormat::I16 | SampleFormat::U16 => true,
        _ => false,
    }
}

/// A device's default input configuration.
#[derive(Clone, Copy)]
pub struct InputConfig {
    pub sample_format: SampleFormat,
    pub channels: u16,
    pub sample_rate: u32,
}

/// Diagnostic description of a single input device.
pub struct DeviceDiagnostic {
    pub id: String,
    pub name: String,
    pub sample_format: Option<String>,
    pub channels: Option<u16>,
    pub sample_rate: Option<u32>,
}

/// Snapshot of the host audio environment for reproducible hardware testing.
pub struct AudioDiagnostics {
    pub default_device: Option<String>,
    pub devices: Vec<DeviceDiagnostic>,
    pub blackhole_installed: bool,
    pub blackhole_device: Option<String>,
}

/// The name a device is reported under: its own, or `Unknown device` when
/// it could not be read.
pub open spec fn reported_name(name: Option<String>) -> Seq<char> {
    match name {
        Some(n) => n@,
        None => "Unknown device"@,
    }
}

/// The names devices are reported under, in order.
pub open spec fn reported_names(devices: Seq<(Option<String>, Option<InputConfig>)>) -> Seq<Seq<char>> {
    Seq::new(devices.len(), |i: int| reported_name(devices[i].0))
}

/// The diagnostic of the `i`-th device: its reported name and identifier,
/// and its default input configuration when it has one.
pub open spec fn diagnostic_matches(
    d: DeviceDiagnostic,
    devices: Seq<(Option<String>, Option<InputConfig>)>,
    i: int,
) -> bool {
    &&& d.name@ == reported_names(devices)[i]
    &&& d.id@ == assigned_ids(reported_names(devices))[i]
    &&& match devices[i].1 {
        Some(c) => {
            &&& d.sample_format matches Some(f) && f@ == format_label(c.sample_format)
            &&& d.channels == Some(c.channels)
            &&& d.sample_rate == Some(c.sample_rate)
        },
        None => d.sample_format is None && d.channels is None && d.sample_rate is None,
    }
}

/// Describe every input device, given each device's name (`None` when it
/// could not be read) and default input configuration (`None` when the
/// device exposes none), so one broken device cannot abort the report.
pub fn collect_device_diagnostics(devices: &Vec<(Option<String>, Option<InputConfig>)>) -> (r: Vec<DeviceDiagnostic>)
    requires
        devices.len() < usize::MAX,
    ensures
        r.len() == devices.len(),
        forall|i: int| 0 <= i < r.len() ==> diagnostic_matches(#[trigger] r@[i], devices@, i),
{
    let ghost rn = reported_names(devices@);
    let mut names: Vec<String> = Vec::new();
    let mut i: usize = 0;
    while i < devices.len()
        invariant
            0 <= i <= devices.len(),
            rn == reported_names(devices@),
            string_views(names@) == rn.take(i as int),
        decreases devices.len() - i,
    {
        let mut n = String::new();
        match &devices[i].0 {
            Some(name) => push_str(&mut n, name.as_str()),
            None => push_str(&mut n, "Unknown device"),
        }
        let ghost prev = string_views(names@);
        names.push(n);
        assert(string_views(names@) =~= rn.take(i + 1)) by {
            assert(string_views(names@) =~= prev.push(rn[i as int]));
        }
        i += 1;
    }
    assert(rn.take(devices.len() as int) =~= rn);
    let ids = assign_device_ids(&names);
    let mut out: Vec<DeviceDiagnostic> = Vec::new();
    let mut i: usize = 0;
    while i < devices.len()
        invariant
            0 <= i <= devices.len(),
            rn == reported_names(devices@),
            string_views(names@) == rn,
            names.len() == devices.len(),
            ids.len() == devices.len(),
            string_views(ids@) == assigned_ids(rn),
            out.len() == i,
            forall|k: int| 0 <= k < i ==> diagnostic_matches(#[trigger] out@[k], devices@, k),
        decreases devices.len() - i,
    {
        let mut name = String::new();
        push_str(&mut name, names[i].as_str());
        let mut id = String::new();
        push_str(&mut id, ids[i].as_str());
        assert(string_views(names@)[i as int] == names@[i as int]@);
        assert(string_views(ids@)[i as int] == ids@[i as int]@);
        let d = match devices[i].1 {
            Some(c) => {
                let mut f = String::new();
                push_str(&mut f, sample_format_label(c.sample_format));
                DeviceDiagnostic {
                    id,
                    name,
                    sample_format: Some(f),
                    channels: Some(c.channels),
                    sample_rate: Some(c.sample_rate),
                }
            },
            None => DeviceDiagnostic { id, name, sample_format: None, channels: None, sample_rate: None },
        };
        assert(diagnostic_matches(d, devices@, i as int));
        out.push(d);
        i += 1;
    }
    out
}

/// The full audio environment snapshot: the default device's name, the
/// device diagnostics, and whether and under which name BlackHole is
/// installed (the name only when it is).
pub fn get_audio_diagnostics(
    default_device: Option<String>,
    devices: Vec<DeviceDiagnostic>,
    listed: &Result<Vec<String>, String>,
    profiler_text: Option<&str>,
    hal_entries: &Vec<String>,
) -> (r: AudioDiagnostics)
    ensures
        r.default_device == default_device,
        r.devices == devices,
        r.blackhole_installed == crate::system_audio::blackhole_detected(
            crate::system_audio::listed_view(*listed),
            crate::system_audio::opt_view(profiler_text),
            string_views(hal_entries@),
        ),
        r.blackhole_installed ==> match crate::system_audio::listed_view(*listed) {
            Ok(ds) => match r.blackhole_device {
                Some(n) => crate::system_audio::first_blackhole(ds) == Some(n@),
                None => crate::system_audio::first_blackhole(ds) is None,
            },
            Err(_) => r.blackhole_device is None,
        },
        !r.blackhole_installed ==> r.blackhole_device is None,
{
    let blackhole_installed = crate::system_audio::is_blackhole_installed(listed, profiler_text, hal_entries);
    let blackhole_device = if blackhole_installed {
        crate::system_audio::get_blackhole_device_name(listed)
    } else {
        None
    };
    AudioDiagnostics { default_device, devices, blackhole_installed, blackhole_device }
}

// ---------------------------------------------------------------------------
// Recording control
// ---------------------------------------------------------------------------

/// Recording control messages.
pub enum RecordingCommand {
    Stop,
}

/// What a recording thread observes while it waits.
pub enum RecordingEvent {
    /// A control message arrived.
    Command(RecordingCommand),
    /// The wait timed out (or the sender is gone); `still_recording` is the
    /// shared recording flag, false when it could not be read.
    Timeout { still_recording: bool },
}

/// What a recording thread does next.
#[derive(PartialEq, Eq, Structural)]
pub enum RecordingAction {
    /// Tell the stream to stop taking samples, and finish.
    StopStream,
    /// Finish.
    Exit,
    /// Keep waiting.
    Wait,
}

/// The next step of a recording thread: a stop message stops the stream; a
/// timeout ends the thread once the recording is no longer on.
pub fn recording_step(event: RecordingEvent) -> (r: RecordingAction)
    ensures
        match event {
            RecordingEvent::Command(RecordingCommand::Stop) => r == RecordingAction::StopStream,
            RecordingEvent::Timeout { still_recording } => r == if still_recording {
                RecordingAction::Wait
            } else {
                RecordingAction::Exit
            },
        },
{
    match event {
        RecordingEvent::Command(RecordingCommand::Stop) => RecordingAction::StopStream,
        RecordingEvent::Timeout { still_recording } => if still_recording {
            RecordingAction::Wait
        } else {
            RecordingAction::Exit
        },
    }
}

/// What a device's recording thread handed back.
pub struct CaptureInfo {
    pub sample_rate: u32,
    pub truncated: bool,
}

/// How a device's recording thread ended.
pub enum ThreadOutcome {
    Finished(CaptureInfo),
    Failed(String),
    Panicked,
}

/// Which samples go into the recording file.
#[derive(PartialEq, Eq, Structural)]
pub enum AudioMix {
    /// Microphone and system audio mixed together.
    Mixed,
    /// The microphone alone.
    MicOnly,
}

/// What stopping a recording produces, before the samples are written.
pub struct StopPlan {
    pub mix: AudioMix,
    pub audio_truncated: bool,
    pub output_sample_rate: u32,
    pub used_system_audio: bool,
    pub system_audio_error: Option<String>,
}

/// The error when a recording is started while one is running.
pub const ALREADY_RECORDING_ERROR: &'static str = "Recording is already in progress";

/// Whether a recording may start: refused with
/// [`ALREADY_RECORDING_ERROR`] exactly when one is already running.
pub fn check_can_start(recording: bool) -> (r: Result<(), String>)
    ensures
        r is Ok <==> !recording,
        r matches Err(e) ==> e@ == ALREADY_RECORDING_ERROR@,
{
    if recording {
        let mut e = String::new();
        push_str(&mut e, ALREADY_RECORDING_ERROR);
        Err(e)
    } else {
        Ok(())
    }
}

/// The error when no recording is running.
pub const NO_ACTIVE_RECORDING_ERROR: &'static str = "No active recording to stop";

/// The error when the microphone thread ended without samples.
pub const NO_AUDIO_ERROR: &'static str = "No audio data recorded";

/// The error when the microphone thread panicked.
pub const MIC_PANIC_ERROR: &'static str = "Mic recording thread panicked";

/// The prefix of the error when the microphone thread failed.
pub const MIC_FAILED_PREFIX: &'static str = "Mic recording failed: ";

/// The system-audio error when its thread panicked.
pub const SYSTEM_PANIC_ERROR: &'static str = "System audio recording thread panicked";

/// What stopping yields for a running or idle recorder and the outcomes of
/// its microphone and (optional) system-audio threads: the mix, whether
/// samples were dropped, the output sample rate, whether system audio was
/// used, and why system audio failed. A failing microphone fails the stop; a
/// failing system-audio thread only falls back to the microphone and
/// reports why.
pub open spec fn stop_outcome(
    recording: bool,
    mic: Option<ThreadOutcome>,
    system: Option<ThreadOutcome>,
) -> Result<(AudioMix, bool, u32, bool, Option<Seq<char>>), Seq<char>> {
    if !recording {
        Err(NO_ACTIVE_RECORDING_ERROR@)
    } else {
        match mic {
            Some(ThreadOutcome::Failed(e)) => Err(MIC_FAILED_PREFIX@ + e@),
            Some(ThreadOutcome::Panicked) => Err(MIC_PANIC_ERROR@),
            None => Err(NO_AUDIO_ERROR@),
            Some(ThreadOutcome::Finished(m)) => Ok(
                (
                    if system matches Some(ThreadOutcome::Finished(_)) {
                        AudioMix::Mixed
                    } else {
                        AudioMix::MicOnly
                    },
                    m.truncated || (system matches Some(ThreadOutcome::Finished(s)) && s.truncated),
                    m.sample_rate,
                    system matches Some(ThreadOutcome::Finished(_)),
                    match system {
                        Some(ThreadOutcome::Failed(e)) => Some(e@),
                        Some(ThreadOutcome::Panicked) => Some(SYSTEM_PANIC_ERROR@),
                        _ => None,
                    },
                ),
            ),
        }
    }
}

/// A failing system-audio thread never fails the stop: once the microphone
/// thread finished, stopping a running recording succeeds, uses system audio
/// exactly when its thread finished too, and reports why it did not.
pub proof fn system_audio_failure_is_not_fatal(m: CaptureInfo, system: Option<ThreadOutcome>)
    ensures
        stop_outcome(true, Some(ThreadOutcome::Finished(m)), system) is Ok,
        stop_outcome(true, Some(ThreadOutcome::Finished(m)), system) matches Ok(plan) && {
            &&& plan.3 == (system matches Some(ThreadOutcome::Finished(_)))
            &&& (plan.4 is Some <==> (system matches Some(ThreadOutcome::Failed(_)) || system matches Some(
                ThreadOutcome::Panicked,
            )))
            &&& plan.2 == m.sample_rate
        },
{
}

/// A plan, its strings taken by characters.
pub open spec fn plan_view(p: StopPlan) -> (AudioMix, bool, u32, bool, Option<Seq<char>>) {
    (
        p.mix,
        p.audio_truncated,
        p.output_sample_rate,
        p.used_system_audio,
        match p.system_audio_error {
            Some(e) => Some(e@),
            None => None,
        },
    )
}

/// Decide what stopping a recording yields.
pub fn plan_recording_stop(recording: bool, mic: Option<ThreadOutcome>, system: Option<ThreadOutcome>) -> (r: Result<StopPlan, String>)
    ensures
        match (r, stop_outcome(recording, mic, system)) {
            (Ok(p), Ok(q)) => plan_view(p) == q,
            (Err(e), Err(f)) => e@ == f,
            _ => false,
        },
{
    if !recording {
        let mut e = String::new();
        push_str(&mut e, NO_ACTIVE_RECORDING_ERROR);
        return Err(e);
    }
    let m = match mic {
        Some(ThreadOutcome::Finished(m)) => m,
        Some(ThreadOutcome::Failed(msg)) => {
            let mut e = String::new();
            push_str(&mut e, MIC_FAILED_PREFIX);
            push_str(&mut e, msg.as_str());
            return Err(e);
        },
        Some(ThreadOutcome::Panicked) => {
            let mut e = String::new();
            push_str(&mut e, MIC_PANIC_ERROR);
            return Err(e);
        },
        None => {
            let mut e = String::new();
            push_str(&mut e, NO_AUDIO_ERROR);
            return Err(e);
        },
    };
    let (mix, system_truncated, used_system_audio, system_audio_error) = match system {
        Some(ThreadOutcome::Finished(s)) => (AudioMix::Mixed, s.truncated, true, None),
        Some(ThreadOutcome::Failed(msg)) => (AudioMix::MicOnly, false, false, Some(msg)),
        Some(ThreadOutcome::Panicked) => {
            let mut e = String::new();
            push_str(&mut e, SYSTEM_PANIC_ERROR);
            (AudioMix::MicOnly, false, false, Some(e))
        },
        None => (AudioMix::MicOnly, false, false, None),
    };
    Ok(
        StopPlan {
            mix,
            audio_truncated: m.truncated || system_truncated,
            output_sample_rate: m.sample_rate,
            used_system_audio,
            system_audio_error,
        },
    )
}

} // verus!
