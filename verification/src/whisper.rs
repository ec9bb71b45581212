//! Whisper model bookkeeping: the bounded model cache, the table of known
//! model sizes, and transcript formatting.
use vstd::prelude::*;

use crate::assoc::{
    distinct_keys, entries_view, find_entry, lemma_absent_key, lemma_find_entry_bounds, lemma_find_entry_is_key,
    lemma_find_unique, lookup, position,
    removed,
};
use crate::commands::{all_digits, digits_value};
use crate::llm::string_views;
use crate::text::{chars_of, join, push_range, push_str, push_two_digits, str_eq, string_of, trim, trim_bounds, trimmed, two_digits, decimal, hex_digit};

verus! {

/// Maximum number of Whisper model contexts kept in memory at once. Users
/// typically switch between at most two sizes, so a tiny bounded cache is
/// enough while still accounting for memory pressure.
pub const MAX_CACHED_WHISPER_MODELS: usize = 2;

/// Default model size (used for transcription).
pub const DEFAULT_MODEL_SIZE: &'static str = "small";

// ---------------------------------------------------------------------------
// The bounded model cache
// ---------------------------------------------------------------------------

/// A small, bounded cache keyed by model size. Keeps expensive loaded
/// resources alive across calls and evicts the oldest entry when the cache
/// grows beyond capacity.
///
/// Entries are kept in the order their keys were first inserted; replacing
/// the value of a present key keeps its place.
pub struct ModelCache<T> {
    entries: Vec<(String, T)>,
    max_entries: usize,
}

/// The entries after inserting `key -> value` into a cache of capacity `max`:
/// a present key keeps its place and gets the new value; a new key goes last,
/// and the oldest entry is evicted when that exceeds the capacity.
pub open spec fn inserted<T>(es: Seq<(Seq<char>, T)>, key: Seq<char>, value: T, max: nat) -> Seq<(Seq<char>, T)> {
    match find_entry(es, key) {
        Some(i) => es.update(i, (key, value)),
        None => {
            let grown = es.push((key, value));
            if grown.len() > max {
                grown.drop_first()
            } else {
                grown
            }
        },
    }
}

impl<T> ModelCache<T> {
    /// The cached entries, oldest first.
    pub closed spec fn view(&self) -> Seq<(Seq<char>, T)> {
        entries_view(self.entries@)
    }

    /// The capacity.
    pub closed spec fn capacity(&self) -> nat {
        self.max_entries as nat
    }

    /// The cache holds at most `capacity` entries, at least one fits, and no
    /// key occurs twice.
    pub closed spec fn wf(&self) -> bool {
        &&& self.max_entries >= 1
        &&& self.view().len() <= self.max_entries
        &&& distinct_keys(self.view())
    }

    /// What well-formedness guarantees: at least one entry fits, the cache
    /// holds at most its capacity, and no key occurs twice.
    pub proof fn lemma_wf(&self)
        requires
            self.wf(),
        ensures
            self.capacity() >= 1,
            self.view().len() <= self.capacity(),
            distinct_keys(self.view()),
    {
    }

    /// An empty cache holding at most `max_entries` entries (at least one).
    pub fn with_capacity(max_entries: usize) -> (cache: Self)
        ensures
            cache.wf(),
            cache.view() == Seq::<(Seq<char>, T)>::empty(),
            cache.capacity() == if max_entries >= 1 { max_entries as nat } else { 1 },
    {
        let cap = if max_entries >= 1 { max_entries } else { 1 };
        let cache = ModelCache { entries: Vec::new(), max_entries: cap };
        assert(cache.view() =~= Seq::<(Seq<char>, T)>::empty());
        cache
    }

    /// The value cached for `key`.
    pub fn get(&self, key: &str) -> (r: Option<&T>)
        requires
            self.wf(),
        ensures
            match r {
                Some(v) => lookup(self.view(), key@) == Some(*v),
                None => lookup(self.view(), key@) is None,
            },
    {
        proof { lemma_find_entry_bounds(self.view(), key@); }
        match position(&self.entries, key) {
            Some(i) => Some(&self.entries[i].1),
            None => None,
        }
    }

    /// Insert (or replace) an entry, evicting the oldest entries beyond
    /// capacity so the cache stays memory-bounded.
    pub fn insert(&mut self, key: String, value: T)
        requires
            old(self).wf(),
        ensures
            final(self).wf(),
            final(self).capacity() == old(self).capacity(),
            final(self).view() == inserted(old(self).view(), key@, value, old(self).capacity()),
            lookup(final(self).view(), key@) == Some(value),
    {
        proof { lemma_find_entry_bounds(self.view(), key@); }
        let ghost before = self.view();
        let ghost k = key@;
        let ghost v = value;
        let ghost es = self.view();
        match position(&self.entries, key.as_str()) {
            Some(i) => {
                let ghost k = key@;
                self.entries.set(i, (key, value));
                assert(self.view() =~= es.update(i as int, (k, value)));
                proof { lemma_find_entry_is_key(es, k); }
                assert(distinct_keys(self.view()));
            },
            None => {
                let ghost k = key@;
                self.entries.push((key, value));
                assert(self.view() =~= es.push((k, value)));
                proof { lemma_absent_key(es, k); }
                if self.entries.len() > self.max_entries {
                    self.entries.remove(0);
                    assert(self.view() =~= es.push((k, value)).drop_first());
                }
            },
        }
        proof { lookup_after_insert(before, k, v, self.max_entries as nat); }
    }

    /// Remove a specific entry (e.g. when the selected model changes or a
    /// loaded model turns out to be stale).
    pub fn remove(&mut self, key: &str) -> (r: Option<T>)
        requires
            old(self).wf(),
        ensures
            final(self).wf(),
            final(self).capacity() == old(self).capacity(),
            r == lookup(old(self).view(), key@),
            final(self).view() == removed(old(self).view(), key@),
    {
        proof { lemma_find_entry_bounds(self.view(), key@); }
        let ghost es = self.view();
        match position(&self.entries, key) {
            Some(i) => {
                let (_, value) = self.entries.remove(i);
                assert(self.view() =~= es.remove(i as int));
                Some(value)
            },
            None => None,
        }
    }

    /// Drop every entry.
    pub fn clear(&mut self)
        requires
            old(self).wf(),
        ensures
            final(self).wf(),
            final(self).capacity() == old(self).capacity(),
            final(self).view() == Seq::<(Seq<char>, T)>::empty(),
    {
        self.entries.clear();
        assert(self.view() =~= Seq::<(Seq<char>, T)>::empty());
    }

    /// Number of cached entries.
    pub fn len(&self) -> (n: usize)
        ensures
            n == self.view().len(),
    {
        self.entries.len()
    }

    /// Whether nothing is cached.
    pub fn is_empty(&self) -> (b: bool)
        ensures
            b == (self.view().len() == 0),
    {
        self.entries.len() == 0
    }

    /// Return a reference to the entry for `key`, loading it with `load` when
    /// absent. If `load` fails, any stale entry is dropped and the error is
    /// returned, so the next call retries cleanly.
    pub fn get_or_load<F, E>(&mut self, key: &str, load: F) -> (r: Result<&T, E>)
        where
            F: FnOnce() -> Result<T, E>,
        requires
            old(self).wf(),
            lookup(old(self).view(), key@) is None ==> call_requires(load, ()),
        ensures
            final(self).wf(),
            final(self).capacity() == old(self).capacity(),
            match lookup(old(self).view(), key@) {
                Some(v) => final(self).view() == old(self).view() && (r matches Ok(x) && *x == v),
                None => exists|loaded: Result<T, E>| {
                    &&& call_ensures(load, (), loaded)
                    &&& match loaded {
                        Ok(v) => {
                            &&& final(self).view() == inserted(old(self).view(), key@, v, old(self).capacity())
                            &&& (r matches Ok(x) && *x == v)
                        },
                        Err(e) => final(self).view() == old(self).view() && r == Err::<&T, E>(e),
                    }
                },
            },
    {
        proof { lemma_find_entry_bounds(self.view(), key@); }
        match position(&self.entries, key) {
            Some(i) => Ok(&self.entries[i].1),
            None => {
                let loaded = load();
                match loaded {
                    Ok(value) => {
                        let ghost v = value;
                        let ghost es = self.view();
                        let mut owned = String::new();
                        push_str(&mut owned, key);
                        self.insert(owned, value);
                        // a new key goes last, and eviction only drops the oldest
                        assert(self.view().last() == (key@, v));
                        let last = self.entries.len() - 1;
                        Ok(&self.entries[last].1)
                    },
                    Err(e) => {
                        let _ = self.remove(key);
                        Err(e)
                    },
                }
            },
        }
    }
}

/// After an insert into a cache of capacity at least one, the key is there
/// with the inserted value.
proof fn lemma_inserted_finds_key<T>(es: Seq<(Seq<char>, T)>, key: Seq<char>, value: T, max: nat)
    requires
        distinct_keys(inserted(es, key, value, max)),
        max >= 1,
        es.len() <= max,
    ensures
        lookup(inserted(es, key, value, max), key) == Some(value),
{
    lemma_find_entry_bounds(es, key);
    let after = inserted(es, key, value, max);
    match find_entry(es, key) {
        Some(i) => {
            lemma_find_unique(after, key, i);
        },
        None => {
            lemma_find_unique(after, key, after.len() - 1);
        },
    }
}

impl<T> Default for ModelCache<T> {
    /// An empty cache holding at most [`MAX_CACHED_WHISPER_MODELS`] entries.
    fn default() -> (cache: Self)
        ensures
            cache.wf(),
            cache.view() == Seq::<(Seq<char>, T)>::empty(),
            cache.capacity() == MAX_CACHED_WHISPER_MODELS,
    {
        Self::with_capacity(MAX_CACHED_WHISPER_MODELS)
    }
}

// ---------------------------------------------------------------------------
// Laws of the cache
// ---------------------------------------------------------------------------

/// Inserting keeps the keys distinct and the size within the capacity.
pub proof fn insert_keeps_cache_bounded<T>(es: Seq<(Seq<char>, T)>, key: Seq<char>, value: T, max: nat)
    requires
        distinct_keys(es),
        es.len() <= max,
        max >= 1,
    ensures
        distinct_keys(inserted(es, key, value, max)),
        inserted(es, key, value, max).len() <= max,
{
    lemma_find_entry_bounds(es, key);
    let after = inserted(es, key, value, max);
    match find_entry(es, key) {
        Some(i) => {
            assert forall|a: int, b: int| 0 <= a < b < after.len() implies #[trigger] after[a].0 != #[trigger] after[b].0 by {
                assert(es[a].0 != es[b].0);
            }
        },
        None => {
            let grown = es.push((key, value));
            assert forall|a: int, b: int| 0 <= a < b < grown.len() implies #[trigger] grown[a].0 != #[trigger] grown[b].0 by {
                if b < es.len() {
                    assert(es[a].0 != es[b].0);
                }
            }
            if grown.len() > max {
                assert forall|a: int, b: int| 0 <= a < b < after.len() implies #[trigger] after[a].0 != #[trigger] after[b].0 by {
                    assert(after[a] == grown[a + 1]);
                    assert(after[b] == grown[b + 1]);
                }
            }
        },
    }
}

/// What was just inserted is what a lookup finds.
pub proof fn lookup_after_insert<T>(es: Seq<(Seq<char>, T)>, key: Seq<char>, value: T, max: nat)
    requires
        distinct_keys(es),
        es.len() <= max,
        max >= 1,
    ensures
        lookup(inserted(es, key, value, max), key) == Some(value),
{
    insert_keeps_cache_bounded(es, key, value, max);
    lemma_inserted_finds_key(es, key, value, max);
}

/// Inserting one key leaves the value of every other key alone, except that
/// a new key in a full cache evicts the oldest entry.
pub proof fn insert_keeps_other_keys<T>(es: Seq<(Seq<char>, T)>, key: Seq<char>, value: T, max: nat, other: Seq<char>)
    requires
        distinct_keys(es),
        es.len() <= max,
        max >= 1,
        other != key,
    ensures
        find_entry(es, key) is None && es.len() == max ==> lookup(inserted(es, key, value, max), es[0].0) is None,
        !(find_entry(es, key) is None && es.len() == max && es[0].0 == other) ==> lookup(
            inserted(es, key, value, max),
            other,
        ) == lookup(es, other),
{
    insert_keeps_cache_bounded(es, key, value, max);
    let after = inserted(es, key, value, max);
    lemma_find_entry_bounds(es, key);
    lemma_find_entry_bounds(es, other);
    lemma_find_entry_bounds(after, other);
    if find_entry(es, key) is None && es.len() == max {
        let oldest = es[0].0;
        lemma_find_entry_bounds(after, oldest);
        if let Some(j) = find_entry(after, oldest) {
            assert(after[j] == es.push((key, value))[j + 1]);
            if j + 1 < es.len() {
                assert(es[0].0 != es[j + 1].0);
            }
        }
    }
    if !(find_entry(es, key) is None && es.len() == max && es[0].0 == other) {
        match find_entry(es, other) {
            Some(i) => {
                match find_entry(es, key) {
                    Some(ik) => {
                        assert(after[i] == es[i]);
                        lemma_find_unique(after, other, i);
                    },
                    None => {
                        if es.len() + 1 > max {
                            assert(i > 0);
                            assert(after[i - 1] == es[i]);
                            lemma_find_unique(after, other, i - 1);
                        } else {
                            assert(after[i] == es[i]);
                            lemma_find_unique(after, other, i);
                        }
                    },
                }
            },
            None => {
                if let Some(j) = find_entry(after, other) {
                    match find_entry(es, key) {
                        Some(ik) => {
                            assert(after[j] == es.update(ik, (key, value))[j]);
                            if j != ik {
                                assert(es[j].0 == other);
                            }
                        },
                        None => {
                            let grown = es.push((key, value));
                            if grown.len() > max {
                                assert(after[j] == grown[j + 1]);
                            } else {
                                assert(after[j] == grown[j]);
                            }
                        },
                    }
                }
            },
        }
    }
}

// ---------------------------------------------------------------------------
// Known model sizes
// ---------------------------------------------------------------------------

/// One supported Whisper model: its size name, file name, expected size in
/// bytes and display label.
pub struct WhisperModel {
    pub size: &'static str,
    pub filename: &'static str,
    pub expected_bytes: u64,
    pub label: &'static str,
}

/// The supported models, in display order.
pub open spec fn whisper_model_table() -> Seq<(Seq<char>, Seq<char>, u64, Seq<char>)> {
    seq![
        ("tiny"@, "ggml-tiny.bin"@, 78_000_000u64, "Tiny"@),
        ("tiny-q5_1"@, "ggml-tiny-q5_1.bin"@, 33_000_000u64, "Tiny (Q5)"@),
        ("base"@, "ggml-base.bin"@, 149_000_000u64, "Base"@),
        ("base-q5_1"@, "ggml-base-q5_1.bin"@, 60_000_000u64, "Base (Q5)"@),
        ("small"@, "ggml-small.bin"@, 489_000_000u64, "Small"@),
        ("small-q5_1"@, "ggml-small-q5_1.bin"@, 190_000_000u64, "Small (Q5)"@),
        ("medium"@, "ggml-medium.bin"@, 1_572_000_000u64, "Medium"@),
        ("medium-q5_0"@, "ggml-medium-q5_0.bin"@, 539_000_000u64, "Medium (Q5)"@),
        ("large-v3-turbo"@, "ggml-large-v3-turbo.bin"@, 1_572_000_000u64, "Large v3 Turbo"@),
        ("large-v3-turbo-q5_0"@, "ggml-large-v3-turbo-q5_0.bin"@, 574_000_000u64, "Large v3 Turbo (Q5)"@),
    ]
}

/// The view of one model entry.
pub open spec fn model_view(m: WhisperModel) -> (Seq<char>, Seq<char>, u64, Seq<char>) {
    (m.size@, m.filename@, m.expected_bytes, m.label@)
}

/// The first table entry for a size name.
pub open spec fn find_model(t: Seq<(Seq<char>, Seq<char>, u64, Seq<char>)>, size: Seq<char>) -> Option<(Seq<char>, Seq<char>, u64, Seq<char>)>
    decreases t.len(),
{
    if t.len() == 0 {
        None
    } else if t[0].0 == size {
        Some(t[0])
    } else {
        find_model(t.drop_first(), size)
    }
}

fn model(size: &'static str, filename: &'static str, expected_bytes: u64, label: &'static str) -> (m: WhisperModel)
    ensures
        model_view(m) == (size@, filename@, expected_bytes, label@),
{
    WhisperModel { size, filename, expected_bytes, label }
}

/// Whisper model sizes supported (name, filename, expected bytes, display
/// label), in display order.
pub fn whisper_models() -> (models: Vec<WhisperModel>)
    ensures
        models@.len() == whisper_model_table().len(),
        forall|i: int| 0 <= i < models@.len() ==> #[trigger] model_view(models@[i]) == whisper_model_table()[i],
{
    let mut v: Vec<WhisperModel> = Vec::new();
    v.push(model("tiny", "ggml-tiny.bin", 78_000_000, "Tiny"));
    v.push(model("tiny-q5_1", "ggml-tiny-q5_1.bin", 33_000_000, "Tiny (Q5)"));
    v.push(model("base", "ggml-base.bin", 149_000_000, "Base"));
    v.push(model("base-q5_1", "ggml-base-q5_1.bin", 60_000_000, "Base (Q5)"));
    v.push(model("small", "ggml-small.bin", 489_000_000, "Small"));
    v.push(model("small-q5_1", "ggml-small-q5_1.bin", 190_000_000, "Small (Q5)"));
    v.push(model("medium", "ggml-medium.bin", 1_572_000_000, "Medium"));
    v.push(model("medium-q5_0", "ggml-medium-q5_0.bin", 539_000_000, "Medium (Q5)"));
    v.push(model("large-v3-turbo", "ggml-large-v3-turbo.bin", 1_572_000_000, "Large v3 Turbo"));
    v.push(model("large-v3-turbo-q5_0", "ggml-large-v3-turbo-q5_0.bin", 574_000_000, "Large v3 Turbo (Q5)"));
    v
}

/// The table entry for a model size, if it is supported.
pub fn find_whisper_model(model_size: &str) -> (r: Option<WhisperModel>)
    ensures
        match r {
            Some(m) => find_model(whisper_model_table(), model_size@) == Some(model_view(m)),
            None => find_model(whisper_model_table(), model_size@) is None,
        },
{
    let mut models = whisper_models();
    let mut i: usize = 0;
    assert(whisper_model_table().skip(0) =~= whisper_model_table());
    while i < models.len()
        invariant
            models@.len() == whisper_model_table().len(),
            forall|k: int| 0 <= k < models@.len() ==> #[trigger] model_view(models@[k]) == whisper_model_table()[k],
            0 <= i <= models.len(),
            find_model(whisper_model_table(), model_size@) == find_model(whisper_model_table().skip(i as int), model_size@),
        decreases models.len() - i,
    {
        assert(whisper_model_table().skip(i as int).drop_first() =~= whisper_model_table().skip(i + 1));
        assert(whisper_model_table().skip(i as int)[0] == whisper_model_table()[i as int]);
        assert(model_view(models@[i as int]) == whisper_model_table()[i as int]);
        if str_eq(models[i].size, model_size) {
            let ghost mv = model_view(models@[i as int]);
            assert(find_model(whisper_model_table().skip(i as int), model_size@) == Some(whisper_model_table().skip(i as int)[0]));
            let m = models.remove(i);
            assert(model_view(m) == mv);
            return Some(m);
        }
        i += 1;
    }
    None
}

/// The message of the error for an unknown model size.
pub open spec fn invalid_model_size_message(size: Seq<char>) -> Seq<char> {
    "Invalid model size: "@ + size
}

/// Get the filename for a model size.
pub fn get_model_filename(model_size: &str) -> (r: Result<&'static str, String>)
    ensures
        match find_model(whisper_model_table(), model_size@) {
            Some(m) => r matches Ok(f) && f@ == m.1,
            None => r matches Err(msg) && msg@ == invalid_model_size_message(model_size@),
        },
{
    match find_whisper_model(model_size) {
        Some(m) => Ok(m.filename),
        None => {
            let mut msg = String::new();
            push_str(&mut msg, "Invalid model size: ");
            push_str(&mut msg, model_size);
            Err(msg)
        },
    }
}

/// The expected size in bytes of a model, or 0 for an unknown size.
pub fn model_expected_size(model_size: &str) -> (n: u64)
    ensures
        n == match find_model(whisper_model_table(), model_size@) {
            Some(m) => m.2,
            None => 0,
        },
{
    match find_whisper_model(model_size) {
        Some(m) => m.expected_bytes,
        None => 0,
    }
}

/// Information about a Whisper model and its download status.
pub struct ModelInfo {
    pub size: String,
    pub filename: String,
    pub expected_size: u64,
    pub is_downloaded: bool,
    pub actual_size: Option<u64>,
}

/// The listing of the `i`-th model, given whether its file exists and the
/// size read from it (`None` when unreadable).
pub open spec fn model_info_matches(info: ModelInfo, i: int, found: (bool, Option<u64>)) -> bool {
    &&& info.size@ == whisper_model_table()[i].0
    &&& info.filename@ == whisper_model_table()[i].1
    &&& info.expected_size == whisper_model_table()[i].2
    &&& info.is_downloaded == found.0
    &&& info.actual_size == if found.0 { found.1 } else { None }
}

/// Information about all supported models, in display order, given for each
/// whether its file exists in the models directory and the size read from it.
pub fn get_models_info(found: &Vec<(bool, Option<u64>)>) -> (r: Vec<ModelInfo>)
    requires
        found.len() == whisper_model_table().len(),
    ensures
        r.len() == whisper_model_table().len(),
        forall|i: int| 0 <= i < r.len() ==> model_info_matches(#[trigger] r@[i], i, found@[i]),
{
    let models = whisper_models();
    let mut out: Vec<ModelInfo> = Vec::new();
    let mut i: usize = 0;
    while i < models.len()
        invariant
            0 <= i <= models.len(),
            models@.len() == whisper_model_table().len(),
            found.len() == whisper_model_table().len(),
            forall|k: int| 0 <= k < models@.len() ==> #[trigger] model_view(models@[k]) == whisper_model_table()[k],
            out.len() == i,
            forall|k: int| 0 <= k < i ==> model_info_matches(#[trigger] out@[k], k, found@[k]),
        decreases models.len() - i,
    {
        assert(model_view(models@[i as int]) == whisper_model_table()[i as int]);
        let mut size = String::new();
        push_str(&mut size, models[i].size);
        let mut filename = String::new();
        push_str(&mut filename, models[i].filename);
        let (is_downloaded, actual) = found[i];
        out.push(
            ModelInfo {
                size,
                filename,
                expected_size: models[i].expected_bytes,
                is_downloaded,
                actual_size: if is_downloaded { actual } else { None },
            },
        );
        i += 1;
    }
    out
}

// ---------------------------------------------------------------------------
// Transcript formatting
// ---------------------------------------------------------------------------

/// `MM:SS`, or `HH:MM:SS` from one hour on, for a whole number of seconds.
pub open spec fn timestamp_text(total: nat) -> Seq<char> {
    let hours = total / 3600;
    let minutes = (total % 3600) / 60;
    let seconds = total % 60;
    if hours > 0 {
        two_digits(hours) + ":"@ + two_digits(minutes) + ":"@ + two_digits(seconds)
    } else {
        two_digits(minutes) + ":"@ + two_digits(seconds)
    }
}

/// Format a whole number of seconds as `MM:SS`, or `HH:MM:SS` from one hour
/// on.
pub fn format_timestamp(total_seconds: u64) -> (s: String)
    ensures
        s@ == timestamp_text(total_seconds as nat),
{
    let hours = total_seconds / 3600;
    let minutes = (total_seconds % 3600) / 60;
    let seconds = total_seconds % 60;
    let mut s = String::new();
    if hours > 0 {
        push_two_digits(&mut s, hours);
        push_str(&mut s, ":");
    }
    push_two_digits(&mut s, minutes);
    push_str(&mut s, ":");
    push_two_digits(&mut s, seconds);
    s
}

/// A decimal digit character stands for its value.
proof fn lemma_digit_value(d: nat)
    requires
        d < 10,
    ensures
        '0' <= hex_digit(d) <= '9',
        hex_digit(d) as int - '0' as int == d,
{
    assert('0' as int == 48 && '1' as int == 49 && '2' as int == 50 && '3' as int == 51 && '4' as int == 52);
    assert('5' as int == 53 && '6' as int == 54 && '7' as int == 55 && '8' as int == 56 && '9' as int == 57);
}

/// Decimal digits read back as the number they write.
proof fn lemma_decimal_reads_back(n: nat)
    ensures
        decimal(n).len() >= 1,
        n >= 10 ==> decimal(n).len() >= 2,
        n < 100 ==> decimal(n).len() <= 2,
        all_digits(decimal(n)),
        digits_value(decimal(n)) == n,
    decreases n,
{
    let d = decimal(n);
    lemma_digit_value(n % 10);
    assert(digits_value(Seq::<char>::empty()) == 0);
    if n < 10 {
        assert(d.drop_last() =~= Seq::<char>::empty());
        assert(d[0] == hex_digit(n));
        assert(d.last() == hex_digit(n));
        assert(n % 10 == n);
        assert(digits_value(d) == 10 * digits_value(d.drop_last()) + (d.last() as int - '0' as int));
    } else {
        lemma_decimal_reads_back(n / 10);
        assert(d.drop_last() =~= decimal(n / 10));
        assert(d.last() == hex_digit(n % 10));
        assert(10 * (n / 10) + n % 10 == n);
        assert(digits_value(d) == 10 * digits_value(d.drop_last()) + (d.last() as int - '0' as int));
        assert forall|i: int| 0 <= i < d.len() implies '0' <= #[trigger] d[i] <= '9' by {
            if i < d.len() - 1 {
                assert(d[i] == decimal(n / 10)[i]);
            }
        }
    }
}

/// A field of at least two digits reads back as its number; below 100 it
/// is exactly two digits.
proof fn lemma_two_digits_read_back(n: nat)
    ensures
        two_digits(n).len() >= 2,
        n < 100 ==> two_digits(n).len() == 2,
        all_digits(two_digits(n)),
        digits_value(two_digits(n)) == n,
{
    lemma_decimal_reads_back(n);
    if n < 10 {
        lemma_digit_value(n);
        let t = two_digits(n);
        assert(t.drop_last() =~= seq!['0']);
        assert(seq!['0'].drop_last() =~= Seq::<char>::empty());
        assert(t.last() == decimal(n)[0]);
        assert(digits_value(Seq::<char>::empty()) == 0);
        assert(digits_value(seq!['0']) == 0);
        assert(digits_value(t) == 10 * digits_value(t.drop_last()) + (t.last() as int - '0' as int));
        assert forall|i: int| 0 <= i < t.len() implies '0' <= #[trigger] t[i] <= '9' by {
            if i == 1 {
                assert(t[1] == decimal(n)[0]);
            }
        }
    }
}

/// A printed timestamp reads back as the time it stands for: below an hour
/// it is `MM:SS`, two-digit minutes and seconds with `minutes * 60 +
/// seconds` the total; from an hour on it is `H..:MM:SS`, the last two
/// fields two-digit minutes and seconds under 60, with `hours * 3600 +
/// minutes * 60 + seconds` the total.
pub proof fn timestamp_reads_back(total: nat)
    ensures
        ({
            let t = timestamp_text(total);
            if total < 3600 {
                &&& t.len() == 5
                &&& t[2] == ':'
                &&& all_digits(t.subrange(0, 2)) && all_digits(t.subrange(3, 5))
                &&& digits_value(t.subrange(3, 5)) < 60
                &&& digits_value(t.subrange(0, 2)) * 60 + digits_value(t.subrange(3, 5)) == total
            } else {
                &&& t.len() >= 8
                &&& t[t.len() - 6] == ':'
                &&& t[t.len() - 3] == ':'
                &&& all_digits(t.subrange(0, t.len() - 6))
                &&& all_digits(t.subrange(t.len() - 5, t.len() - 3))
                &&& all_digits(t.subrange(t.len() - 2, t.len() as int))
                &&& digits_value(t.subrange(t.len() - 5, t.len() - 3)) < 60
                &&& digits_value(t.subrange(t.len() - 2, t.len() as int)) < 60
                &&& digits_value(t.subrange(0, t.len() - 6)) * 3600
                    + digits_value(t.subrange(t.len() - 5, t.len() - 3)) * 60
                    + digits_value(t.subrange(t.len() - 2, t.len() as int)) == total
            }
        }),
{
    let hours = total / 3600;
    let minutes = (total % 3600) / 60;
    let seconds = total % 60;
    lemma_two_digits_read_back(hours);
    lemma_two_digits_read_back(minutes);
    lemma_two_digits_read_back(seconds);
    reveal_strlit(":");
    let t = timestamp_text(total);
    let mm = two_digits(minutes);
    let ss = two_digits(seconds);
    if total < 3600 {
        assert(t =~= mm + ":"@ + ss);
        assert(t.subrange(0, 2) =~= mm);
        assert(t.subrange(3, 5) =~= ss);
    } else {
        let hh = two_digits(hours);
        assert(t =~= hh + ":"@ + mm + ":"@ + ss);
        assert(t.subrange(0, t.len() - 6) =~= hh);
        assert(t.subrange(t.len() - 5, t.len() - 3) =~= mm);
        assert(t.subrange(t.len() - 2, t.len() as int) =~= ss);
    }
}

/// A transcript segment ready to be printed: its start (whole seconds), its
/// speaker and its text.
pub struct SegmentLine {
    pub start_seconds: u64,
    pub speaker: String,
    pub text: String,
}

/// `[timestamp] speaker: text`.
pub open spec fn segment_line_text(start: nat, speaker: Seq<char>, text: Seq<char>) -> Seq<char> {
    "["@ + timestamp_text(start) + "] "@ + speaker + ": "@ + text
}

/// The printed lines of a sequence of segments.
pub open spec fn segment_lines(segs: Seq<SegmentLine>) -> Seq<Seq<char>> {
    Seq::new(segs.len(), |i: int| segment_line_text(segs[i].start_seconds as nat, segs[i].speaker@, segs[i].text@))
}

/// Format transcript segments one per line as `[timestamp] speaker: text`.
pub fn format_transcript_segments(segments: &Vec<SegmentLine>) -> (s: String)
    ensures
        s@ == join(segment_lines(segments@), "\n"@),
{
    let mut s = String::new();
    let mut i: usize = 0;
    while i < segments.len()
        invariant
            0 <= i <= segments.len(),
            s@ == join(segment_lines(segments@).take(i as int), "\n"@),
        decreases segments.len() - i,
    {
        if i > 0 {
            push_str(&mut s, "\n");
        }
        let seg = &segments[i];
        push_str(&mut s, "[");
        let ts = format_timestamp(seg.start_seconds);
        push_str(&mut s, ts.as_str());
        push_str(&mut s, "] ");
        push_str(&mut s, seg.speaker.as_str());
        push_str(&mut s, ": ");
        push_str(&mut s, seg.text.as_str());
        assert(segment_lines(segments@).take(i + 1).drop_last() =~= segment_lines(segments@).take(i as int));
        assert(segment_lines(segments@)[i as int] == segment_line_text(seg.start_seconds as nat, seg.speaker@, seg.text@));
        i += 1;
    }
    assert(segment_lines(segments@).take(segments.len() as int) =~= segment_lines(segments@));
    s
}

// ---------------------------------------------------------------------------
// Assembling a transcript
// ---------------------------------------------------------------------------

/// Samples Whisper is fed at once: 30 seconds at 16 kHz.
pub const MAX_AUDIO_SAMPLES: usize = 30 * 16000;

/// The speaker every segment gets until diarization tells speakers apart.
pub const DEFAULT_SPEAKER: &'static str = "Speaker 1";

/// How many source frames make one window of `MAX_AUDIO_SAMPLES` samples at
/// 16 kHz: `30 * sample_rate`, at least 1.
pub fn window_source_frames(sample_rate: u32) -> (r: usize)
    requires
        30 * sample_rate <= usize::MAX,
    ensures
        r == if sample_rate == 0 { 1 } else { 30 * sample_rate },
{
    if sample_rate == 0 {
        1
    } else {
        30 * (sample_rate as usize)
    }
}

/// The text a segment contributes: its trimmed text, or nothing when that is
/// empty.
pub open spec fn kept_segment_text(raw: Seq<char>) -> Option<Seq<char>> {
    if trim(raw).len() == 0 {
        None
    } else {
        Some(trim(raw))
    }
}

/// The trimmed text of a recognized segment; `None` when it is blank and the
/// segment is skipped.
pub fn segment_text(raw: &str) -> (r: Option<String>)
    ensures
        match r {
            Some(t) => kept_segment_text(raw@) == Some(t@),
            None => kept_segment_text(raw@) is None,
        },
{
    let t = trimmed(&chars_of(raw));
    if t.len() == 0 {
        None
    } else {
        Some(string_of(&t))
    }
}

/// Each text followed by a space, all run together.
pub open spec fn spaced(texts: Seq<Seq<char>>) -> Seq<char>
    decreases texts.len(),
{
    if texts.len() == 0 {
        Seq::empty()
    } else {
        spaced(texts.drop_last()) + texts.last() + " "@
    }
}

/// The full transcript text: the segment texts, each followed by a space,
/// trimmed.
pub fn transcript_text(texts: &Vec<String>) -> (r: String)
    ensures
        r@ == trim(spaced(string_views(texts@))),
{
    let ghost ts = string_views(texts@);
    let mut all = String::new();
    let mut i: usize = 0;
    while i < texts.len()
        invariant
            0 <= i <= texts.len(),
            ts == string_views(texts@),
            all@ == spaced(ts.take(i as int)),
        decreases texts.len() - i,
    {
        push_str(&mut all, texts[i].as_str());
        push_str(&mut all, " ");
        assert(ts.take(i + 1).drop_last() =~= ts.take(i as int));
        assert(ts[i as int] == texts@[i as int]@);
        i += 1;
    }
    assert(ts.take(texts.len() as int) =~= ts);
    string_of(&trimmed(&chars_of(all.as_str())))
}

/// At least two different labels occur.
pub open spec fn several_speakers(labels: Seq<Seq<char>>) -> bool {
    exists|i: int, j: int| 0 <= i < labels.len() && 0 <= j < labels.len() && labels[i] != labels[j]
}

/// The speaker of each of `count` segments after diarization produced
/// `labels`: the labels when there is one per segment and they name more
/// than one speaker; otherwise every segment keeps the default speaker, so a
/// monologue is not shown as multi-speaker analysis.
pub open spec fn speakers_after(count: nat, labels: Seq<Seq<char>>) -> Seq<Seq<char>> {
    if labels.len() == count && several_speakers(labels) {
        labels
    } else {
        Seq::new(count, |i: int| DEFAULT_SPEAKER@)
    }
}

/// Every segment gets exactly one speaker, and the diarization labels are
/// used only when they tell at least two speakers apart.
pub proof fn speakers_cover_every_segment(count: nat, labels: Seq<Seq<char>>)
    ensures
        speakers_after(count, labels).len() == count,
        speakers_after(count, labels) != labels ==> forall|i: int|
            0 <= i < count ==> #[trigger] speakers_after(count, labels)[i] == DEFAULT_SPEAKER@,
        speakers_after(count, labels) == labels && labels != Seq::new(count, |i: int| DEFAULT_SPEAKER@)
            ==> several_speakers(labels),
{
}

/// Whether two labels differ.
fn has_two_labels(labels: &Vec<String>) -> (r: bool)
    ensures
        r == several_speakers(string_views(labels@)),
{
    let ghost ls = string_views(labels@);
    if labels.len() == 0 {
        return false;
    }
    let mut i: usize = 1;
    while i < labels.len()
        invariant
            1 <= i <= labels.len(),
            ls == string_views(labels@),
            forall|k: int| 0 <= k < i ==> #[trigger] ls[k] == ls[0],
        decreases labels.len() - i,
    {
        if !str_eq(labels[i].as_str(), labels[0].as_str()) {
            assert(ls[i as int] != ls[0]);
            return true;
        }
        i += 1;
    }
    assert forall|a: int, b: int| 0 <= a < ls.len() && 0 <= b < ls.len() implies ls[a] == ls[b] by {
        assert(ls[a] == ls[0]);
        assert(ls[b] == ls[0]);
    }
    false
}

/// The speaker of each of `count` segments after diarization produced
/// `labels`.
pub fn diarized_speakers(count: usize, labels: &Vec<String>) -> (r: Vec<String>)
    ensures
        string_views(r@) == speakers_after(count as nat, string_views(labels@)),
{
    let ghost ls = string_views(labels@);
    let mut out: Vec<String> = Vec::new();
    if labels.len() == count && has_two_labels(labels) {
        let mut i: usize = 0;
        while i < labels.len()
            invariant
                0 <= i <= labels.len(),
                ls == string_views(labels@),
                string_views(out@) == ls.take(i as int),
            decreases labels.len() - i,
        {
            let mut l = String::new();
            push_str(&mut l, labels[i].as_str());
            let ghost prev = string_views(out@);
            out.push(l);
            assert(string_views(out@) =~= ls.take(i + 1)) by {
                assert(string_views(out@) =~= prev.push(ls[i as int]));
            }
            i += 1;
        }
        assert(ls.take(labels.len() as int) =~= ls);
    } else {
        let mut i: usize = 0;
        while i < count
            invariant
                0 <= i <= count,
                string_views(out@) =~= Seq::new(i as nat, |k: int| DEFAULT_SPEAKER@),
            decreases count - i,
        {
            let mut l = String::new();
            push_str(&mut l, DEFAULT_SPEAKER);
            let ghost prev = string_views(out@);
            out.push(l);
            assert(string_views(out@) =~= prev.push(DEFAULT_SPEAKER@));
            i += 1;
        }
    }
    out
}

} // verus!
