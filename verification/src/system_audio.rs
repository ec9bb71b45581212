//! System-audio capture through the BlackHole virtual audio driver: reading
//! the audio device names out of `system_profiler` output, and recognizing
//! BlackHole among them.
//!
//! Running `system_profiler` and the installers happens outside the
//! library; this module decides what their output means.
use vstd::prelude::*;

use crate::json::{parse_json, serde_json_document, JsonValue};
use crate::text::{
    str_contains, str_lowercase, to_lowercase, ascii_lower_seq, chars_eq, chars_of, contains, has_substring, lines, lower_ascii_char, push_range, push_str,
    split_lines, string_of, trim, trim_bounds, views,
};

verus! {

/// BlackHole virtual audio driver name.
pub const BLACKHOLE_DRIVER_NAME: &'static str = "BlackHole2ch";

/// BlackHole bundle identifier.
pub const BLACKHOLE_BUNDLE_ID: &'static str = "audio.existential.BlackHole2ch";

/// File name of the bundled BlackHole installer package.
pub const BUNDLED_PKG_NAME: &'static str = "BlackHole2ch-0.6.0.pkg";

/// Installation method used for BlackHole.
#[derive(Debug, Clone, Copy, PartialEq, Eq, Structural)]
pub enum BlackHoleInstallMethod {
    Bundled,
    Homebrew,
    Manual,
    AlreadyInstalled,
}

/// ASCII lowercase of a string's characters.
fn lower_chars(v: &Vec<char>) -> (r: Vec<char>)
    ensures
        r@ == ascii_lower_seq(v@),
{
    let mut r: Vec<char> = Vec::new();
    let mut i: usize = 0;
    while i < v.len()
        invariant
            0 <= i <= v.len(),
            r@ == ascii_lower_seq(v@.take(i as int)),
        decreases v.len() - i,
    {
        r.push(lower_ascii_char(v[i]));
        assert(r@ =~= ascii_lower_seq(v@.take(i + 1)));
        i += 1;
    }
    assert(v@.take(v.len() as int) =~= v@);
    r
}

/// A device name that names BlackHole, in any ASCII case.
pub open spec fn names_blackhole(name: Seq<char>) -> bool {
    has_substring(ascii_lower_seq(name), "blackhole"@)
}

/// Whether a device name names BlackHole.
pub fn is_blackhole_device_name(name: &str) -> (r: bool)
    ensures
        r == names_blackhole(name@),
{
    contains(&lower_chars(&chars_of(name)), &chars_of("blackhole"))
}

/// The keys under which `system_profiler` reports a device's name.
pub open spec fn device_name_keys() -> Seq<Seq<char>> {
    seq!["_name"@, "name"@, "device_name"@, "coreaudio_device_name"@, "spaudio_device_name"@, "spaudio_name"@]
}

/// A key that holds a device name, in any ASCII case.
pub open spec fn is_name_key(key: Seq<char>) -> bool {
    device_name_keys().contains(ascii_lower_seq(key))
}

/// Whether a JSON key holds a device name.
pub fn is_audio_device_name_key(key: &str) -> (r: bool)
    ensures
        r == is_name_key(key@),
{
    let lowered = lower_chars(&chars_of(key));
    let keys = [
        "_name",
        "name",
        "device_name",
        "coreaudio_device_name",
        "spaudio_device_name",
        "spaudio_name",
    ];
    let mut i: usize = 0;
    while i < 6
        invariant
            0 <= i <= 6,
            lowered@ == ascii_lower_seq(key@),
            forall|k: int| 0 <= k < 6 ==> #[trigger] keys@[k]@ == device_name_keys()[k],
            forall|k: int| 0 <= k < i ==> device_name_keys()[k] != lowered@,
        decreases 6 - i,
    {
        if chars_eq(&lowered, &chars_of(keys[i])) {
            assert(device_name_keys()[i as int] == lowered@);
            return true;
        }
        i += 1;
    }
    assert forall|k: int| 0 <= k < device_name_keys().len() implies device_name_keys()[k] != lowered@ by {}
    false
}

// ---------------------------------------------------------------------------
// Text output
// ---------------------------------------------------------------------------

/// Headings of the text output that are not devices.
pub open spec fn is_section_heading(lower: Seq<char>) -> bool {
    lower == "audio"@ || lower == "devices"@ || lower == "input"@ || lower == "output"@ || lower == "system profiler"@
}

/// The device a text line is the heading of: a line ending in `:` whose
/// text before it is not empty, has no `:`, and is not a section heading.
pub open spec fn text_heading(line: Seq<char>) -> Option<Seq<char>> {
    let t = trim(line);
    if t.len() > 0 && t.last() == ':' {
        let h = trim(t.drop_last());
        if h.len() == 0 || h.contains(':') || is_section_heading(ascii_lower_seq(h)) {
            None
        } else {
            Some(h)
        }
    } else {
        None
    }
}

/// Whether `v[lo..hi]` contains `c`.
fn range_has(v: &Vec<char>, lo: usize, hi: usize, c: char) -> (r: bool)
    requires
        lo <= hi <= v.len(),
    ensures
        r == v@.subrange(lo as int, hi as int).contains(c),
{
    let mut i = lo;
    while i < hi
        invariant
            lo <= i <= hi <= v.len(),
            forall|k: int| lo <= k < i ==> v@[k] != c,
        decreases hi - i,
    {
        if v[i] == c {
            assert(v@.subrange(lo as int, hi as int)[i - lo] == c);
            return true;
        }
        i += 1;
    }
    assert forall|k: int| 0 <= k < hi - lo implies v@.subrange(lo as int, hi as int)[k] != c by {
        assert(v@.subrange(lo as int, hi as int)[k] == v@[lo + k]);
    }
    false
}

/// The device name a text heading line gives.
pub fn extract_text_device_heading(line: &str) -> (r: Option<String>)
    ensures
        match r {
            Some(h) => text_heading(line@) == Some(h@),
            None => text_heading(line@) is None,
        },
{
    let v = chars_of(line);
    let (a, b) = trim_bounds(&v, 0, v.len());
    assert(v@.subrange(0, v@.len() as int) =~= v@);
    if !(a < b && v[b - 1] == ':') {
        return None;
    }
    assert(v@.subrange(a as int, b as int).drop_last() =~= v@.subrange(a as int, b - 1));
    let (ha, hb) = trim_bounds(&v, a, b - 1);
    if ha == hb || range_has(&v, ha, hb, ':') {
        return None;
    }
    let heading = slice_chars(&v, ha, hb);
    let lower = lower_chars(&heading);
    if chars_eq(&lower, &chars_of("audio")) || chars_eq(&lower, &chars_of("devices")) || chars_eq(&lower, &chars_of("input"))
        || chars_eq(&lower, &chars_of("output")) || chars_eq(&lower, &chars_of("system profiler")) {
        return None;
    }
    Some(string_of(&heading))
}

/// A copy of `v[lo..hi]`.
fn slice_chars(v: &Vec<char>, lo: usize, hi: usize) -> (r: Vec<char>)
    requires
        lo <= hi <= v.len(),
    ensures
        r@ == v@.subrange(lo as int, hi as int),
{
    crate::text::slice_vec(v, lo, hi)
}

/// `s` without leading and trailing `"`.
pub open spec fn trim_quotes(s: Seq<char>) -> Seq<char> {
    trim_quotes_end(trim_quotes_start(s))
}

/// `s` without leading `"`.
pub open spec fn trim_quotes_start(s: Seq<char>) -> Seq<char>
    decreases s.len(),
{
    if s.len() > 0 && s[0] == '"' {
        trim_quotes_start(s.drop_first())
    } else {
        s
    }
}

/// `s` without trailing `"`.
pub open spec fn trim_quotes_end(s: Seq<char>) -> Seq<char>
    decreases s.len(),
{
    if s.len() > 0 && s.last() == '"' {
        trim_quotes_end(s.drop_last())
    } else {
        s
    }
}

/// `s` without trailing `,`.
pub open spec fn trim_commas_end(s: Seq<char>) -> Seq<char>
    decreases s.len(),
{
    if s.len() > 0 && s.last() == ',' {
        trim_commas_end(s.drop_last())
    } else {
        s
    }
}

/// The quoted value of a `"key": "value",` line, quotes included, when its
/// key names a device; `None` for other lines.
pub open spec fn quoted_name_value(line: Seq<char>) -> Option<Seq<char>> {
    match crate::llm::first_index_of(line, ':') {
        Some(i) => {
            let key = trim_quotes(trim(line.take(i)));
            let value = trim_commas_end(trim(line.skip(i + 1)));
            if is_name_key(key) && value.len() > 0 && value[0] == '"' && value.last() == '"' {
                Some(value)
            } else {
                None
            }
        },
        None => None,
    }
}

/// The device name a JSON-looking line gives: its quoted value, unescaped
/// as a JSON string by serde_json.
pub open spec fn json_line_name(line: Seq<char>) -> Option<Seq<char>> {
    match quoted_name_value(line) {
        Some(q) => match serde_json_document("\""@ + q.subrange(1, q.len() - 1) + "\""@) {
            Some(JsonValue::Str(s)) => Some(s@),
            _ => None,
        },
        None => None,
    }
}

/// The value of a name line is a lone `"`, which has no inside to unescape.
pub open spec fn lone_quote_value(line: Seq<char>) -> bool {
    quoted_name_value(line) matches Some(q) && q.len() == 1
}

/// Where the quoted value of a name line lies: the bounds of
/// `quoted_name_value(line)` within the line's characters.
fn quoted_name_bounds(v: &Vec<char>) -> (r: Option<(usize, usize)>)
    ensures
        match r {
            Some((a, b)) => a < b <= v.len() && quoted_name_value(v@) == Some(v@.subrange(a as int, b as int)),
            None => quoted_name_value(v@) is None,
        },
{
    assert(v@.subrange(0, v@.len() as int) =~= v@);
    let colon = match crate::llm::find_char(&v, 0, v.len(), ':') {
        Some(i) => i,
        None => return None,
    };
    // key: trimmed, then quotes trimmed from both ends
    let (ka, kb) = trim_bounds(&v, 0, colon);
    let mut qa = ka;
    while qa < kb && v[qa] == '"'
        invariant
            ka <= qa <= kb <= v.len(),
            trim_quotes_start(v@.subrange(ka as int, kb as int)) == trim_quotes_start(v@.subrange(qa as int, kb as int)),
        decreases kb - qa,
    {
        assert(v@.subrange(qa as int, kb as int).drop_first() =~= v@.subrange(qa + 1, kb as int));
        qa += 1;
    }
    let mut qb = kb;
    while qb > qa && v[qb - 1] == '"'
        invariant
            ka <= qa <= qb <= kb <= v.len(),
            trim_quotes_start(v@.subrange(ka as int, kb as int)) == v@.subrange(qa as int, kb as int),
            trim_quotes(v@.subrange(ka as int, kb as int)) == trim_quotes_end(v@.subrange(qa as int, qb as int)),
        decreases qb - qa,
    {
        assert(v@.subrange(qa as int, qb as int).drop_last() =~= v@.subrange(qa as int, qb - 1));
        qb -= 1;
    }
    assert(v@.take(colon as int) =~= v@.subrange(0, colon as int));
    let mut key_text = String::new();
    push_range(&mut key_text, &v, qa, qb);
    if !is_audio_device_name_key(key_text.as_str()) {
        return None;
    }
    // value: trimmed, then trailing commas removed
    let (va, vb0) = trim_bounds(&v, colon + 1, v.len());
    assert(v@.skip(colon + 1) =~= v@.subrange(colon + 1, v@.len() as int));
    let mut vb = vb0;
    while vb > va && v[vb - 1] == ','
        invariant
            va <= vb <= vb0 <= v.len(),
            trim_commas_end(v@.subrange(va as int, vb0 as int)) == trim_commas_end(v@.subrange(va as int, vb as int)),
        decreases vb - va,
    {
        assert(v@.subrange(va as int, vb as int).drop_last() =~= v@.subrange(va as int, vb - 1));
        vb -= 1;
    }
    if !(va < vb && v[va] == '"' && v[vb - 1] == '"') {
        return None;
    }
    Some((va, vb))
}

/// Whether a line's name value is a lone `"`.
pub fn is_lone_quote_line(line: &str) -> (r: bool)
    ensures
        r == lone_quote_value(line@),
{
    let v = chars_of(line);
    match quoted_name_bounds(&v) {
        Some((a, b)) => b - a == 1,
        None => false,
    }
}

/// Whether some line of the output has a lone `"` as a name value.
pub fn has_lone_quote_line(stdout: &str) -> (r: bool)
    ensures
        r == !no_lone_quote_lines(stdout@),
{
    let ls = split_lines(&chars_of(stdout));
    let mut i: usize = 0;
    while i < ls.len()
        invariant
            0 <= i <= ls.len(),
            views(ls@) == lines(stdout@),
            forall|k: int| 0 <= k < i ==> !lone_quote_value(#[trigger] lines(stdout@)[k]),
        decreases ls.len() - i,
    {
        let line = string_of(&ls[i]);
        assert(views(ls@)[i as int] == line@);
        if is_lone_quote_line(line.as_str()) {
            assert(lone_quote_value(lines(stdout@)[i as int]));
            return true;
        }
        i += 1;
    }
    false
}

/// Extract a device name from a `"key": "value",` line whose key names a
/// device.
pub fn extract_json_string_value(line: &str) -> (r: Option<String>)
    requires
        !lone_quote_value(line@),
    ensures
        match r {
            Some(name) => json_line_name(line@) == Some(name@),
            None => json_line_name(line@) is None,
        },
{
    let v = chars_of(line);
    let (va, vb) = match quoted_name_bounds(&v) {
        Some(bounds) => bounds,
        None => return None,
    };
    let ghost q = v@.subrange(va as int, vb as int);
    // a lone quote is excluded by the precondition, so the inside is well formed
    assert(vb - va >= 2);
    let mut literal = String::new();
    push_str(&mut literal, "\"");
    push_range(&mut literal, &v, va + 1, vb - 1);
    push_str(&mut literal, "\"");
    assert(q.subrange(1, q.len() - 1) =~= v@.subrange(va + 1, vb - 1));
    match parse_json(literal.as_str()) {
        Some(JsonValue::Str(s)) => Some(s),
        _ => None,
    }
}

/// The device names found in text output, line by line, in order.
pub open spec fn text_names(ls: Seq<Seq<char>>) -> Seq<Seq<char>>
    decreases ls.len(),
{
    if ls.len() == 0 {
        Seq::empty()
    } else {
        let prev = text_names(ls.drop_last());
        match json_line_name(ls.last()) {
            Some(n) => prev.push(n),
            None => match text_heading(ls.last()) {
                Some(h) => prev.push(h),
                None => prev,
            },
        }
    }
}

/// No line of the output has a lone `"` as the value of a name key.
pub open spec fn no_lone_quote_lines(stdout: Seq<char>) -> bool {
    forall|i: int| 0 <= i < lines(stdout).len() ==> !lone_quote_value(#[trigger] lines(stdout)[i])
}

// ---------------------------------------------------------------------------
// De-duplication
// ---------------------------------------------------------------------------

/// Names after dropping each name whose ASCII-lowercase form occurred
/// earlier.
pub open spec fn dedupe(ds: Seq<Seq<char>>) -> Seq<Seq<char>>
    decreases ds.len(),
{
    if ds.len() == 0 {
        Seq::empty()
    } else {
        let prev = dedupe(ds.drop_last());
        if exists|j: int| 0 <= j < ds.len() - 1 && ascii_lower_seq(ds[j]) == ascii_lower_seq(ds.last()) {
            prev
        } else {
            prev.push(ds.last())
        }
    }
}

/// Keep the first of each group of names that differ only in ASCII case.
pub fn dedupe_device_names(devices: Vec<String>) -> (r: Vec<String>)
    ensures
        crate::llm::string_views(r@) == dedupe(crate::llm::string_views(devices@)),
{
    let ghost ds = crate::llm::string_views(devices@);
    let mut keys: Vec<Vec<char>> = Vec::new();
    let mut i: usize = 0;
    while i < devices.len()
        invariant
            0 <= i <= devices.len(),
            ds == crate::llm::string_views(devices@),
            keys@.len() == i,
            forall|k: int| 0 <= k < i ==> #[trigger] keys@[k]@ == ascii_lower_seq(ds[k]),
        decreases devices.len() - i,
    {
        keys.push(lower_chars(&chars_of(devices[i].as_str())));
        i += 1;
    }
    let mut out: Vec<String> = Vec::new();
    let mut i: usize = 0;
    while i < devices.len()
        invariant
            0 <= i <= devices.len(),
            ds == crate::llm::string_views(devices@),
            keys@.len() == devices.len(),
            forall|k: int| 0 <= k < devices.len() ==> #[trigger] keys@[k]@ == ascii_lower_seq(ds[k]),
            crate::llm::string_views(out@) == dedupe(ds.take(i as int)),
        decreases devices.len() - i,
    {
        let ghost done = ds.take(i + 1);
        assert(done.drop_last() =~= ds.take(i as int));
        let mut seen = false;
        let mut j: usize = 0;
        while j < i
            invariant
                0 <= j <= i < devices.len(),
                keys@.len() == devices.len(),
                forall|k: int| 0 <= k < devices.len() ==> #[trigger] keys@[k]@ == ascii_lower_seq(ds[k]),
                seen == exists|k: int| 0 <= k < j && ascii_lower_seq(ds[k]) == ascii_lower_seq(ds[i as int]),
            decreases i - j,
        {
            if !seen && chars_eq(&keys[j], &keys[i]) {
                seen = true;
            }
            proof {
                if ascii_lower_seq(ds[j as int]) == ascii_lower_seq(ds[i as int]) {
                    assert(keys@[j as int]@ == keys@[i as int]@);
                }
            }
            j += 1;
        }
        proof {
            assert forall|k: int| 0 <= k < done.len() - 1 implies done[k] == ds[k] by {}
            assert(done.last() == ds[i as int]);
            if seen {
                let k = choose|k: int| 0 <= k < i && ascii_lower_seq(ds[k]) == ascii_lower_seq(ds[i as int]);
                assert(ascii_lower_seq(done[k]) == ascii_lower_seq(done.last()));
            } else {
                assert(!exists|k: int| 0 <= k < done.len() - 1 && ascii_lower_seq(done[k]) == ascii_lower_seq(done.last()));
            }
        }
        if !seen {
            let mut copy = String::new();
            push_str(&mut copy, devices[i].as_str());
            let ghost before = crate::llm::string_views(out@);
            out.push(copy);
            assert(crate::llm::string_views(out@) =~= before.push(ds[i as int]));
        }
        i += 1;
    }
    assert(ds.take(devices.len() as int) =~= ds);
    out
}

/// Some kept name has the ASCII-lowercase form `key`.
pub open spec fn name_kept(out: Seq<Seq<char>>, key: Seq<char>) -> bool {
    exists|k: int| 0 <= k < out.len() && ascii_lower_seq(#[trigger] out[k]) == key
}

/// Every name kept is the first of its ASCII-case group: no two kept names
/// differ only in ASCII case, and every name's group is represented.
pub proof fn dedupe_keeps_one_per_name(ds: Seq<Seq<char>>)
    ensures
        forall|a: int, b: int| 0 <= a < b < dedupe(ds).len() ==> ascii_lower_seq(#[trigger] dedupe(ds)[a]) != ascii_lower_seq(#[trigger] dedupe(ds)[b]),
        forall|i: int| 0 <= i < ds.len() ==> #[trigger] name_kept(dedupe(ds), ascii_lower_seq(ds[i])),
    decreases ds.len(),
{
    if ds.len() > 0 {
        let prev_in = ds.drop_last();
        dedupe_keeps_one_per_name(prev_in);
        let prev = dedupe(prev_in);
        let last = ds.last();
        if exists|j: int| 0 <= j < ds.len() - 1 && ascii_lower_seq(ds[j]) == ascii_lower_seq(last) {
            assert forall|i: int| 0 <= i < ds.len() implies #[trigger] name_kept(dedupe(ds), ascii_lower_seq(ds[i])) by {
                if i < ds.len() - 1 {
                    assert(ds[i] == prev_in[i]);
                    assert(name_kept(prev, ascii_lower_seq(prev_in[i])));
                } else {
                    let j = choose|j: int| 0 <= j < ds.len() - 1 && ascii_lower_seq(ds[j]) == ascii_lower_seq(last);
                    assert(ds[j] == prev_in[j]);
                    assert(name_kept(prev, ascii_lower_seq(prev_in[j])));
                }
            }
        } else {
            let out = prev.push(last);
            assert(dedupe(ds) == out);
            lemma_dedupe_from_input(prev_in);
            assert forall|a: int, b: int| 0 <= a < b < out.len() implies ascii_lower_seq(#[trigger] out[a]) != ascii_lower_seq(#[trigger] out[b]) by {
                if b == out.len() - 1 {
                    assert(out[a] == prev[a]);
                    let j = choose|j: int| 0 <= j < prev_in.len() && prev_in[j] == prev[a];
                    assert(ds[j] == prev_in[j]);
                }
            }
            assert forall|i: int| 0 <= i < ds.len() implies #[trigger] name_kept(out, ascii_lower_seq(ds[i])) by {
                if i < ds.len() - 1 {
                    assert(ds[i] == prev_in[i]);
                    assert(name_kept(prev, ascii_lower_seq(prev_in[i])));
                    let k = choose|k: int| 0 <= k < prev.len() && ascii_lower_seq(#[trigger] prev[k]) == ascii_lower_seq(prev_in[i]);
                    assert(out[k] == prev[k]);
                } else {
                    assert(out[out.len() - 1] == last);
                }
            }
        }
    }
}

/// Every kept name is one of the input names.
proof fn lemma_dedupe_from_input(ds: Seq<Seq<char>>)
    ensures
        forall|a: int| 0 <= a < dedupe(ds).len() ==> exists|j: int| 0 <= j < ds.len() && ds[j] == #[trigger] dedupe(ds)[a],
    decreases ds.len(),
{
    if ds.len() > 0 {
        lemma_dedupe_from_input(ds.drop_last());
        assert forall|a: int| 0 <= a < dedupe(ds).len() implies exists|j: int| 0 <= j < ds.len() && ds[j] == #[trigger] dedupe(ds)[a] by {
            let prev = dedupe(ds.drop_last());
            if a < prev.len() {
                assert(dedupe(ds)[a] == prev[a]);
                let j = choose|j: int| 0 <= j < ds.drop_last().len() && ds.drop_last()[j] == #[trigger] prev[a];
                assert(ds[j] == ds.drop_last()[j]);
            } else {
                assert(dedupe(ds)[a] == ds.last());
                assert(ds[ds.len() - 1] == ds.last());
            }
        }
    }
}

// ---------------------------------------------------------------------------
// Whole outputs
// ---------------------------------------------------------------------------

/// The device names in the text output of `system_profiler`.
pub open spec fn text_output_devices(stdout: Seq<char>) -> Seq<Seq<char>> {
    dedupe(text_names(lines(stdout)))
}

/// The device names in `system_profiler` text output: JSON-looking
/// `"name": "..."` lines and device heading lines, first spelling of each
/// name kept.
pub fn parse_system_profiler_audio_devices_from_text(stdout: &str) -> (r: Vec<String>)
    requires
        no_lone_quote_lines(stdout@),
    ensures
        crate::llm::string_views(r@) == text_output_devices(stdout@),
{
    let v = chars_of(stdout);
    let ls = split_lines(&v);
    let mut devices: Vec<String> = Vec::new();
    let mut i: usize = 0;
    while i < ls.len()
        invariant
            0 <= i <= ls.len(),
            views(ls@) == lines(stdout@),
            no_lone_quote_lines(stdout@),
            crate::llm::string_views(devices@) == text_names(views(ls@).take(i as int)),
        decreases ls.len() - i,
    {
        let line = string_of(&ls[i]);
        assert(views(ls@)[i as int] == line@);
        assert(!lone_quote_value(lines(stdout@)[i as int]));
        let ghost done = views(ls@).take(i + 1);
        assert(done.drop_last() =~= views(ls@).take(i as int));
        assert(done.last() == line@);
        let ghost before = crate::llm::string_views(devices@);
        match extract_json_string_value(line.as_str()) {
            Some(name) => {
                let ghost n = name@;
                devices.push(name);
                assert(crate::llm::string_views(devices@) =~= before.push(n));
            },
            None => match extract_text_device_heading(line.as_str()) {
                Some(h) => {
                    let ghost n = h@;
                    devices.push(h);
                    assert(crate::llm::string_views(devices@) =~= before.push(n));
                },
                None => {},
            },
        }
        i += 1;
    }
    assert(views(ls@).take(ls.len() as int) =~= views(ls@));
    dedupe_device_names(devices)
}

// ---------------------------------------------------------------------------
// BlackHole among the devices
// ---------------------------------------------------------------------------

/// The first device that names BlackHole.
pub open spec fn first_blackhole(ds: Seq<Seq<char>>) -> Option<Seq<char>>
    decreases ds.len(),
{
    if ds.len() == 0 {
        None
    } else if names_blackhole(ds[0]) {
        Some(ds[0])
    } else {
        first_blackhole(ds.drop_first())
    }
}

/// The first device name that names BlackHole, if any.
pub fn find_blackhole_device(devices: &Vec<String>) -> (r: Option<String>)
    ensures
        match r {
            Some(n) => first_blackhole(crate::llm::string_views(devices@)) == Some(n@),
            None => first_blackhole(crate::llm::string_views(devices@)) is None,
        },
{
    let ghost ds = crate::llm::string_views(devices@);
    let mut i: usize = 0;
    assert(ds.skip(0) =~= ds);
    while i < devices.len()
        invariant
            0 <= i <= devices.len(),
            ds == crate::llm::string_views(devices@),
            first_blackhole(ds) == first_blackhole(ds.skip(i as int)),
        decreases devices.len() - i,
    {
        assert(ds.skip(i as int)[0] == devices@[i as int]@);
        assert(ds.skip(i as int).drop_first() =~= ds.skip(i + 1));
        if is_blackhole_device_name(devices[i].as_str()) {
            let mut n = String::new();
            push_str(&mut n, devices[i].as_str());
            return Some(n);
        }
        i += 1;
    }
    None
}

// ---------------------------------------------------------------------------
// JSON output
// ---------------------------------------------------------------------------

/// The device names in a JSON document, in document order: the trimmed,
/// non-empty text values of name keys at any depth.
pub open spec fn names_in(v: JsonValue) -> Seq<Seq<char>>
    decreases v,
{
    match v {
        JsonValue::Array(items, _) => names_in_items(items@),
        JsonValue::Object(es, _) => names_in_entries(es@),
        _ => Seq::empty(),
    }
}

/// The device names in a sequence of array items.
pub open spec fn names_in_items(items: Seq<JsonValue>) -> Seq<Seq<char>>
    decreases items,
{
    if items.len() == 0 {
        Seq::empty()
    } else {
        names_in_items(items.drop_last()) + names_in(items.last())
    }
}

/// The device name an object entry holds directly.
pub open spec fn entry_name(key: Seq<char>, value: JsonValue) -> Seq<Seq<char>> {
    match value {
        JsonValue::Str(t) => if is_name_key(key) && trim(t@).len() > 0 {
            seq![trim(t@)]
        } else {
            Seq::empty()
        },
        _ => Seq::empty(),
    }
}

/// The device names in a sequence of object entries.
pub open spec fn names_in_entries(es: Seq<(String, JsonValue)>) -> Seq<Seq<char>>
    decreases es,
{
    if es.len() == 0 {
        Seq::empty()
    } else {
        names_in_entries(es.drop_last()) + entry_name(es.last().0@, es.last().1) + names_in(es.last().1)
    }
}

/// Append the device names found in a JSON document, in document order.
pub fn collect_audio_device_names(value: &JsonValue, devices: &mut Vec<String>)
    ensures
        crate::llm::string_views(final(devices)@) == crate::llm::string_views(old(devices)@) + names_in(*value),
    decreases value,
{
    match value {
        JsonValue::Array(items, text) => {
            let mut i: usize = 0;
            let ghost start = crate::llm::string_views(devices@);
            assert(items@.take(0) =~= Seq::<JsonValue>::empty());
            while i < items.len()
                invariant
                    0 <= i <= items.len(),
                    crate::llm::string_views(devices@) == start + names_in_items(items@.take(i as int)),
                    *value == JsonValue::Array(*items, *text),
                decreases items.len() - i,
            {
                proof {
                    assert(decreases_to!(*value => value->Array_0));
                    assert(decreases_to!(value->Array_0 => value->Array_0@));
                    assert(decreases_to!(value->Array_0@ => value->Array_0@[i as int]));
                }
                assert(items@.take(i + 1).drop_last() =~= items@.take(i as int));
                assert(items@.take(i + 1).last() == items@[i as int]);
                collect_audio_device_names(&items[i], devices);
                i += 1;
            }
            assert(items@.take(items.len() as int) =~= items@);
        },
        JsonValue::Object(es, text) => {
            let mut i: usize = 0;
            let ghost start = crate::llm::string_views(devices@);
            assert(es@.take(0) =~= Seq::<(String, JsonValue)>::empty());
            while i < es.len()
                invariant
                    0 <= i <= es.len(),
                    crate::llm::string_views(devices@) == start + names_in_entries(es@.take(i as int)),
                    *value == JsonValue::Object(*es, *text),
                decreases es.len() - i,
            {
                proof {
                    assert(decreases_to!(*value => value->Object_0));
                    assert(decreases_to!(value->Object_0 => value->Object_0@));
                    assert(decreases_to!(value->Object_0@ => value->Object_0@[i as int]));
                    assert(decreases_to!(value->Object_0@[i as int] => value->Object_0@[i as int].1));
                }
                assert(es@.take(i + 1).drop_last() =~= es@.take(i as int));
                assert(es@.take(i + 1).last() == es@[i as int]);
                let key = &es[i].0;
                let item = &es[i].1;
                let ghost before = crate::llm::string_views(devices@);
                if is_audio_device_name_key(key.as_str()) {
                    if let JsonValue::Str(t) = item {
                        let tv = chars_of(t.as_str());
                        let (a, b) = trim_bounds(&tv, 0, tv.len());
                        assert(tv@.subrange(0, tv@.len() as int) =~= tv@);
                        if a < b {
                            let mut name = String::new();
                            push_range(&mut name, &tv, a, b);
                            devices.push(name);
                        }
                    }
                }
                assert(crate::llm::string_views(devices@) =~= before + entry_name(key@, *item));
                collect_audio_device_names(item, devices);
                i += 1;
            }
            assert(es@.take(es.len() as int) =~= es@);
        },
        _ => {
            assert(crate::llm::string_views(devices@) =~= crate::llm::string_views(old(devices)@) + names_in(*value));
        },
    }
}

/// The device names in `system_profiler` JSON output, first spelling of
/// each name kept.
pub fn parse_system_profiler_audio_devices_from_json(data: &JsonValue) -> (r: Vec<String>)
    ensures
        crate::llm::string_views(r@) == dedupe(names_in(*data)),
{
    let mut devices: Vec<String> = Vec::new();
    assert(crate::llm::string_views(devices@) =~= Seq::<Seq<char>>::empty());
    collect_audio_device_names(data, &mut devices);
    assert(Seq::<Seq<char>>::empty() + names_in(*data) =~= names_in(*data));
    dedupe_device_names(devices)
}

/// The error for JSON output that names no device.
pub const NO_DEVICE_NAMES_ERROR: &'static str = "system_profiler JSON did not contain audio device names";

/// What `system_profiler` output yields: the device names of its JSON
/// document (an error when there are none), or, when it is not JSON, the
/// device names of its text.
pub open spec fn profiler_devices(stdout: Seq<char>) -> Result<Seq<Seq<char>>, Seq<char>> {
    match serde_json_document(stdout) {
        Some(v) => if dedupe(names_in(v)).len() == 0 {
            Err(NO_DEVICE_NAMES_ERROR@)
        } else {
            Ok(dedupe(names_in(v)))
        },
        None => Ok(text_output_devices(stdout)),
    }
}

/// The device names in the output of `system_profiler SPAudioDataType
/// -json`, falling back to reading it as text when it is not JSON.
pub fn devices_from_profiler_output(stdout: &str) -> (r: Result<Vec<String>, String>)
    requires
        no_lone_quote_lines(stdout@),
    ensures
        match r {
            Ok(ds) => profiler_devices(stdout@) == Ok::<Seq<Seq<char>>, Seq<char>>(crate::llm::string_views(ds@)),
            Err(e) => profiler_devices(stdout@) == Err::<Seq<Seq<char>>, Seq<char>>(e@),
        },
{
    match parse_json(stdout) {
        Some(data) => {
            let devices = parse_system_profiler_audio_devices_from_json(&data);
            if devices.len() == 0 {
                let mut e = String::new();
                push_str(&mut e, NO_DEVICE_NAMES_ERROR);
                Err(e)
            } else {
                Ok(devices)
            }
        },
        None => Ok(parse_system_profiler_audio_devices_from_text(stdout)),
    }
}

/// The error for output with a name value that is a lone quote, which the
/// text reader cannot take apart.
pub const LONE_QUOTE_ERROR: &'static str = "system_profiler output has a name value that is a lone quote";

/// The device names in `system_profiler` output, as
/// [`devices_from_profiler_output`] gives them, or an error when a line's
/// name value is a lone quote.
pub fn checked_devices_from_profiler_output(stdout: &str) -> (r: Result<Vec<String>, String>)
    ensures
        !no_lone_quote_lines(stdout@) ==> (r matches Err(e) && e@ == LONE_QUOTE_ERROR@),
        no_lone_quote_lines(stdout@) ==> match r {
            Ok(ds) => profiler_devices(stdout@) == Ok::<Seq<Seq<char>>, Seq<char>>(crate::llm::string_views(ds@)),
            Err(e) => profiler_devices(stdout@) == Err::<Seq<Seq<char>>, Seq<char>>(e@),
        },
{
    if has_lone_quote_line(stdout) {
        let mut e = String::new();
        push_str(&mut e, LONE_QUOTE_ERROR);
        return Err(e);
    }
    devices_from_profiler_output(stdout)
}

// ---------------------------------------------------------------------------
// Detection
// ---------------------------------------------------------------------------

/// Text that mentions BlackHole, in any case.
pub open spec fn mentions_blackhole(text: Seq<char>) -> bool {
    has_substring(str_lowercase(text), "blackhole"@)
}

/// Some text of the list mentions BlackHole.
pub open spec fn some_mentions_blackhole(ts: Seq<Seq<char>>) -> bool {
    exists|i: int| 0 <= i < ts.len() && #[trigger] mentions_blackhole(ts[i])
}

/// What the three probes show: a listed device names BlackHole; or else the
/// plain `system_profiler SPAudioDataType` output mentions it; or else an
/// entry of the HAL plug-in directory does.
pub open spec fn blackhole_detected(
    listed: Result<Seq<Seq<char>>, Seq<char>>,
    profiler_text: Option<Seq<char>>,
    hal_entries: Seq<Seq<char>>,
) -> bool {
    ||| (listed matches Ok(ds) && first_blackhole(ds) is Some)
    ||| (profiler_text matches Some(t) && mentions_blackhole(t))
    ||| some_mentions_blackhole(hal_entries)
}

/// Some listed device names BlackHole exactly when the first such device
/// exists.
proof fn lemma_first_blackhole_exists(ds: Seq<Seq<char>>)
    ensures
        first_blackhole(ds) is Some <==> exists|i: int| 0 <= i < ds.len() && #[trigger] names_blackhole(ds[i]),
    decreases ds.len(),
{
    if ds.len() > 0 {
        lemma_first_blackhole_exists(ds.drop_first());
        if !names_blackhole(ds[0]) {
            if exists|i: int| 0 <= i < ds.len() && #[trigger] names_blackhole(ds[i]) {
                let i = choose|i: int| 0 <= i < ds.len() && #[trigger] names_blackhole(ds[i]);
                assert(ds.drop_first()[i - 1] == ds[i]);
            }
            if exists|i: int| 0 <= i < ds.drop_first().len() && #[trigger] names_blackhole(ds.drop_first()[i]) {
                let i = choose|i: int| 0 <= i < ds.drop_first().len() && #[trigger] names_blackhole(ds.drop_first()[i]);
                assert(ds[i + 1] == ds.drop_first()[i]);
            }
        }
    }
}

/// Each probe on its own is enough: BlackHole counts as installed when a
/// listed device names it, whatever the other probes show; when the listing
/// worked but shows no BlackHole device and the profiler text mentions it;
/// and when an entry of the HAL plug-in directory mentions it. It counts as
/// not installed only when no probe shows it.
pub proof fn any_probe_detects_blackhole(
    listed: Result<Seq<Seq<char>>, Seq<char>>,
    profiler_text: Option<Seq<char>>,
    hal_entries: Seq<Seq<char>>,
)
    ensures
        (listed matches Ok(ds) && exists|i: int| 0 <= i < ds.len() && #[trigger] names_blackhole(ds[i]))
            ==> blackhole_detected(listed, profiler_text, hal_entries),
        (profiler_text matches Some(t) && mentions_blackhole(t)) ==> blackhole_detected(listed, profiler_text, hal_entries),
        (exists|j: int| 0 <= j < hal_entries.len() && #[trigger] mentions_blackhole(hal_entries[j]))
            ==> blackhole_detected(listed, profiler_text, hal_entries),
        blackhole_detected(listed, profiler_text, hal_entries) ==> {
            ||| (listed matches Ok(ds) && exists|i: int| 0 <= i < ds.len() && #[trigger] names_blackhole(ds[i]))
            ||| (profiler_text matches Some(t) && mentions_blackhole(t))
            ||| (exists|j: int| 0 <= j < hal_entries.len() && #[trigger] mentions_blackhole(hal_entries[j]))
        },
{
    if let Ok(ds) = listed {
        lemma_first_blackhole_exists(ds);
    }
}

/// The device list, taken by characters.
pub open spec fn listed_view(listed: Result<Vec<String>, String>) -> Result<Seq<Seq<char>>, Seq<char>> {
    match listed {
        Ok(ds) => Ok(crate::llm::string_views(ds@)),
        Err(e) => Err(e@),
    }
}

/// The text of an optional string.
pub open spec fn opt_view(t: Option<&str>) -> Option<Seq<char>> {
    match t {
        Some(s) => Some(s@),
        None => None,
    }
}

/// Whether some text of the list mentions BlackHole.
fn any_mentions_blackhole(ts: &Vec<String>) -> (r: bool)
    ensures
        r == some_mentions_blackhole(crate::llm::string_views(ts@)),
{
    let ghost v = crate::llm::string_views(ts@);
    let mut i: usize = 0;
    while i < ts.len()
        invariant
            0 <= i <= ts.len(),
            v == crate::llm::string_views(ts@),
            forall|k: int| 0 <= k < i ==> !#[trigger] mentions_blackhole(v[k]),
        decreases ts.len() - i,
    {
        if str_contains(to_lowercase(ts[i].as_str()).as_str(), "blackhole") {
            assert(mentions_blackhole(v[i as int]));
            return true;
        }
        i += 1;
    }
    false
}

/// Whether BlackHole is installed, from the device list that
/// `system_profiler SPAudioDataType -json` yielded (or why it failed), the
/// plain `system_profiler SPAudioDataType` output (`None` when that command
/// failed) and the entry names of `/Library/Audio/Plug-Ins/HAL`.
pub fn is_blackhole_installed(
    listed: &Result<Vec<String>, String>,
    profiler_text: Option<&str>,
    hal_entries: &Vec<String>,
) -> (r: bool)
    ensures
        r == blackhole_detected(listed_view(*listed), opt_view(profiler_text), crate::llm::string_views(hal_entries@)),
{
    if let Ok(devices) = listed {
        if find_blackhole_device(devices).is_some() {
            return true;
        }
    }
    if let Some(text) = profiler_text {
        if str_contains(to_lowercase(text).as_str(), "blackhole") {
            return true;
        }
    }
    any_mentions_blackhole(hal_entries)
}

/// The first listed device that names BlackHole; `None` when listing failed.
pub fn get_blackhole_device_name(listed: &Result<Vec<String>, String>) -> (r: Option<String>)
    ensures
        match listed_view(*listed) {
            Ok(ds) => match r {
                Some(n) => first_blackhole(ds) == Some(n@),
                None => first_blackhole(ds) is None,
            },
            Err(_) => r is None,
        },
{
    match listed {
        Ok(devices) => find_blackhole_device(devices),
        Err(_) => None,
    }
}

/// Whether system audio should be captured through BlackHole: exactly when
/// it is installed.
pub fn should_use_blackhole(
    listed: &Result<Vec<String>, String>,
    profiler_text: Option<&str>,
    hal_entries: &Vec<String>,
) -> (r: bool)
    ensures
        r == blackhole_detected(listed_view(*listed), opt_view(profiler_text), crate::llm::string_views(hal_entries@)),
{
    is_blackhole_installed(listed, profiler_text, hal_entries)
}

} // verus!
