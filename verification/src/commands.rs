//! What the application's commands answer: the response and request
//! records the frontend exchanges with the backend, and the decisions the
//! commands take between reading storage and answering.
use vstd::prelude::*;

use crate::audio::{AudioDiagnostics, DeviceDiagnostic};
use crate::db::{
    UtcTime, CreateMeetingInput, CreateSummaryInput, CreateTranscriptInput, Meeting, Setting, Summary, Transcript,
    DEFAULT_AUDIO_RETENTION_DAYS,
};
use crate::export::{
    chrono_rfc3339, deref_opt, export_filename, filename_text, markdown_text, plain_text, render_meeting_markdown,
    render_meeting_text, rfc3339_utc, utc_timestamp_in_range, utc_timestamp_representable, utc_time_valid, chrono_parse_rfc3339,
    parse_rfc3339_utc,
};
use crate::llm::{chat_completions_url, chat_completions_url_text, DEFAULT_OLLAMA_URL, PROVIDER_API};
use crate::system_audio::BlackHoleInstallMethod;
use crate::text::{
    ascii_lower_seq, chars_of, lower_ascii_char, push_signed_decimal, push_str, signed_decimal, str_eq, trim,
    trimmed,
};

verus! {

// ---------------------------------------------------------------------------
// Audio
// ---------------------------------------------------------------------------

/// An input device offered to the user.
pub struct AudioDeviceInfo {
    pub id: String,
    pub name: String,
}

/// The `(id, name)` pairs as device records, in order.
pub fn audio_device_infos(devices: &Vec<(String, String)>) -> (r: Vec<AudioDeviceInfo>)
    ensures
        r.len() == devices.len(),
        forall|i: int| 0 <= i < r.len() ==> #[trigger] r@[i].id@ == devices@[i].0@ && r@[i].name@ == devices@[i].1@,
{
    let mut out: Vec<AudioDeviceInfo> = Vec::new();
    let mut i: usize = 0;
    while i < devices.len()
        invariant
            0 <= i <= devices.len(),
            out.len() == i,
            forall|k: int| 0 <= k < i ==> #[trigger] out@[k].id@ == devices@[k].0@ && out@[k].name@ == devices@[k].1@,
        decreases devices.len() - i,
    {
        let mut id = String::new();
        push_str(&mut id, devices[i].0.as_str());
        let mut name = String::new();
        push_str(&mut name, devices[i].1.as_str());
        out.push(AudioDeviceInfo { id, name });
        i += 1;
    }
    out
}

/// Whether BlackHole is installed, and under which device name.
pub struct BlackHoleStatusResponse {
    pub installed: bool,
    pub device_name: Option<String>,
}

/// The BlackHole status: the device name is looked up only when BlackHole
/// is installed.
pub fn blackhole_status(
    listed: &Result<Vec<String>, String>,
    profiler_text: Option<&str>,
    hal_entries: &Vec<String>,
) -> (r: BlackHoleStatusResponse)
    ensures
        r.installed == crate::system_audio::blackhole_detected(
            crate::system_audio::listed_view(*listed),
            crate::system_audio::opt_view(profiler_text),
            crate::llm::string_views(hal_entries@),
        ),
        r.installed ==> match crate::system_audio::listed_view(*listed) {
            Ok(ds) => match r.device_name {
                Some(n) => crate::system_audio::first_blackhole(ds) == Some(n@),
                None => crate::system_audio::first_blackhole(ds) is None,
            },
            Err(_) => r.device_name is None,
        },
        !r.installed ==> r.device_name is None,
{
    let installed = crate::system_audio::is_blackhole_installed(listed, profiler_text, hal_entries);
    let device_name = if installed {
        crate::system_audio::get_blackhole_device_name(listed)
    } else {
        None
    };
    BlackHoleStatusResponse { installed, device_name }
}

/// One device of the diagnostics report.
pub struct AudioDeviceDiagnosticResponse {
    pub id: String,
    pub name: String,
    pub sample_format: Option<String>,
    pub channels: Option<u16>,
    pub sample_rate: Option<u32>,
}

/// The diagnostics report.
pub struct AudioDiagnosticsResponse {
    pub default_device: Option<String>,
    pub devices: Vec<AudioDeviceDiagnosticResponse>,
    pub blackhole_installed: bool,
    pub blackhole_device: Option<String>,
}

/// A device diagnostic as reported to the frontend, field for field.
pub open spec fn diagnostic_reported(r: AudioDeviceDiagnosticResponse, d: DeviceDiagnostic) -> bool {
    &&& r.id == d.id
    &&& r.name == d.name
    &&& r.sample_format == d.sample_format
    &&& r.channels == d.channels
    &&& r.sample_rate == d.sample_rate
}

/// The diagnostics report for a diagnostics snapshot, field for field.
pub fn diagnostics_response(diagnostics: AudioDiagnostics) -> (r: AudioDiagnosticsResponse)
    ensures
        r.default_device == diagnostics.default_device,
        r.blackhole_installed == diagnostics.blackhole_installed,
        r.blackhole_device == diagnostics.blackhole_device,
        r.devices.len() == diagnostics.devices.len(),
        forall|i: int| 0 <= i < r.devices.len() ==> diagnostic_reported(#[trigger] r.devices@[i], diagnostics.devices@[i]),
{
    let AudioDiagnostics { default_device, devices, blackhole_installed, blackhole_device } = diagnostics;
    let ghost all = devices@;
    let mut rest = devices;
    let mut reversed: Vec<DeviceDiagnostic> = Vec::new();
    while rest.len() > 0
        invariant
            rest@ == all.take(all.len() - reversed.len()),
            reversed.len() <= all.len(),
            forall|k: int| 0 <= k < reversed.len() ==> #[trigger] reversed@[k] == all[all.len() - 1 - k],
        decreases rest.len(),
    {
        let d = rest.pop().unwrap();
        reversed.push(d);
        assert(rest@ =~= all.take(all.len() - reversed.len()));
    }
    let mut out: Vec<AudioDeviceDiagnosticResponse> = Vec::new();
    while reversed.len() > 0
        invariant
            reversed.len() + out.len() == all.len(),
            forall|k: int| 0 <= k < reversed.len() ==> #[trigger] reversed@[k] == all[all.len() - 1 - k],
            forall|i: int| 0 <= i < out.len() ==> diagnostic_reported(#[trigger] out@[i], all[i]),
        decreases reversed.len(),
    {
        let d = reversed.pop().unwrap();
        out.push(
            AudioDeviceDiagnosticResponse {
                id: d.id,
                name: d.name,
                sample_format: d.sample_format,
                channels: d.channels,
                sample_rate: d.sample_rate,
            },
        );
    }
    AudioDiagnosticsResponse { default_device, devices: out, blackhole_installed, blackhole_device }
}

/// The outcome of installing BlackHole.
pub struct BlackHoleInstallResponse {
    pub success: bool,
    pub method: String,
    pub message: String,
}

/// The name of an install method.
pub open spec fn install_method_name(m: BlackHoleInstallMethod) -> Seq<char> {
    match m {
        BlackHoleInstallMethod::Bundled => "bundled"@,
        BlackHoleInstallMethod::Homebrew => "homebrew"@,
        BlackHoleInstallMethod::Manual => "manual"@,
        BlackHoleInstallMethod::AlreadyInstalled => "already_installed"@,
    }
}

/// What the user is told after an install method ran.
pub open spec fn install_method_message(m: BlackHoleInstallMethod) -> Seq<char> {
    match m {
        BlackHoleInstallMethod::Bundled => "BlackHole installed successfully from bundled package"@,
        BlackHoleInstallMethod::Homebrew => "BlackHole installation started via Homebrew. Check Terminal for progress."@,
        BlackHoleInstallMethod::Manual => "Download page opened. Please download and install manually, then restart the app."@,
        BlackHoleInstallMethod::AlreadyInstalled => "BlackHole was already installed"@,
    }
}

/// The response for the install method that ran: success unless only the
/// download page could be opened.
pub fn install_response(method: BlackHoleInstallMethod) -> (r: BlackHoleInstallResponse)
    ensures
        r.success == (method != BlackHoleInstallMethod::Manual),
        r.method@ == install_method_name(method),
        r.message@ == install_method_message(method),
{
    let (name, message) = match method {
        BlackHoleInstallMethod::Bundled => ("bundled", "BlackHole installed successfully from bundled package"),
        BlackHoleInstallMethod::Homebrew => (
            "homebrew",
            "BlackHole installation started via Homebrew. Check Terminal for progress.",
        ),
        BlackHoleInstallMethod::Manual => (
            "manual",
            "Download page opened. Please download and install manually, then restart the app.",
        ),
        BlackHoleInstallMethod::AlreadyInstalled => ("already_installed", "BlackHole was already installed"),
    };
    let mut m = String::new();
    push_str(&mut m, name);
    let mut msg = String::new();
    push_str(&mut msg, message);
    BlackHoleInstallResponse { success: !matches!(method, BlackHoleInstallMethod::Manual), method: m, message: msg }
}

/// Which install to attempt automatically: the bundled installer first when
/// it is there (falling through when it fails), then Homebrew when it is
/// installed, else the download page.
pub struct InstallPlan {
    pub try_bundled: bool,
    pub fallback: BlackHoleInstallMethod,
}

/// The automatic install plan.
pub fn auto_install_plan(bundled_available: bool, homebrew_installed: bool) -> (r: InstallPlan)
    ensures
        r.try_bundled == bundled_available,
        r.fallback == if homebrew_installed {
            BlackHoleInstallMethod::Homebrew
        } else {
            BlackHoleInstallMethod::Manual
        },
{
    InstallPlan {
        try_bundled: bundled_available,
        fallback: if homebrew_installed {
            BlackHoleInstallMethod::Homebrew
        } else {
            BlackHoleInstallMethod::Manual
        },
    }
}

/// Whether this is the first launch: the completion flag still reads
/// `false`.
pub fn is_first_launch(first_launch_completed: &str) -> (r: bool)
    ensures
        r == (first_launch_completed@ == "false"@),
{
    str_eq(first_launch_completed, "false")
}

// ---------------------------------------------------------------------------
// Numbers in settings
// ---------------------------------------------------------------------------

/// The value of a string of ASCII digits.
pub open spec fn digits_value(s: Seq<char>) -> int
    decreases s.len(),
{
    if s.len() == 0 {
        0
    } else {
        10 * digits_value(s.drop_last()) + (s.last() as int - '0' as int)
    }
}

/// Every character is an ASCII digit.
pub open spec fn all_digits(s: Seq<char>) -> bool {
    forall|i: int| 0 <= i < s.len() ==> '0' <= #[trigger] s[i] <= '9'
}

/// What std's `str::parse::<u64>` gives: an optional leading `+`, then one
/// or more ASCII digits whose value fits in a `u64`.
pub open spec fn parsed_u64(s: Seq<char>) -> Option<u64> {
    let digits = if s.len() > 0 && s[0] == '+' { s.drop_first() } else { s };
    if digits.len() > 0 && all_digits(digits) && 0 <= digits_value(digits) <= u64::MAX {
        Some(digits_value(digits) as u64)
    } else {
        None
    }
}

/// Parse a decimal `u64` as std's `str::parse::<u64>` does.
pub fn parse_u64(s: &str) -> (r: Option<u64>)
    ensures
        r == parsed_u64(s@),
{
    let v = chars_of(s);
    let start: usize = if v.len() > 0 && v[0] == '+' { 1 } else { 0 };
    let ghost digits = v@.skip(start as int);
    assert(digits =~= if s@.len() > 0 && s@[0] == '+' { s@.drop_first() } else { s@ });
    if start >= v.len() {
        return None;
    }
    let mut value: u64 = 0;
    let mut i: usize = start;
    while i < v.len()
        invariant
            start <= i <= v.len(),
            start < v.len(),
            digits == v@.skip(start as int),
            digits == if s@.len() > 0 && s@[0] == '+' { s@.drop_first() } else { s@ },
            all_digits(v@.subrange(start as int, i as int)),
            value == digits_value(v@.subrange(start as int, i as int)),
        decreases v.len() - i,
    {
        let c = v[i];
        assert(v@.subrange(start as int, i + 1).drop_last() =~= v@.subrange(start as int, i as int));
        if !('0' <= c && c <= '9') {
            assert(!all_digits(digits)) by {
                assert(digits[i - start] == c);
            }
            return None;
        }
        let d: u64 = (c as u32 - '0' as u32) as u64;
        if value > (u64::MAX - d) / 10 {
            proof {
                lemma_digits_value_prefix(digits, i + 1 - start);
                assert(v@.subrange(start as int, i + 1) =~= digits.take(i + 1 - start));
                assert(digits_value(v@.subrange(start as int, i + 1)) == 10 * value + d);
                assert(10 * value + d > u64::MAX) by (nonlinear_arith)
                    requires
                        value > (u64::MAX - d) / 10,
                        d <= 9,
                ;
            }
            return None;
        }
        assert(10 * value + d <= u64::MAX) by (nonlinear_arith)
            requires
                value <= (u64::MAX - d) / 10,
                d <= 9,
        ;
        value = value * 10 + d;
        i += 1;
    }
    assert(v@.subrange(start as int, v.len() as int) =~= digits);
    Some(value)
}

/// A digit string is worth at least 0.
proof fn lemma_digits_value_nonneg(s: Seq<char>)
    ensures
        all_digits(s) ==> digits_value(s) >= 0,
    decreases s.len(),
{
    if s.len() > 0 {
        lemma_digits_value_nonneg(s.drop_last());
        if all_digits(s) {
            assert(all_digits(s.drop_last())) by {
                assert forall|i: int| 0 <= i < s.drop_last().len() implies '0' <= #[trigger] s.drop_last()[i] <= '9' by {
                    assert(s.drop_last()[i] == s[i]);
                }
            }
            assert(s[s.len() - 1] >= '0');
        }
    }
}

/// A longer digit string is worth at least as much as its prefix.
proof fn lemma_digits_value_prefix(s: Seq<char>, n: int)
    requires
        0 <= n <= s.len(),
    ensures
        all_digits(s) ==> digits_value(s.take(n)) <= digits_value(s),
    decreases s.len(),
{
    if n < s.len() {
        assert(s.drop_last().take(n) =~= s.take(n));
        lemma_digits_value_prefix(s.drop_last(), n);
        if all_digits(s) {
            lemma_digits_value_nonneg(s.drop_last());
            assert(all_digits(s.drop_last())) by {
                assert forall|i: int| 0 <= i < s.drop_last().len() implies '0' <= #[trigger] s.drop_last()[i] <= '9' by {
                    assert(s.drop_last()[i] == s[i]);
                }
            }
            assert(s[s.len() - 1] >= '0');
        }
    } else {
        assert(s.take(n) =~= s);
    }
}

/// The retention window a stored `audio_retention_days` setting gives: its
/// value when it parses as a number of days, 30 otherwise.
pub fn retention_days_setting(value: &str) -> (r: u64)
    ensures
        r == match parsed_u64(value@) {
            Some(d) => d,
            None => 30,
        },
{
    match parse_u64(value) {
        Some(d) => d,
        None => 30,
    }
}

// ---------------------------------------------------------------------------
// Export
// ---------------------------------------------------------------------------

/// A rendered export.
pub struct ExportResponse {
    pub format: String,
    pub content: String,
    pub filename: String,
}

/// Markdown is exported unless another format is named; the name is
/// compared ignoring ASCII case.
pub open spec fn wants_markdown(format: Option<Seq<char>>) -> bool {
    match format {
        Some(f) => ascii_lower_seq(f) == "markdown"@,
        None => true,
    }
}

/// The text of an optional string.
pub open spec fn opt_text(s: Option<&str>) -> Option<Seq<char>> {
    match s {
        Some(t) => Some(t@),
        None => None,
    }
}

/// Export a meeting's notes as Markdown, or as plain text for any other
/// named format.
pub fn export_meeting(
    meeting: &Meeting,
    transcript: Option<&Transcript>,
    summary: Option<&Summary>,
    format: Option<&str>,
) -> (r: ExportResponse)
    requires
        utc_timestamp_in_range(meeting.date.secs as int),
    ensures
        wants_markdown(opt_text(format)) ==> {
            &&& r.format@ == "markdown"@
            &&& r.content@ == markdown_text(*meeting, deref_opt(transcript), deref_opt(summary))
            &&& r.filename@ == filename_text(*meeting, "md"@)
        },
        !wants_markdown(opt_text(format)) ==> {
            &&& r.format@ == "text"@
            &&& r.content@ == plain_text(*meeting, deref_opt(transcript), deref_opt(summary))
            &&& r.filename@ == filename_text(*meeting, "txt"@)
        },
{
    let is_markdown = match format {
        Some(f) => {
            let v = chars_of(f);
            let mut lower: Vec<char> = Vec::new();
            let mut i: usize = 0;
            while i < v.len()
                invariant
                    0 <= i <= v.len(),
                    lower@ == ascii_lower_seq(v@.take(i as int)),
                decreases v.len() - i,
            {
                lower.push(lower_ascii_char(v[i]));
                assert(lower@ =~= ascii_lower_seq(v@.take(i + 1)));
                i += 1;
            }
            assert(v@.take(v.len() as int) =~= v@);
            crate::text::chars_eq(&lower, &chars_of("markdown"))
        },
        None => true,
    };
    let mut fmt = String::new();
    if is_markdown {
        push_str(&mut fmt, "markdown");
        ExportResponse {
            format: fmt,
            content: render_meeting_markdown(meeting, transcript, summary),
            filename: export_filename(meeting, "md"),
        }
    } else {
        push_str(&mut fmt, "text");
        ExportResponse {
            format: fmt,
            content: render_meeting_text(meeting, transcript, summary),
            filename: export_filename(meeting, "txt"),
        }
    }
}

// ---------------------------------------------------------------------------
// Summaries through a model
// ---------------------------------------------------------------------------

/// Whether Ollama is reachable, and where.
pub struct OllamaStatusResponse {
    pub available: bool,
    pub url: String,
}

/// The Ollama status for the default Ollama URL.
pub fn ollama_status(available: bool) -> (r: OllamaStatusResponse)
    ensures
        r.available == available,
        r.url@ == DEFAULT_OLLAMA_URL@,
{
    let mut url = String::new();
    push_str(&mut url, DEFAULT_OLLAMA_URL);
    OllamaStatusResponse { available, url }
}

/// Whether summaries go to an OpenAI-compatible API rather than Ollama.
pub fn uses_api_provider(llm_provider: &str) -> (r: bool)
    ensures
        r == (llm_provider@ == PROVIDER_API@),
{
    str_eq(llm_provider, PROVIDER_API)
}

/// The model asked for summaries through an API.
pub const API_SUMMARY_MODEL: &'static str = "gpt-4o-mini";

/// The error when the API provider is chosen without a key.
pub const MISSING_API_KEY_ERROR: &'static str = "API key is required when using API provider";

/// The chat-completions URL to ask for a summary through an API; an error
/// when no API key is set.
pub fn api_summary_url(api_key: &str, api_endpoint: &str) -> (r: Result<String, String>)
    ensures
        api_key@.len() == 0 ==> (r matches Err(e) && e@ == MISSING_API_KEY_ERROR@),
        api_key@.len() > 0 ==> (r matches Ok(u) && u@ == chat_completions_url_text(api_endpoint@)),
{
    if api_key.unicode_len() == 0 {
        let mut e = String::new();
        push_str(&mut e, MISSING_API_KEY_ERROR);
        Err(e)
    } else {
        Ok(chat_completions_url(api_endpoint))
    }
}

// ---------------------------------------------------------------------------
// Records
// ---------------------------------------------------------------------------

/// A meeting as the frontend sees it.
pub struct MeetingResponse {
    pub id: i64,
    pub title: String,
    pub date: String,
    pub duration_seconds: i64,
    pub audio_path: String,
    pub created_at: String,
}

/// A meeting as the frontend sees it: dates in RFC 3339.
pub fn meeting_response(meeting: Meeting) -> (r: MeetingResponse)
    requires
        utc_time_valid(meeting.date),
        utc_time_valid(meeting.created_at),
    ensures
        r.id == meeting.id,
        r.title == meeting.title,
        r.date@ == chrono_rfc3339(meeting.date.secs as int, meeting.date.nanos as nat),
        r.duration_seconds == meeting.duration_seconds,
        r.audio_path == meeting.audio_path,
        r.created_at@ == chrono_rfc3339(meeting.created_at.secs as int, meeting.created_at.nanos as nat),
{
    let date = rfc3339_utc(meeting.date);
    let created_at = rfc3339_utc(meeting.created_at);
    MeetingResponse {
        id: meeting.id,
        title: meeting.title,
        date,
        duration_seconds: meeting.duration_seconds,
        audio_path: meeting.audio_path,
        created_at,
    }
}

/// A meeting date as a creation request gives it: RFC 3339 text, or Unix
/// seconds for older clients.
pub enum MeetingDateInput {
    Rfc3339(String),
    UnixSeconds(i64),
}

/// The start of the error for Unix seconds chrono cannot represent.
pub const INVALID_UNIX_TIMESTAMP_PREFIX: &'static str = "invalid Unix timestamp: ";

/// The instant a request's date stands for: RFC 3339 text as chrono parses
/// it (or chrono's error), Unix seconds when chrono can represent them, or
/// else the invalid-timestamp error naming the value.
pub open spec fn meeting_date_outcome(d: MeetingDateInput) -> Result<(int, nat), Seq<char>> {
    match d {
        MeetingDateInput::Rfc3339(t) => chrono_parse_rfc3339(t@),
        MeetingDateInput::UnixSeconds(v) => if utc_timestamp_in_range(v as int) {
            Ok((v as int, 0nat))
        } else {
            Err(INVALID_UNIX_TIMESTAMP_PREFIX@ + signed_decimal(v as int))
        },
    }
}

/// The instant of a request's date.
pub fn meeting_date(d: &MeetingDateInput) -> (r: Result<UtcTime, String>)
    ensures
        match r {
            Ok(t) => meeting_date_outcome(*d) == Ok::<(int, nat), Seq<char>>((t.secs as int, t.nanos as nat))
                && utc_time_valid(t),
            Err(e) => meeting_date_outcome(*d) == Err::<(int, nat), Seq<char>>(e@),
        },
{
    match d {
        MeetingDateInput::Rfc3339(t) => parse_rfc3339_utc(t.as_str()),
        MeetingDateInput::UnixSeconds(v) => {
            let v = *v;
            if utc_timestamp_representable(v) {
                Ok(UtcTime { secs: v, nanos: 0 })
            } else {
                let mut e = String::new();
                push_str(&mut e, INVALID_UNIX_TIMESTAMP_PREFIX);
                push_signed_decimal(&mut e, v);
                Err(e)
            }
        },
    }
}

/// A request to create a meeting.
pub struct CreateMeetingRequest {
    pub title: String,
    pub date: UtcTime,
    pub duration_seconds: i64,
    pub audio_path: String,
}

/// The stored meeting a creation request asks for.
pub fn meeting_input(request: CreateMeetingRequest) -> (r: CreateMeetingInput)
    ensures
        r.title == request.title,
        r.date == request.date,
        r.duration_seconds == request.duration_seconds,
        r.audio_path == request.audio_path,
{
    CreateMeetingInput {
        title: request.title,
        date: request.date,
        duration_seconds: request.duration_seconds,
        audio_path: request.audio_path,
    }
}

/// A setting as the frontend sees it.
pub struct SettingResponse {
    pub id: i64,
    pub key: String,
    pub value: String,
    pub created_at: String,
    pub updated_at: String,
}

/// A setting as the frontend sees it: dates in RFC 3339.
pub fn setting_response(setting: Setting) -> (r: SettingResponse)
    requires
        utc_time_valid(setting.created_at),
        utc_time_valid(setting.updated_at),
    ensures
        r.id == setting.id,
        r.key == setting.key,
        r.value == setting.value,
        r.created_at@ == chrono_rfc3339(setting.created_at.secs as int, setting.created_at.nanos as nat),
        r.updated_at@ == chrono_rfc3339(setting.updated_at.secs as int, setting.updated_at.nanos as nat),
{
    let created_at = rfc3339_utc(setting.created_at);
    let updated_at = rfc3339_utc(setting.updated_at);
    SettingResponse { id: setting.id, key: setting.key, value: setting.value, created_at, updated_at }
}

/// Whether a setting may be shown: secret settings never are.
pub open spec fn listable(key: Seq<char>) -> bool {
    !crate::keychain::secret_setting_keys().contains(key)
}

/// What a listing shows in place of a secret value.
pub const SECRET_MASK: &'static str = "********";

/// How a listing shows a setting: as it is, except that a secret setting's
/// value is replaced by [`SECRET_MASK`].
pub open spec fn shown_as(s: SettingResponse, r: SettingResponse) -> bool {
    &&& r.id == s.id
    &&& r.key@ == s.key@
    &&& r.value@ == if listable(s.key@) { s.value@ } else { SECRET_MASK@ }
    &&& r.created_at@ == s.created_at@
    &&& r.updated_at@ == s.updated_at@
}

/// The settings a listing shows: every setting, in order, with the value
/// of each secret setting masked, so a secret value never reaches the
/// frontend.
pub fn listed_settings(settings: Vec<SettingResponse>) -> (r: Vec<SettingResponse>)
    ensures
        r.len() == settings.len(),
        forall|i: int| 0 <= i < settings.len() ==> shown_as(#[trigger] settings@[i], r@[i]),
{
    let ghost all = settings@;
    let mut out: Vec<SettingResponse> = Vec::new();
    let mut rest = settings;
    let mut reversed: Vec<SettingResponse> = Vec::new();
    while rest.len() > 0
        invariant
            rest@ == all.take(all.len() - reversed.len()),
            reversed.len() <= all.len(),
            forall|k: int| 0 <= k < reversed.len() ==> #[trigger] reversed@[k] == all[all.len() - 1 - k],
        decreases rest.len(),
    {
        let s = rest.pop().unwrap();
        reversed.push(s);
        assert(rest@ =~= all.take(all.len() - reversed.len()));
    }
    while reversed.len() > 0
        invariant
            reversed.len() <= all.len(),
            forall|k: int| 0 <= k < reversed.len() ==> #[trigger] reversed@[k] == all[all.len() - 1 - k],
            out.len() == all.len() - reversed.len(),
            forall|k: int| 0 <= k < out.len() ==> shown_as(#[trigger] all[k], out@[k]),
        decreases reversed.len(),
    {
        let ghost done = all.len() - reversed.len();
        assert(reversed@[reversed.len() - 1] == all[done]);
        let s = reversed.pop().unwrap();
        if crate::keychain::is_secret_setting(s.key.as_str()) {
            let mut mask = String::new();
            push_str(&mut mask, SECRET_MASK);
            out.push(SettingResponse {
                id: s.id,
                key: s.key,
                value: mask,
                created_at: s.created_at,
                updated_at: s.updated_at,
            });
        } else {
            out.push(s);
        }
        assert(shown_as(all[done], out@[done]));
    }
    out
}

/// A request to read a setting.
pub struct GetSettingRequest {
    pub key: String,
}

/// A request to write a setting.
pub struct SetSettingRequest {
    pub key: String,
    pub value: String,
}

/// A summary as the frontend sees it.
pub struct SummaryResponse {
    pub id: i64,
    pub meeting_id: i64,
    pub key_points: String,
    pub decisions: String,
    pub action_items: String,
    pub created_at: String,
}

/// A summary as the frontend sees it: its date in RFC 3339.
pub fn summary_response(summary: Summary) -> (r: SummaryResponse)
    requires
        utc_time_valid(summary.created_at),
    ensures
        r.id == summary.id,
        r.meeting_id == summary.meeting_id,
        r.key_points == summary.key_points,
        r.decisions == summary.decisions,
        r.action_items == summary.action_items,
        r.created_at@ == chrono_rfc3339(summary.created_at.secs as int, summary.created_at.nanos as nat),
{
    let created_at = rfc3339_utc(summary.created_at);
    SummaryResponse {
        id: summary.id,
        meeting_id: summary.meeting_id,
        key_points: summary.key_points,
        decisions: summary.decisions,
        action_items: summary.action_items,
        created_at,
    }
}

/// A request to store a summary.
pub struct CreateSummaryRequest {
    pub meeting_id: i64,
    pub key_points: String,
    pub decisions: String,
    pub action_items: String,
}

/// The stored summary a creation request asks for.
pub fn summary_input(request: CreateSummaryRequest) -> (r: CreateSummaryInput)
    ensures
        r.meeting_id == request.meeting_id,
        r.key_points == request.key_points,
        r.decisions == request.decisions,
        r.action_items == request.action_items,
{
    CreateSummaryInput {
        meeting_id: request.meeting_id,
        key_points: request.key_points,
        decisions: request.decisions,
        action_items: request.action_items,
    }
}

/// A transcript as the frontend sees it.
pub struct TranscriptResponse {
    pub id: i64,
    pub meeting_id: i64,
    pub content: String,
    pub created_at: String,
}

/// A transcript as the frontend sees it: its date in RFC 3339.
pub fn transcript_response(transcript: Transcript) -> (r: TranscriptResponse)
    requires
        utc_time_valid(transcript.created_at),
    ensures
        r.id == transcript.id,
        r.meeting_id == transcript.meeting_id,
        r.content == transcript.content,
        r.created_at@ == chrono_rfc3339(transcript.created_at.secs as int, transcript.created_at.nanos as nat),
{
    let created_at = rfc3339_utc(transcript.created_at);
    TranscriptResponse {
        id: transcript.id,
        meeting_id: transcript.meeting_id,
        content: transcript.content,
        created_at,
    }
}

/// A request to store a transcript.
pub struct CreateTranscriptRequest {
    pub meeting_id: i64,
    pub content: String,
}

/// The stored transcript a creation request asks for.
pub fn transcript_input(request: CreateTranscriptRequest) -> (r: CreateTranscriptInput)
    ensures
        r.meeting_id == request.meeting_id,
        r.content == request.content,
{
    CreateTranscriptInput { meeting_id: request.meeting_id, content: request.content }
}

/// What a finished transcription stores: the formatted, speaker-labelled
/// text, or the plain text when the formatted text is blank.
pub fn transcript_content(text: &str, formatted_text: &str) -> (r: String)
    ensures
        r@ == if trim(formatted_text@).len() == 0 {
            text@
        } else {
            formatted_text@
        },
{
    let mut out = String::new();
    if trimmed(&chars_of(formatted_text)).len() == 0 {
        push_str(&mut out, text);
    } else {
        push_str(&mut out, formatted_text);
    }
    out
}

/// Whether a Whisper model is downloaded, and where.
pub struct WhisperModelStatusResponse {
    pub model_size: String,
    pub is_downloaded: bool,
    pub model_path: Option<String>,
}

/// A Whisper model as listed to the frontend.
pub struct WhisperModelInfoResponse {
    pub size: String,
    pub filename: String,
    pub expected_size: u64,
    pub is_downloaded: bool,
    pub actual_size: Option<u64>,
}

/// A model listing entry as the frontend sees it, field for field.
pub fn model_info_response(info: crate::whisper::ModelInfo) -> (r: WhisperModelInfoResponse)
    ensures
        r.size == info.size,
        r.filename == info.filename,
        r.expected_size == info.expected_size,
        r.is_downloaded == info.is_downloaded,
        r.actual_size == info.actual_size,
{
    WhisperModelInfoResponse {
        size: info.size,
        filename: info.filename,
        expected_size: info.expected_size,
        is_downloaded: info.is_downloaded,
        actual_size: info.actual_size,
    }
}

/// `{kind} with id {id} not found`.
pub open spec fn not_found_text(kind: Seq<char>, id: int) -> Seq<char> {
    kind + " with id "@ + signed_decimal(id) + " not found"@
}

/// The error for a record that does not exist, such as
/// `Meeting with id 7 not found`.
pub fn not_found_message(kind: &str, id: i64) -> (r: String)
    ensures
        r@ == not_found_text(kind@, id as int),
{
    let mut m = String::new();
    push_str(&mut m, kind);
    push_str(&mut m, " with id ");
    push_signed_decimal(&mut m, id);
    push_str(&mut m, " not found");
    m
}

/// The error for a setting that does not exist.
pub fn setting_not_found_message(key: &str) -> (r: String)
    ensures
        r@ == "Setting with key '"@ + key@ + "' not found"@,
{
    let mut m = String::new();
    push_str(&mut m, "Setting with key '");
    push_str(&mut m, key);
    push_str(&mut m, "' not found");
    m
}

} // verus!
