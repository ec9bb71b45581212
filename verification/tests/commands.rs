use echo_note::commands::{
    api_summary_url, audio_device_infos, auto_install_plan, blackhole_status, export_meeting, install_response,
    is_first_launch, meeting_response, not_found_message, ollama_status, parse_u64, retention_days_setting,
    setting_not_found_message, transcript_content, uses_api_provider, listed_settings, SettingResponse,
    meeting_date, MeetingDateInput,
};
use echo_note::db::{UtcTime, default_for_setting, default_settings, setting_or_default, Meeting};
use echo_note::system_audio::BlackHoleInstallMethod;
use echo_note::ApiResponse;

fn meeting() -> Meeting {
    Meeting {
        id: 7,
        title: "Weekly Sync".to_string(),
        date: UtcTime { secs: 1778082960, nanos: 0 },
        duration_seconds: 65,
        audio_path: "/tmp/rec.wav".to_string(),
        created_at: UtcTime { secs: 1778082960, nanos: 0 },
    }
}

#[test]
fn api_responses_carry_data_or_error() {
    let ok = ApiResponse::success(3);
    assert!(ok.success && ok.data == Some(3) && ok.error.is_none());
    let err: ApiResponse<u8> = ApiResponse::error("nope".to_string());
    assert!(!err.success && err.data.is_none() && err.error.as_deref() == Some("nope"));
}

#[test]
fn export_defaults_to_markdown_and_ignores_case() {
    let m = meeting();
    let md = export_meeting(&m, None, None, None);
    assert_eq!(md.format, "markdown");
    assert_eq!(md.filename, "weekly-sync-20260506.md");
    assert!(md.content.starts_with("# Weekly Sync\n"));
    let md2 = export_meeting(&m, None, None, Some("MarkDown"));
    assert_eq!(md2.format, "markdown");
    let text = export_meeting(&m, None, None, Some("text"));
    assert_eq!(text.format, "text");
    assert_eq!(text.filename, "weekly-sync-20260506.txt");
    assert!(text.content.starts_with("Weekly Sync\nDate: 2026-05-06 15:56 UTC\n"));
}

#[test]
fn meeting_dates_are_rfc3339() {
    let r = meeting_response(meeting());
    assert_eq!(r.date, "2026-05-06T15:56:00+00:00");
    assert_eq!(r.created_at, "2026-05-06T15:56:00+00:00");
    assert_eq!(r.id, 7);
}

#[test]
fn install_responses_describe_the_method() {
    let bundled = install_response(BlackHoleInstallMethod::Bundled);
    assert!(bundled.success);
    assert_eq!(bundled.method, "bundled");
    assert_eq!(bundled.message, "BlackHole installed successfully from bundled package");
    let manual = install_response(BlackHoleInstallMethod::Manual);
    assert!(!manual.success);
    assert_eq!(manual.method, "manual");
    let plan = auto_install_plan(false, true);
    assert!(!plan.try_bundled);
    assert!(plan.fallback == BlackHoleInstallMethod::Homebrew);
    assert!(auto_install_plan(true, false).fallback == BlackHoleInstallMethod::Manual);
}

#[test]
fn blackhole_status_names_the_device_only_when_installed() {
    let listed = Ok(vec!["BlackHole 2ch".to_string()]);
    let s = blackhole_status(&listed, None, &Vec::new());
    assert!(s.installed);
    assert_eq!(s.device_name.as_deref(), Some("BlackHole 2ch"));
    let none: Result<Vec<String>, String> = Ok(vec!["Speakers".to_string()]);
    let s = blackhole_status(&none, Some("no driver"), &Vec::new());
    assert!(!s.installed);
    assert!(s.device_name.is_none());
}

#[test]
fn numbers_parse_like_std() {
    assert_eq!(parse_u64("30"), Some(30));
    assert_eq!(parse_u64("+7"), Some(7));
    assert_eq!(parse_u64("18446744073709551615"), Some(u64::MAX));
    assert_eq!(parse_u64("18446744073709551616"), None);
    assert_eq!(parse_u64(""), None);
    assert_eq!(parse_u64("+"), None);
    assert_eq!(parse_u64("-1"), None);
    assert_eq!(parse_u64(" 3"), None);
    for s in ["0", "42", "+0", "99999", "1a", "++1"] {
        assert_eq!(parse_u64(s), s.parse::<u64>().ok(), "{s}");
    }
}

#[test]
fn retention_setting_falls_back_to_thirty_days() {
    assert_eq!(retention_days_setting("7"), 7);
    assert_eq!(retention_days_setting("0"), 0);
    assert_eq!(retention_days_setting("soon"), 30);
}

#[test]
fn first_launch_until_flag_is_set() {
    assert!(is_first_launch("false"));
    assert!(!is_first_launch("true"));
}

#[test]
fn transcript_content_prefers_formatted_text() {
    assert_eq!(transcript_content("plain", "[00:00] Speaker 1: plain"), "[00:00] Speaker 1: plain");
    assert_eq!(transcript_content("plain", "  "), "plain");
}

#[test]
fn summary_provider_and_api_url() {
    assert!(uses_api_provider("api"));
    assert!(!uses_api_provider("ollama"));
    assert_eq!(
        api_summary_url("", "https://api.openai.com/v1").err().as_deref(),
        Some("API key is required when using API provider")
    );
    assert_eq!(
        api_summary_url("sk", "https://api.openai.com/v1").ok().as_deref(),
        Some("https://api.openai.com/v1/chat/completions")
    );
    let s = ollama_status(true);
    assert!(s.available);
    assert_eq!(s.url, "http://localhost:11434");
}

#[test]
fn not_found_messages() {
    assert_eq!(not_found_message("Meeting", 7), "Meeting with id 7 not found");
    assert_eq!(not_found_message("Summary", -2), "Summary with id -2 not found");
    assert_eq!(setting_not_found_message("x"), "Setting with key 'x' not found");
}

#[test]
fn device_infos_keep_pairs() {
    let infos = audio_device_infos(&vec![("id".to_string(), "Mic".to_string())]);
    assert_eq!(infos.len(), 1);
    assert_eq!(infos[0].id, "id");
    assert_eq!(infos[0].name, "Mic");
}

#[test]
fn settings_defaults() {
    let d = default_settings();
    assert_eq!(d.len(), 10);
    assert_eq!(d[0], ("audio_device", "default"));
    assert_eq!(d[9], ("diarization_threshold", "0.75"));
    assert_eq!(default_for_setting("api_endpoint"), "https://api.openai.com/v1");
    assert_eq!(default_for_setting("first_launch_completed"), "");
    assert_eq!(setting_or_default(None, "small"), "small");
    assert_eq!(setting_or_default(Some("tiny".to_string()), "small"), "tiny");
}

fn setting(id: i64, key: &str, value: &str) -> SettingResponse {
    SettingResponse {
        id,
        key: key.to_string(),
        value: value.to_string(),
        created_at: "2026-05-06T15:56:00+00:00".to_string(),
        updated_at: "2026-05-06T15:56:00+00:00".to_string(),
    }
}

#[test]
fn listing_masks_secret_values() {
    let listed = listed_settings(vec![
        setting(1, "whisper_model_size", "base"),
        setting(2, "api_key", "sk-secret"),
        setting(3, "llm_provider", "ollama"),
    ]);
    let shown: Vec<(&str, &str)> = listed.iter().map(|s| (s.key.as_str(), s.value.as_str())).collect();
    assert_eq!(shown, vec![("whisper_model_size", "base"), ("api_key", "********"), ("llm_provider", "ollama")]);
    assert_eq!(listed[1].id, 2);
}

fn created_meeting(date: UtcTime) -> Meeting {
    Meeting {
        id: 1,
        title: "Test Meeting".to_string(),
        date,
        duration_seconds: 3,
        audio_path: "/tmp/recording.wav".to_string(),
        created_at: UtcTime { secs: 1778082960, nanos: 0 },
    }
}

#[test]
fn create_meeting_request_accepts_rfc3339_date() {
    let date = meeting_date(&MeetingDateInput::Rfc3339("2026-05-06T15:56:00.000Z".to_string())).unwrap();
    assert_eq!(meeting_response(created_meeting(date)).date, "2026-05-06T15:56:00+00:00");
}

#[test]
fn create_meeting_request_accepts_unix_seconds_for_compatibility() {
    let date = meeting_date(&MeetingDateInput::UnixSeconds(1778082960)).unwrap();
    assert_eq!(meeting_response(created_meeting(date)).date, "2026-05-06T15:56:00+00:00");
}

#[test]
fn meeting_dates_keep_fractions_and_offsets() {
    let date = meeting_date(&MeetingDateInput::Rfc3339("2026-05-06T17:56:00.250+02:00".to_string())).unwrap();
    assert_eq!(date.secs, 1778082960);
    assert_eq!(date.nanos, 250_000_000);
    assert_eq!(meeting_response(created_meeting(date)).date, "2026-05-06T15:56:00.250+00:00");
}

#[test]
fn meeting_date_errors() {
    assert!(meeting_date(&MeetingDateInput::Rfc3339("yesterday".to_string())).is_err());
    assert_eq!(
        meeting_date(&MeetingDateInput::UnixSeconds(i64::MAX)).unwrap_err(),
        format!("invalid Unix timestamp: {}", i64::MAX)
    );
    assert_eq!(
        meeting_date(&MeetingDateInput::UnixSeconds(-8334601315201)).unwrap_err(),
        "invalid Unix timestamp: -8334601315201"
    );
    assert!(meeting_date(&MeetingDateInput::UnixSeconds(-8334601315200)).is_ok());
}
