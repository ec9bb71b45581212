//! The records the application stores, the default settings, and how a
//! stored setting is read back.
//!
//! The SQLite database itself is driven outside the library; instants are
//! UTC times given as seconds since the Unix epoch and nanoseconds past them.
use vstd::prelude::*;

use crate::text::{push_str, str_eq};

verus! {

/// An instant in UTC: whole seconds since the Unix epoch and the
/// nanoseconds past them (up to two seconds' worth during a leap second, as
/// chrono counts one).
#[derive(Clone, Copy, Debug)]
pub struct UtcTime {
    pub secs: i64,
    pub nanos: u32,
}

/// A meeting record.
pub struct Meeting {
    pub id: i64,
    pub title: String,
    pub date: UtcTime,
    pub duration_seconds: i64,
    pub audio_path: String,
    pub created_at: UtcTime,
}

/// Data needed to create a new meeting.
pub struct CreateMeetingInput {
    pub title: String,
    pub date: UtcTime,
    pub duration_seconds: i64,
    pub audio_path: String,
}

/// A transcript record.
pub struct Transcript {
    pub id: i64,
    pub meeting_id: i64,
    pub content: String,
    pub created_at: UtcTime,
}

/// Data needed to create a new transcript.
pub struct CreateTranscriptInput {
    pub meeting_id: i64,
    pub content: String,
}

/// A summary record.
pub struct Summary {
    pub id: i64,
    pub meeting_id: i64,
    pub key_points: String,
    pub decisions: String,
    pub action_items: String,
    pub created_at: UtcTime,
}

/// Data needed to create a new summary.
pub struct CreateSummaryInput {
    pub meeting_id: i64,
    pub key_points: String,
    pub decisions: String,
    pub action_items: String,
}

/// A setting record.
pub struct Setting {
    pub id: i64,
    pub key: String,
    pub value: String,
    pub created_at: UtcTime,
    pub updated_at: UtcTime,
}

pub const DEFAULT_AUDIO_DEVICE: &'static str = "default";
pub const DEFAULT_WHISPER_MODEL_SIZE: &'static str = "small";
pub const DEFAULT_LLM_PROVIDER: &'static str = "ollama";
pub const DEFAULT_API_KEY: &'static str = "";
pub const DEFAULT_API_ENDPOINT: &'static str = "https://api.openai.com/v1";
pub const DEFAULT_FIRST_LAUNCH_COMPLETED: &'static str = "false";
pub const DEFAULT_BLACKHOLE_INSTALL_ATTEMPTED: &'static str = "false";
pub const DEFAULT_API_MODEL: &'static str = "gpt-4o-mini";
pub const DEFAULT_DIARIZATION_ENABLED: &'static str = "true";
pub const DEFAULT_DIARIZATION_THRESHOLD: &'static str = "0.75";
pub const DEFAULT_AUDIO_RETENTION_DAYS: &'static str = "30";

/// The settings written on first start, key and value, in order; an
/// existing value is never overwritten.
pub open spec fn default_settings_spec() -> Seq<(Seq<char>, Seq<char>)> {
    seq![
        ("audio_device"@, DEFAULT_AUDIO_DEVICE@),
        ("whisper_model_size"@, DEFAULT_WHISPER_MODEL_SIZE@),
        ("llm_provider"@, DEFAULT_LLM_PROVIDER@),
        ("api_key"@, DEFAULT_API_KEY@),
        ("api_endpoint"@, DEFAULT_API_ENDPOINT@),
        ("first_launch_completed"@, DEFAULT_FIRST_LAUNCH_COMPLETED@),
        ("blackhole_install_attempted"@, DEFAULT_BLACKHOLE_INSTALL_ATTEMPTED@),
        ("api_model"@, DEFAULT_API_MODEL@),
        ("diarization_enabled"@, DEFAULT_DIARIZATION_ENABLED@),
        ("diarization_threshold"@, DEFAULT_DIARIZATION_THRESHOLD@),
    ]
}

/// Pairs of static strings, taken by characters.
pub open spec fn pair_views(v: Seq<(&'static str, &'static str)>) -> Seq<(Seq<char>, Seq<char>)> {
    Seq::new(v.len(), |i: int| (v[i].0@, v[i].1@))
}

/// The settings written on first start, key and value, in order.
pub fn default_settings() -> (r: Vec<(&'static str, &'static str)>)
    ensures
        pair_views(r@) == default_settings_spec(),
{
    let r = vec![
        ("audio_device", DEFAULT_AUDIO_DEVICE),
        ("whisper_model_size", DEFAULT_WHISPER_MODEL_SIZE),
        ("llm_provider", DEFAULT_LLM_PROVIDER),
        ("api_key", DEFAULT_API_KEY),
        ("api_endpoint", DEFAULT_API_ENDPOINT),
        ("first_launch_completed", DEFAULT_FIRST_LAUNCH_COMPLETED),
        ("blackhole_install_attempted", DEFAULT_BLACKHOLE_INSTALL_ATTEMPTED),
        ("api_model", DEFAULT_API_MODEL),
        ("diarization_enabled", DEFAULT_DIARIZATION_ENABLED),
        ("diarization_threshold", DEFAULT_DIARIZATION_THRESHOLD),
    ];
    assert(pair_views(r@) =~= default_settings_spec());
    r
}

/// The value a setting reads as: the stored value, or the default when
/// none is stored.
pub fn setting_or_default(stored: Option<String>, default_value: &str) -> (r: String)
    ensures
        r@ == match stored {
            Some(v) => v@,
            None => default_value@,
        },
{
    match stored {
        Some(v) => v,
        None => {
            let mut d = String::new();
            push_str(&mut d, default_value);
            d
        },
    }
}

/// The default a setting is read with when the frontend asks for it.
pub open spec fn requested_setting_default(key: Seq<char>) -> Seq<char> {
    if key == "audio_device"@ {
        DEFAULT_AUDIO_DEVICE@
    } else if key == "whisper_model_size"@ {
        DEFAULT_WHISPER_MODEL_SIZE@
    } else if key == "llm_provider"@ {
        DEFAULT_LLM_PROVIDER@
    } else if key == "api_key"@ {
        DEFAULT_API_KEY@
    } else if key == "api_endpoint"@ {
        DEFAULT_API_ENDPOINT@
    } else {
        ""@
    }
}

/// The default a setting is read with when the frontend asks for it: the
/// documented default of the five user-facing settings, empty otherwise.
pub fn default_for_setting(key: &str) -> (r: &'static str)
    ensures
        r@ == requested_setting_default(key@),
{
    if str_eq(key, "audio_device") {
        DEFAULT_AUDIO_DEVICE
    } else if str_eq(key, "whisper_model_size") {
        DEFAULT_WHISPER_MODEL_SIZE
    } else if str_eq(key, "llm_provider") {
        DEFAULT_LLM_PROVIDER
    } else if str_eq(key, "api_key") {
        DEFAULT_API_KEY
    } else if str_eq(key, "api_endpoint") {
        DEFAULT_API_ENDPOINT
    } else {
        ""
    }
}

} // verus!
