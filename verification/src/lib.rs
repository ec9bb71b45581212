//! Verified core of a meeting-notes application: recording buffers and
//! device selection, transcript assembly, speaker labelling, summary prompts
//! and parsing, meeting export, recording retention, caches and secret
//! storage.
use vstd::prelude::*;

pub mod text;
pub mod assoc;
pub mod audio;
pub mod cleanup;
pub mod db;
pub mod diarization;
pub mod whisper;
pub mod keychain;
pub mod export;
pub mod json;
pub mod llm;
pub mod commands;
pub mod system_audio;

verus! {

/// Response wrapper for consistent API responses.
pub struct ApiResponse<T> {
    pub success: bool,
    pub data: Option<T>,
    pub error: Option<String>,
}

impl<T> ApiResponse<T> {
    /// A successful response carrying `data`.
    pub fn success(data: T) -> (r: Self)
        ensures
            r.success,
            r.data == Some(data),
            r.error is None,
    {
        ApiResponse { success: true, data: Some(data), error: None }
    }

    /// A failed response carrying an error message.
    pub fn error(message: String) -> (r: Self)
        ensures
            !r.success,
            r.data is None,
            r.error == Some(message),
    {
        ApiResponse { success: false, data: None, error: Some(message) }
    }
}

} // verus!
