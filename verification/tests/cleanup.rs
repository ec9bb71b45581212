use echo_note::cleanup::{
    cleanup_summary, expired_recordings, is_expired, is_recording_file, retention_window_secs, storage_usage,
    RecordingEntry, StorageEntry,
};

const HOUR: u64 = 60 * 60;

fn entry(name: &str, age_hours: u64) -> RecordingEntry {
    RecordingEntry { file_name: name.to_string(), is_file: true, size: 1024, age: Some((age_hours * HOUR, 0)) }
}

#[test]
fn recording_files_are_wav_in_any_case() {
    assert!(is_recording_file("old.wav"));
    assert!(is_recording_file("LOUD.WAV"));
    assert!(is_recording_file("archive.tar.wav"));
    assert!(!is_recording_file("notes.txt"));
    assert!(!is_recording_file("wav"));
    assert!(!is_recording_file(".wav"));
    assert!(!is_recording_file("recording.wav.bak"));
}

#[test]
fn cleanup_removes_only_expired_files() {
    let entries = vec![entry("old.wav", 40 * 24), entry("new.wav", 1)];
    let expired = expired_recordings(&entries, 30);
    assert_eq!(expired, vec![0]);
    let freed: Vec<u64> = expired.iter().map(|&i| entries[i].size).collect();
    let summary = cleanup_summary(30, &freed);
    assert_eq!(summary.deleted_count, 1);
    assert_eq!(summary.freed_bytes, 1024);
}

#[test]
fn cleanup_ignores_non_recording_files() {
    let entries = vec![entry("notes.txt", 40 * 24), entry("keep.wav", 40 * 24)];
    assert_eq!(expired_recordings(&entries, 30), vec![1]);
}

#[test]
fn cleanup_zero_days_disables_cleanup() {
    let entries = vec![entry("old.wav", 40 * 24)];
    assert!(expired_recordings(&entries, 0).is_empty());
    let summary = cleanup_summary(0, &Vec::new());
    assert_eq!(summary.deleted_count, 0);
    assert_eq!(summary.retention_days, 0);
}

#[test]
fn cleanup_missing_dir_returns_empty_summary() {
    let entries: Vec<RecordingEntry> = Vec::new();
    let freed: Vec<u64> = expired_recordings(&entries, 30).iter().map(|&i| entries[i].size).collect();
    let summary = cleanup_summary(30, &freed);
    assert_eq!(summary.deleted_count, 0);
}

#[test]
fn metadata_read_failure_skips_instead_of_guessing_epoch_age() {
    let unreadable = RecordingEntry { file_name: "broken.wav".to_string(), is_file: true, size: 0, age: None };
    assert!(!is_expired(&unreadable, 30));
    assert!(is_expired(&entry("old.wav", 40 * 24), 30));
}

#[test]
fn age_exactly_at_retention_is_kept_and_a_moment_later_expires() {
    let window = 30 * 24 * HOUR;
    let at = RecordingEntry { file_name: "a.wav".to_string(), is_file: true, size: 1, age: Some((window, 0)) };
    let past = RecordingEntry { file_name: "a.wav".to_string(), is_file: true, size: 1, age: Some((window, 1)) };
    assert!(!is_expired(&at, 30));
    assert!(is_expired(&past, 30));
}

#[test]
fn directories_are_never_removed() {
    let dir = RecordingEntry { file_name: "folder.wav".to_string(), is_file: false, size: 0, age: Some((u64::MAX, 0)) };
    assert!(!is_expired(&dir, 1));
}

#[test]
fn retention_window_saturates() {
    assert_eq!(retention_window_secs(30), 30 * 24 * HOUR);
    assert_eq!(retention_window_secs(u64::MAX), u64::MAX);
}

fn storage(name: &str, size: Option<u64>) -> StorageEntry {
    StorageEntry { file_name: name.to_string(), is_file: true, size }
}

#[test]
fn storage_usage_counts_recording_bytes() {
    let entries = vec![storage("a.wav", Some(1024)), storage("b.wav", Some(1024)), storage("notes.txt", Some(1024))];
    let usage = storage_usage(&entries, "/tmp/recordings");
    assert_eq!(usage.file_count, 2);
    assert_eq!(usage.total_bytes, 2048);
    assert_eq!(usage.recordings_dir, "/tmp/recordings");
}

#[test]
fn storage_usage_missing_dir_is_zero() {
    let usage = storage_usage(&Vec::new(), "/tmp/missing");
    assert_eq!(usage.file_count, 0);
    assert_eq!(usage.total_bytes, 0);
}

#[test]
fn storage_usage_skips_unreadable_entries() {
    let entries = vec![storage("a.wav", None), storage("b.wav", Some(10))];
    let usage = storage_usage(&entries, "d");
    assert_eq!(usage.file_count, 1);
    assert_eq!(usage.total_bytes, 10);
}
