use echo_note::whisper::{
    diarized_speakers, format_timestamp, format_transcript_segments, get_model_filename, get_models_info,
    model_expected_size, segment_text, transcript_text, window_source_frames, ModelCache, SegmentLine,
    DEFAULT_MODEL_SIZE, MAX_CACHED_WHISPER_MODELS,
};

#[test]
fn model_cache_loads_once_and_reuses() {
    let mut cache = ModelCache::<u32>::default();
    let mut loads = 0;

    for _ in 0..3 {
        let value = cache.get_or_load("small", || -> Result<u32, String> {
            loads += 1;
            Ok(42)
        });
        assert_eq!(value.unwrap(), &42);
    }

    assert_eq!(loads, 1);
}

#[test]
fn model_cache_evicts_oldest_beyond_capacity() {
    let mut cache = ModelCache::<u32>::with_capacity(2);

    cache.insert("tiny".to_string(), 1);
    cache.insert("base".to_string(), 2);
    cache.insert("small".to_string(), 3);

    assert!(cache.get("tiny").is_none(), "oldest entry should be evicted");
    assert_eq!(cache.get("base"), Some(&2));
    assert_eq!(cache.get("small"), Some(&3));
    assert_eq!(cache.len(), 2);
}

#[test]
fn model_cache_replaces_existing_key_without_duplicating() {
    let mut cache = ModelCache::<u32>::with_capacity(2);

    cache.insert("small".to_string(), 1);
    cache.insert("small".to_string(), 2);

    assert_eq!(cache.len(), 1);
    assert_eq!(cache.get("small"), Some(&2));
}

#[test]
fn model_cache_hit_does_not_reload() {
    let mut cache = ModelCache::<u32>::default();
    cache.insert("small".to_string(), 1);

    let result = cache.get_or_load("small", || -> Result<u32, String> { Err("should not load".to_string()) });
    assert_eq!(result.unwrap(), &1);
    assert_eq!(cache.len(), 1);
}

#[test]
fn model_cache_load_failure_returns_error_and_keeps_cache_clean() {
    let mut cache = ModelCache::<u32>::default();

    let result = cache.get_or_load("small", || -> Result<u32, String> { Err("model file corrupt".to_string()) });
    assert!(result.is_err());
    assert!(cache.is_empty(), "failed load must not leave an entry");

    let value = cache.get_or_load("small", || -> Result<u32, String> { Ok(7) });
    assert_eq!(value.unwrap(), &7);
    assert_eq!(cache.len(), 1);
}

#[test]
fn model_cache_remove_and_clear() {
    let mut cache = ModelCache::<u32>::default();
    cache.insert("a".to_string(), 1);
    cache.insert("b".to_string(), 2);

    assert_eq!(cache.remove("a"), Some(1));
    assert!(cache.get("a").is_none());

    cache.clear();
    assert!(cache.is_empty());
}

#[test]
fn default_cache_holds_two_models() {
    let mut cache = ModelCache::<u32>::default();
    for (i, k) in ["a", "b", "c"].iter().enumerate() {
        cache.insert(k.to_string(), i as u32);
    }
    assert_eq!(cache.len(), MAX_CACHED_WHISPER_MODELS);
    assert!(cache.get("a").is_none());
}

#[test]
fn test_get_model_filename() {
    assert_eq!(get_model_filename("tiny").unwrap(), "ggml-tiny.bin");
    assert_eq!(get_model_filename("small").unwrap(), "ggml-small.bin");
    assert!(get_model_filename("invalid").is_err());
    assert_eq!(get_model_filename("invalid").err().as_deref(), Some("Invalid model size: invalid"));
}

#[test]
fn test_default_model() {
    assert_eq!(DEFAULT_MODEL_SIZE, "small");
}

#[test]
fn expected_sizes_come_from_the_table() {
    assert_eq!(model_expected_size("tiny"), 78_000_000);
    assert_eq!(model_expected_size("large-v3-turbo-q5_0"), 574_000_000);
    assert_eq!(model_expected_size("nope"), 0);
}

#[test]
fn models_info_reports_sizes_only_for_downloaded_models() {
    let mut found = vec![(false, None); 10];
    found[0] = (true, Some(78_000_000));
    found[1] = (false, Some(5));
    let info = get_models_info(&found);
    assert_eq!(info.len(), 10);
    assert_eq!(info[0].size, "tiny");
    assert_eq!(info[0].filename, "ggml-tiny.bin");
    assert!(info[0].is_downloaded);
    assert_eq!(info[0].actual_size, Some(78_000_000));
    assert_eq!(info[1].actual_size, None);
    assert_eq!(info[9].size, "large-v3-turbo-q5_0");
}

/// Whole seconds of a timestamp, as the transcription pipeline takes them.
fn whole_seconds(seconds: f64) -> u64 {
    seconds.max(0.0).floor() as u64
}

#[test]
fn test_format_timestamp() {
    assert_eq!(format_timestamp(whole_seconds(0.0)), "00:00");
    assert_eq!(format_timestamp(whole_seconds(65.9)), "01:05");
    assert_eq!(format_timestamp(whole_seconds(3661.2)), "01:01:01");
}

#[test]
fn test_format_transcript_segments() {
    let segments = vec![
        SegmentLine { start_seconds: whole_seconds(0.0), speaker: "Speaker 1".to_string(), text: "Hello".to_string() },
        SegmentLine {
            start_seconds: whole_seconds(62.0),
            speaker: "Speaker 1".to_string(),
            text: "Follow up tomorrow".to_string(),
        },
    ];

    assert_eq!(
        format_transcript_segments(&segments),
        "[00:00] Speaker 1: Hello\n[01:02] Speaker 1: Follow up tomorrow"
    );
}

#[test]
fn segment_texts_are_trimmed_and_blank_ones_skipped() {
    assert_eq!(segment_text("  Hello there \n"), Some("Hello there".to_string()));
    assert_eq!(segment_text("   "), None);
    assert_eq!(transcript_text(&vec!["Hello".to_string(), "world".to_string()]), "Hello world");
    assert_eq!(transcript_text(&Vec::new()), "");
}

#[test]
fn diarization_labels_apply_only_for_several_speakers() {
    let two = vec!["Speaker A".to_string(), "Speaker B".to_string()];
    assert_eq!(diarized_speakers(2, &two), two);
    let one = vec!["Speaker A".to_string(), "Speaker A".to_string()];
    assert_eq!(diarized_speakers(2, &one), vec!["Speaker 1", "Speaker 1"]);
    assert_eq!(diarized_speakers(3, &two), vec!["Speaker 1", "Speaker 1", "Speaker 1"]);
}

#[test]
fn windows_hold_thirty_seconds_of_source_frames() {
    assert_eq!(window_source_frames(16000), 480_000);
    assert_eq!(window_source_frames(44100), 1_323_000);
    assert_eq!(window_source_frames(0), 1);
}
