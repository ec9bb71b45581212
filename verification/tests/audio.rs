use echo_note::audio::{
    assign_device_ids, audio_device_id_from_hash, check_can_start, recording_stamp, collect_device_diagnostics, find_input_device,
    is_blackhole_device_match, is_capture_format, is_microphone_device_match, list_audio_devices,
    make_audio_device_id, max_samples_for, next_device_occurrence, plan_recording_stop, recording_file_name,
    recording_step, resolve_input_choice, sample_format_label, AudioMix, CaptureInfo, DeviceNameCounts,
    InputChoice, InputConfig, RecordingAction, RecordingCommand, RecordingEvent, SampleBuffer, SampleFormat,
    ThreadOutcome, MAX_RECORDING_DURATION_SECS,
};

#[test]
fn max_samples_for_scales_with_sample_rate() {
    assert_eq!(max_samples_for(16000), MAX_RECORDING_DURATION_SECS as usize * 16000);
    assert_eq!(max_samples_for(48000), MAX_RECORDING_DURATION_SECS as usize * 48000);
}

#[test]
fn circular_buffer_drops_oldest_samples_after_cap() {
    let mut buffer = SampleBuffer::new(4);

    for i in 0..6 {
        buffer.push(i as f32);
    }

    let final_samples: Vec<f32> = buffer.to_vec();
    assert_eq!(final_samples, vec![2.0, 3.0, 4.0, 5.0]);
    assert!(buffer.is_truncated());
}

#[test]
fn circular_buffer_keeps_all_samples_below_cap() {
    let mut buffer = SampleBuffer::new(100);

    for i in 0..3 {
        buffer.push(i as f32);
    }

    assert_eq!(buffer.len(), 3);
    assert!(!buffer.is_truncated());
}

#[test]
fn circular_buffer_push_all_matches_single_pushes() {
    let mut one_by_one = SampleBuffer::new(3);
    for s in [1i16, 2, 3, 4, 5] {
        one_by_one.push(s);
    }
    let mut at_once = SampleBuffer::new(3);
    at_once.push_all(&[1i16, 2]);
    at_once.push_all(&[3i16, 4, 5]);
    assert_eq!(one_by_one.to_vec(), vec![3, 4, 5]);
    assert_eq!(at_once.to_vec(), one_by_one.to_vec());
    assert!(at_once.is_truncated());
}

#[test]
fn circular_buffer_with_zero_cap_keeps_nothing() {
    let mut buffer = SampleBuffer::new(0);
    buffer.push(1.5f32);
    assert_eq!(buffer.len(), 0);
    assert!(buffer.is_truncated());
}

#[test]
fn make_audio_device_id_is_stable_for_same_name_and_occurrence() {
    let first = make_audio_device_id("Studio Display Microphone", 0);
    let second = make_audio_device_id("Studio Display Microphone", 0);

    assert_eq!(first, second);
    assert!(first.starts_with("coreaudio-input:"));
}

#[test]
fn make_audio_device_id_disambiguates_duplicate_names() {
    assert_ne!(
        make_audio_device_id("USB Audio Device", 0),
        make_audio_device_id("USB Audio Device", 1)
    );
}

#[test]
fn device_id_has_sixteen_hex_digits_and_occurrence() {
    assert_eq!(audio_device_id_from_hash(0xab, 3), "coreaudio-input:00000000000000ab:3");
    assert_eq!(
        audio_device_id_from_hash(u64::MAX, 12),
        "coreaudio-input:ffffffffffffffff:12"
    );
    let id = make_audio_device_id("Mic", 7);
    assert_eq!(id.len(), "coreaudio-input:".len() + 16 + 2);
    assert!(id.ends_with(":7"));
}

#[test]
fn device_ids_of_different_names_differ() {
    assert_ne!(make_audio_device_id("USB Audio Device", 0), make_audio_device_id("Built-in Microphone", 0));
}

#[test]
fn next_device_occurrence_counts_per_name() {
    let mut counts = DeviceNameCounts::new();

    assert_eq!(next_device_occurrence(&mut counts, "Mic"), 0);
    assert_eq!(next_device_occurrence(&mut counts, "Mic"), 1);
    assert_eq!(next_device_occurrence(&mut counts, "Other Mic"), 0);
}

#[test]
fn device_name_match_helpers_preserve_legacy_fallbacks() {
    assert!(is_blackhole_device_match("BlackHole2ch", "BlackHole 2ch"));
    assert!(is_microphone_device_match("external microphone", "External Mic"));
    assert!(!is_microphone_device_match("external microphone", "Studio Speakers"));
}

#[test]
fn sample_format_label_maps_supported_formats() {
    assert_eq!(sample_format_label(SampleFormat::F32), "f32");
    assert_eq!(sample_format_label(SampleFormat::I16), "i16");
    assert_eq!(sample_format_label(SampleFormat::U16), "u16");
    assert_eq!(sample_format_label(SampleFormat::F64), "f64");
    assert_eq!(sample_format_label(SampleFormat::I32), "i32");
}

#[test]
fn sample_format_label_is_stable_across_unknown_formats() {
    assert_eq!(sample_format_label(SampleFormat::U64), "u64");
    assert_eq!(sample_format_label(SampleFormat::I8), "i8");
    assert_eq!(sample_format_label(SampleFormat::U8), "u8");
    assert_eq!(sample_format_label(SampleFormat::Unknown), "unknown");
}

#[test]
fn capture_supports_f32_and_16_bit_formats_only() {
    assert!(is_capture_format(SampleFormat::F32));
    assert!(is_capture_format(SampleFormat::I16));
    assert!(is_capture_format(SampleFormat::U16));
    assert!(!is_capture_format(SampleFormat::I32));
    assert!(!is_capture_format(SampleFormat::Unknown));
}

#[test]
fn recording_file_names_number_later_attempts() {
    assert_eq!(recording_file_name("20260730_120000", 0), "recording_20260730_120000.wav");
    assert_eq!(recording_file_name("20260730_120000", 1), "recording_20260730_120000_1.wav");
    assert_eq!(recording_file_name("20260730_120000", 2), "recording_20260730_120000_2.wav");
}

fn pair(id: &str, name: &str) -> (String, String) {
    (id.to_string(), name.to_string())
}

#[test]
fn input_device_is_found_by_id_then_name_then_fallbacks() {
    let devices = vec![
        pair("id-mic", "External Mic"),
        pair("id-bh", "BlackHole 2ch"),
        pair("id-speakers", "Studio Speakers"),
    ];
    assert_eq!(find_input_device(&devices, "id-bh"), Some(1));
    assert_eq!(find_input_device(&devices, "Studio Speakers"), Some(2));
    assert_eq!(find_input_device(&devices, "BlackHole2ch"), Some(1));
    assert_eq!(find_input_device(&devices, "external microphone"), Some(0));
    assert_eq!(find_input_device(&devices, "Unknown Device"), None);
}

#[test]
fn input_choice_prefers_default_then_listed_then_fallback() {
    let devices = vec![pair("id-mic", "External Mic")];
    assert!(matches!(resolve_input_choice(&devices, "default"), InputChoice::Default));
    assert!(matches!(resolve_input_choice(&devices, "id-mic"), InputChoice::Listed(0)));
    assert!(matches!(resolve_input_choice(&devices, "gone"), InputChoice::FallbackDefault));
}

#[test]
fn assigned_ids_number_duplicate_names() {
    let names = vec!["USB".to_string(), "Mic".to_string(), "USB".to_string()];
    let ids = assign_device_ids(&names);
    assert_eq!(ids[0], make_audio_device_id("USB", 0));
    assert_eq!(ids[1], make_audio_device_id("Mic", 0));
    assert_eq!(ids[2], make_audio_device_id("USB", 1));
    assert_ne!(ids[0], ids[2]);
}

#[test]
fn device_list_starts_with_default_microphone() {
    let names = vec!["Mic".to_string()];
    let list = list_audio_devices(&names);
    assert_eq!(list.len(), 2);
    assert_eq!(list[0], pair("default", "Default Microphone"));
    assert_eq!(list[1], (make_audio_device_id("Mic", 0), "Mic".to_string()));
}

#[test]
fn diagnostics_name_unreadable_devices_and_keep_missing_configs_empty() {
    let devices = vec![
        (
            Some("Mic".to_string()),
            Some(InputConfig { sample_format: SampleFormat::F32, channels: 2, sample_rate: 48000 }),
        ),
        (None, None),
    ];
    let d = collect_device_diagnostics(&devices);
    assert_eq!(d.len(), 2);
    assert_eq!(d[0].name, "Mic");
    assert_eq!(d[0].id, make_audio_device_id("Mic", 0));
    assert_eq!(d[0].sample_format.as_deref(), Some("f32"));
    assert_eq!(d[0].channels, Some(2));
    assert_eq!(d[0].sample_rate, Some(48000));
    assert_eq!(d[1].name, "Unknown device");
    assert_eq!(d[1].id, make_audio_device_id("Unknown device", 0));
    assert!(d[1].sample_format.is_none() && d[1].channels.is_none() && d[1].sample_rate.is_none());
}

#[test]
fn recording_thread_stops_on_command_and_exits_when_recording_ends() {
    assert!(recording_step(RecordingEvent::Command(RecordingCommand::Stop)) == RecordingAction::StopStream);
    assert!(recording_step(RecordingEvent::Timeout { still_recording: true }) == RecordingAction::Wait);
    assert!(recording_step(RecordingEvent::Timeout { still_recording: false }) == RecordingAction::Exit);
}

#[test]
fn stop_plan_mixes_when_both_threads_finish() {
    let plan = plan_recording_stop(
        true,
        Some(ThreadOutcome::Finished(CaptureInfo { sample_rate: 48000, truncated: false })),
        Some(ThreadOutcome::Finished(CaptureInfo { sample_rate: 44100, truncated: true })),
    )
    .unwrap();
    assert!(plan.mix == AudioMix::Mixed);
    assert!(plan.audio_truncated);
    assert_eq!(plan.output_sample_rate, 48000);
    assert!(plan.used_system_audio);
    assert!(plan.system_audio_error.is_none());
}

#[test]
fn stop_plan_falls_back_to_mic_when_system_audio_fails() {
    let plan = plan_recording_stop(
        true,
        Some(ThreadOutcome::Finished(CaptureInfo { sample_rate: 16000, truncated: false })),
        Some(ThreadOutcome::Panicked),
    )
    .unwrap();
    assert!(plan.mix == AudioMix::MicOnly);
    assert!(!plan.used_system_audio);
    assert_eq!(plan.system_audio_error.as_deref(), Some("System audio recording thread panicked"));
}

#[test]
fn stop_plan_errors() {
    assert_eq!(
        plan_recording_stop(false, None, None).err().as_deref(),
        Some("No active recording to stop")
    );
    assert_eq!(
        plan_recording_stop(true, Some(ThreadOutcome::Failed("device lost".to_string())), None)
            .err()
            .as_deref(),
        Some("Mic recording failed: device lost")
    );
    assert_eq!(
        plan_recording_stop(true, Some(ThreadOutcome::Panicked), None).err().as_deref(),
        Some("Mic recording thread panicked")
    );
    assert_eq!(
        plan_recording_stop(
            true,
            None,
            Some(ThreadOutcome::Finished(CaptureInfo { sample_rate: 16000, truncated: false }))
        )
        .err()
        .as_deref(),
        Some("No audio data recorded")
    );
}

#[test]
fn a_second_recording_cannot_start() {
    assert_eq!(check_can_start(false), Ok(()));
    assert_eq!(check_can_start(true), Err("Recording is already in progress".to_string()));
}

#[test]
fn recording_stamp_is_utc_date_and_time() {
    assert_eq!(recording_stamp(1778082960), "20260506_155600");
    assert_eq!(recording_file_name(&recording_stamp(1785412800), 0), "recording_20260730_120000.wav");
}
