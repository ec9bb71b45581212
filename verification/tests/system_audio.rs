use echo_note::system_audio::{
    dedupe_device_names, devices_from_profiler_output, extract_json_string_value, extract_text_device_heading,
    find_blackhole_device, get_blackhole_device_name, has_lone_quote_line, is_audio_device_name_key, checked_devices_from_profiler_output,
    is_blackhole_device_name, is_blackhole_installed, parse_system_profiler_audio_devices_from_text,
    should_use_blackhole,
};

fn names(v: &[&str]) -> Vec<String> {
    v.iter().map(|s| s.to_string()).collect()
}

#[test]
fn test_extract_json_string_value() {
    let line = r#""_name" : "MacBook Pro Speakers""#;
    assert_eq!(extract_json_string_value(line), Some("MacBook Pro Speakers".to_string()));
}

#[test]
fn test_extract_json_string_value_ignores_non_name_keys() {
    let line = r#""manufacturer" : "BlackHole Audio""#;
    assert_eq!(extract_json_string_value(line), None);
}

#[test]
fn test_parse_system_profiler_current_items_shape() {
    let stdout = r#"{
        "SPAudioDataType": [
            {
                "_items": [
                    { "_name": "MacBook Pro Speakers" },
                    { "_name": "BlackHole 2ch" }
                ]
            }
        ]
    }"#;
    assert_eq!(devices_from_profiler_output(stdout), Ok(names(&["MacBook Pro Speakers", "BlackHole 2ch"])));
}

#[test]
fn test_parse_system_profiler_named_items_shape() {
    let stdout = r#"{
        "SPAudioDataType": [
            {
                "items": [
                    { "name": "Studio Display Speakers" },
                    { "spaudio_device_name": "BlackHole 16ch" }
                ]
            }
        ]
    }"#;
    assert_eq!(devices_from_profiler_output(stdout), Ok(names(&["Studio Display Speakers", "BlackHole 16ch"])));
}

#[test]
fn test_parse_system_profiler_deeply_nested_shape() {
    let stdout = r#"{
        "SPAudioDataType": [
            {
                "audio": {
                    "devices": [
                        { "coreaudio_device_name": "External Headphones", "channels": 2 },
                        { "device_name": "BlackHole2ch", "channels": 2 }
                    ]
                }
            }
        ]
    }"#;
    assert_eq!(devices_from_profiler_output(stdout), Ok(names(&["External Headphones", "BlackHole2ch"])));
}

#[test]
fn json_without_device_names_is_an_error() {
    assert_eq!(
        devices_from_profiler_output(r#"{"SPAudioDataType": []}"#),
        Err("system_profiler JSON did not contain audio device names".to_string())
    );
}

#[test]
fn test_parse_system_profiler_text_output_shape() {
    let stdout = r#"
Audio:

    Devices:

        MacBook Pro Speakers:

          Default Output Device: Yes
          Manufacturer: Apple Inc.

        BlackHole 2ch:

          Input Channels: 2
          Output Channels: 2
"#;

    assert_eq!(
        parse_system_profiler_audio_devices_from_text(stdout),
        vec!["MacBook Pro Speakers", "BlackHole 2ch"]
    );
}

#[test]
fn test_parse_system_profiler_text_json_line_shape() {
    let stdout = r#"
          "_name" : "MacBook Pro Speakers",
          "_name" : "BlackHole \"2ch\"",
"#;

    assert_eq!(
        parse_system_profiler_audio_devices_from_text(stdout),
        vec!["MacBook Pro Speakers", "BlackHole \"2ch\""]
    );
}

#[test]
fn non_json_output_is_read_as_text() {
    let stdout = "Audio:\n\n    Devices:\n\n        BlackHole 2ch:\n";
    assert_eq!(devices_from_profiler_output(stdout), Ok(names(&["BlackHole 2ch"])));
}

#[test]
fn lone_quote_name_lines_are_detected() {
    assert!(has_lone_quote_line("x\n  \"_name\" : \",\n"));
    assert!(!has_lone_quote_line("  \"_name\" : \"ok\",\n"));
}

#[test]
fn headings_skip_generic_sections() {
    assert_eq!(extract_text_device_heading("        BlackHole 2ch:"), Some("BlackHole 2ch".to_string()));
    assert_eq!(extract_text_device_heading("Audio:"), None);
    assert_eq!(extract_text_device_heading("  Input Channels: 2"), None);
    assert_eq!(extract_text_device_heading("   :"), None);
}

#[test]
fn names_dedupe_ignoring_ascii_case() {
    assert_eq!(
        dedupe_device_names(names(&["Mic", "MIC", "Speakers", "mic"])),
        names(&["Mic", "Speakers"])
    );
}

#[test]
fn name_keys_and_blackhole_names_ignore_case() {
    assert!(is_audio_device_name_key("_NAME"));
    assert!(is_audio_device_name_key("Device_Name"));
    assert!(!is_audio_device_name_key("manufacturer"));
    assert!(is_blackhole_device_name("blackHOLE 16ch"));
    assert!(!is_blackhole_device_name("Speakers"));
}

#[test]
fn blackhole_detection_tries_each_probe_in_turn() {
    let listed = Ok(names(&["Speakers", "BlackHole 2ch"]));
    assert!(is_blackhole_installed(&listed, None, &Vec::new()));
    assert_eq!(get_blackhole_device_name(&listed), Some("BlackHole 2ch".to_string()));
    assert_eq!(find_blackhole_device(&names(&["Speakers"])), None);

    let failed: Result<Vec<String>, String> = Err("system_profiler failed".to_string());
    assert!(!is_blackhole_installed(&failed, Some("Speakers"), &names(&["Other.driver"])));
    assert!(is_blackhole_installed(&failed, Some("... BLACKHOLE ..."), &Vec::new()));
    assert!(is_blackhole_installed(&failed, None, &names(&["BlackHole2ch.driver"])));
    assert!(should_use_blackhole(&failed, None, &names(&["BlackHole2ch.driver"])));
    assert_eq!(get_blackhole_device_name(&failed), None);
}

#[test]
fn lone_quote_output_is_an_error_not_a_panic() {
    assert_eq!(
        checked_devices_from_profiler_output("x\n  \"_name\" : \",\n"),
        Err("system_profiler output has a name value that is a lone quote".to_string())
    );
    assert_eq!(
        checked_devices_from_profiler_output("Audio:\n\n    Devices:\n\n        BlackHole 2ch:\n"),
        Ok(vec!["BlackHole 2ch".to_string()])
    );
}
