use echo_note::llm::{
    build_summary_json_prompt, build_summary_prompt, chat_completions_url, check_transcript, clean_section,
    clean_transcript, parse_summary_response, summary_from_api_choices, summary_from_json_value, summary_from_ollama_response,
    DEFAULT_OLLAMA_URL, DEFAULT_SUMMARY_MODEL,
};
use echo_note::json::JsonValue;

#[test]
fn test_build_summary_prompt() {
    let prompt = build_summary_prompt("Test transcript");
    assert!(prompt.contains("KEY POINTS"));
    assert!(prompt.contains("DECISIONS"));
    assert!(prompt.contains("ACTION ITEMS"));
    assert!(prompt.contains("Test transcript"));
}

#[test]
fn test_build_summary_json_prompt() {
    let prompt = build_summary_json_prompt("Test transcript");
    assert!(prompt.contains("\"key_points\""));
    assert!(prompt.contains("\"decisions\""));
    assert!(prompt.contains("\"action_items\""));
    assert!(prompt.contains("valid JSON object"));
    assert!(prompt.contains("Test transcript"));
}

#[test]
fn test_parse_summary_response() {
    let response = r#"KEY POINTS:
- Discussed project timeline
- Reviewed budget

DECISIONS:
- Approved Q1 plan

ACTION ITEMS:
- Alice: Prepare report
- Bob: Schedule follow-up"#;

    let summary = parse_summary_response(response);
    assert!(summary.key_points.contains("Discussed project timeline"));
    assert!(summary.decisions.contains("Approved Q1 plan"));
    assert!(summary.action_items.contains("Alice: Prepare report"));
}

#[test]
fn test_parse_summary_response_json() {
    let response = r#"{
  "key_points": ["Discussed project timeline", "Reviewed budget"],
  "decisions": ["Approved Q1 plan"],
  "action_items": ["Alice: Prepare report", "Bob: Schedule follow-up"]
}"#;

    let summary = parse_summary_response(response);
    assert_eq!(summary.key_points, "- Discussed project timeline\n- Reviewed budget");
    assert_eq!(summary.decisions, "- Approved Q1 plan");
    assert_eq!(summary.action_items, "- Alice: Prepare report\n- Bob: Schedule follow-up");
}

#[test]
fn test_parse_summary_response_markdown_fenced_json() {
    let response = r#"Here is the summary:

```json
{
  "Key Points": ["Discussed launch readiness"],
  "Decisions": "Ship the beta",
  "Action Items": [{"person": "Alice", "task": "Send release notes"}]
}
```"#;

    let summary = parse_summary_response(response);
    assert_eq!(summary.key_points, "- Discussed launch readiness");
    assert_eq!(summary.decisions, "- Ship the beta");
    assert_eq!(summary.action_items, "- Alice: Send release notes");
}

#[test]
fn test_parse_summary_response_lowercase_headers() {
    let response = r#"key points:
- Discussed project timeline

decisions:
- Approved Q1 plan

action items:
- Alice: Prepare report"#;

    let summary = parse_summary_response(response);
    assert_eq!(summary.key_points, "- Discussed project timeline");
    assert_eq!(summary.decisions, "- Approved Q1 plan");
    assert_eq!(summary.action_items, "- Alice: Prepare report");
}

#[test]
fn test_parse_summary_response_markdown_headers_with_missing_section() {
    let response = r#"## Key Points
- Discussed project timeline

## Action Items
- Alice: Prepare report"#;

    let summary = parse_summary_response(response);
    assert_eq!(summary.key_points, "- Discussed project timeline");
    assert_eq!(summary.decisions, "");
    assert_eq!(summary.action_items, "- Alice: Prepare report");
}

#[test]
fn test_parse_summary_response_json_missing_sections() {
    let response = r#"{"key_points": ["Discussed project timeline"]}"#;

    let summary = parse_summary_response(response);
    assert_eq!(summary.key_points, "- Discussed project timeline");
    assert_eq!(summary.decisions, "");
    assert_eq!(summary.action_items, "");
}

#[test]
fn test_parse_summary_response_malformed_response() {
    let response = "This is not structured summary content.";

    let summary = parse_summary_response(response);
    assert_eq!(summary.key_points, "");
    assert_eq!(summary.decisions, "");
    assert_eq!(summary.action_items, "");
}

#[test]
fn test_clean_section() {
    assert_eq!(clean_section("None"), "");
    assert_eq!(clean_section(""), "");
    assert_eq!(clean_section("Point 1\nPoint 2"), "- Point 1\n- Point 2");
    assert_eq!(clean_section("- Point 1\n- Point 2"), "- Point 1\n- Point 2");
}

#[test]
fn test_default_constants() {
    assert_eq!(DEFAULT_OLLAMA_URL, "http://localhost:11434");
    assert_eq!(DEFAULT_SUMMARY_MODEL, "llama3.2");
}

#[test]
fn test_clean_transcript() {
    let dirty = "[_BEG_] Hello world [_EOT_]";
    assert_eq!(clean_transcript(dirty), "Hello world");

    let with_pause = "[ Pause ] Discussing the project [ Pause ]";
    assert_eq!(clean_transcript(with_pause), "Discussing the project");

    let with_typing = "[typing] Important point [typing]";
    assert_eq!(clean_transcript(with_typing), "Important point");

    let messy = "  Multiple    spaces   here  ";
    assert_eq!(clean_transcript(messy), "Multiple spaces here");

    let only_special = "[_BEG_] [ Pause ] [typing] [_EOT_]";
    assert_eq!(clean_transcript(only_special), "");
}

#[test]
fn empty_transcripts_are_refused() {
    assert_eq!(
        check_transcript("  \n ").err().as_deref(),
        Some("Transcript is empty - no speech detected in the recording")
    );
    assert!(check_transcript("hello").is_ok());
}

#[test]
fn ollama_answers_without_sections_are_errors() {
    assert_eq!(
        summary_from_ollama_response("   ").err().as_deref(),
        Some("Ollama returned empty response - the model may not be loaded or the transcript was too short")
    );
    let e = summary_from_ollama_response("just chatting").err().unwrap();
    assert_eq!(
        e,
        "Failed to parse summary sections from model response. The model may not be following the expected format. Response preview: just chatting"
    );
    let long = "x".repeat(300);
    let e = summary_from_ollama_response(&long).err().unwrap();
    assert!(e.ends_with(&"x".repeat(200)));
    assert!(!e.ends_with(&"x".repeat(201)));
    let ok = summary_from_ollama_response("DECISIONS:\n- Ship it").unwrap();
    assert_eq!(ok.decisions, "- Ship it");
}

#[test]
fn api_answers_are_read_from_the_first_choice() {
    let s = summary_from_api_choices(&vec![r#"{"decisions": ["A"]}"#.to_string(), "ignored".to_string()]);
    assert_eq!(s.decisions, "- A");
    let empty = summary_from_api_choices(&Vec::new());
    assert_eq!(empty.key_points, "");
}

#[test]
fn chat_completion_urls_accept_base_and_full_endpoints() {
    assert_eq!(chat_completions_url("https://api.openai.com/v1"), "https://api.openai.com/v1/chat/completions");
    assert_eq!(chat_completions_url("https://h/x/"), "https://h/x/chat/completions");
    assert_eq!(chat_completions_url("https://h/chat/completions"), "https://h/chat/completions");
    assert_eq!(chat_completions_url("https://h"), "https://h/chat/completions");
}

#[test]
fn json_document_sections_are_chosen_and_cleaned() {
    let doc = JsonValue::Object(
        vec![
            (
                "keyPoints".to_string(),
                JsonValue::Array(
                    vec![JsonValue::Str("Budget agreed".to_string()), JsonValue::Str("  ".to_string())],
                    "[\"Budget agreed\",\"  \"]".to_string(),
                ),
            ),
            ("decisions".to_string(), JsonValue::Str("None".to_string())),
        ],
        "{}".to_string(),
    );
    let p = summary_from_json_value(&doc).unwrap();
    assert_eq!(p.key_points, "- Budget agreed");
    assert_eq!(p.decisions, "");
    assert_eq!(p.action_items, "");

    let empty = JsonValue::Object(vec![("decisions".to_string(), JsonValue::Str("none".to_string()))], "{}".to_string());
    assert!(summary_from_json_value(&empty).is_none());
}

#[test]
fn cleaning_a_cleaned_section_changes_nothing() {
    for content in ["Budget agreed\n  * ship v2 \r\n\n• hire", "None", "  ", "- a\n-b\nc"] {
        let once = clean_section(content);
        assert_eq!(clean_section(&once), once);
    }
}

#[test]
fn trimming_agrees_with_std_whitespace_on_every_char() {
    for n in 0u32..=0x10FFFF {
        if let Some(c) = char::from_u32(n) {
            let t = echo_note::text::trimmed(&vec![c]);
            assert_eq!(t.is_empty(), c.is_whitespace(), "U+{n:04X}");
        }
    }
}
