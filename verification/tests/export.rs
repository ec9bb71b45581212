use echo_note::db::{UtcTime, Meeting, Summary, Transcript};
use echo_note::export::{utc_time_representable, utc_timestamp_representable, export_filename, export_slug, format_duration, render_meeting_markdown, render_meeting_text};

fn meeting() -> Meeting {
    Meeting {
        id: 1,
        title: "Weekly Sync".to_string(),
        // 2026-05-06 15:56:00 UTC
        date: UtcTime { secs: 1778082960, nanos: 0 },
        duration_seconds: 3605,
        audio_path: "/tmp/rec.wav".to_string(),
        created_at: UtcTime { secs: 1778082960, nanos: 0 },
    }
}

fn transcript() -> Transcript {
    Transcript { id: 1, meeting_id: 1, content: "[00:00] Speaker 1: Hello world".to_string(), created_at: UtcTime { secs: 1778082960, nanos: 0 } }
}

fn summary() -> Summary {
    Summary {
        id: 1,
        meeting_id: 1,
        key_points: "- Discussed Q2 plan".to_string(),
        decisions: "None".to_string(),
        action_items: "- Alice: send notes".to_string(),
        created_at: UtcTime { secs: 1778082960, nanos: 0 },
    }
}

#[test]
fn markdown_export_includes_metadata() {
    let md = render_meeting_markdown(&meeting(), None, None);
    assert!(md.contains("# Weekly Sync"));
    assert!(md.contains("**Date:**"));
    assert!(md.contains("**Duration:** 1h 0m 05s"));
}

#[test]
fn markdown_export_includes_transcript_and_summary() {
    let md = render_meeting_markdown(&meeting(), Some(&transcript()), Some(&summary()));
    assert!(md.contains("## Summary"));
    assert!(md.contains("### Key Points"));
    assert!(md.contains("- Discussed Q2 plan"));
    assert!(md.contains("## Transcript"));
    assert!(md.contains("[00:00] Speaker 1: Hello world"));
    // "None" sections are skipped, not emitted as content
    assert!(!md.contains("Decisions\n\nNone"));
}

#[test]
fn markdown_export_handles_empty_sections() {
    let s = Summary {
        id: 1,
        meeting_id: 1,
        key_points: String::new(),
        decisions: String::new(),
        action_items: String::new(),
        created_at: UtcTime { secs: 1778082960, nanos: 0 },
    };
    let md = render_meeting_markdown(&meeting(), None, Some(&s));
    assert!(!md.contains("### Key Points"));
    assert!(!md.contains("### Decisions"));
    assert!(!md.contains("### Action Items"));
}

#[test]
fn text_export_has_plain_sections() {
    let text = render_meeting_text(&meeting(), Some(&transcript()), Some(&summary()));
    assert!(text.contains("--- Summary ---"));
    assert!(text.contains("--- Transcript ---"));
    assert!(text.contains("Alice: send notes"));
}

#[test]
fn markdown_export_is_exact() {
    let md = render_meeting_markdown(&meeting(), Some(&transcript()), Some(&summary()));
    assert_eq!(
        md,
        "# Weekly Sync\n\n- **Date:** 2026-05-06 15:56 UTC\n- **Duration:** 1h 0m 05s\n\n## Summary\n\n### Key Points\n\n- Discussed Q2 plan\n\n### Action Items\n\n- Alice: send notes\n\n\n## Transcript\n\n[00:00] Speaker 1: Hello world\n"
    );
}

#[test]
fn markdown_export_skips_none_sections_in_any_case() {
    let mut s = summary();
    s.decisions = "  NoNe \n".to_string();
    let md = render_meeting_markdown(&meeting(), None, Some(&s));
    assert!(!md.contains("### Decisions"));
    assert!(!md.contains("None"));
    s.decisions = "None yet".to_string();
    let md = render_meeting_markdown(&meeting(), None, Some(&s));
    assert!(md.contains("### Decisions\n\n- None yet\n"));
}

#[test]
fn text_export_is_exact() {
    let text = render_meeting_text(&meeting(), None, Some(&summary()));
    assert_eq!(
        text,
        "Weekly Sync\nDate: 2026-05-06 15:56 UTC\nDuration: 1h 0m 05s\n\n--- Summary ---\nKey Points:\n- Discussed Q2 plan\nDecisions:\nNone\nAction Items:\n- Alice: send notes\n"
    );
}

#[test]
fn duration_formatting() {
    assert_eq!(format_duration(65), "1m 05s");
    assert_eq!(format_duration(3605), "1h 0m 05s");
    assert_eq!(format_duration(30), "30s");
}

#[test]
fn negative_durations_print_only_seconds() {
    assert_eq!(format_duration(-65), "-5s");
    assert_eq!(format_duration(0), "0s");
}

#[test]
fn slug_handles_lowercase_and_separators() {
    assert_eq!(export_slug("Weekly Sync"), "weekly-sync");
    // Adjacent separators collapse to multiple dashes; only edges are trimmed.
    assert_eq!(export_slug("One-on-one: Carol"), "one-on-one--carol");
    assert_eq!(export_slug("  Padding Test  "), "padding-test");
}

#[test]
fn slug_keeps_unicode_alphanumerics_and_replaces_symbols() {
    assert_eq!(export_slug("Café ☕ Q3 Roadmap — 日本語"), "café---q3-roadmap---日本語");
}

#[test]
fn slug_falls_back_to_meeting_when_empty() {
    assert_eq!(export_slug(""), "meeting");
    assert_eq!(export_slug("!!!---???"), "meeting");
}

#[test]
fn filename_stamps_utc_date_with_ext() {
    let m = meeting();
    assert_eq!(export_filename(&m, "md"), "weekly-sync-20260506.md");
    assert_eq!(export_filename(&m, "txt"), "weekly-sync-20260506.txt");
}

#[test]
fn slugging_a_slug_changes_nothing() {
    for title in ["Weekly Sync", "One-on-one: Carol", "Café ☕ Q3 Roadmap — 日本語", "", "!!!---???"] {
        let slug = export_slug(title);
        assert_eq!(export_slug(&slug), slug);
    }
}

#[test]
fn representable_instants_follow_chronos_range() {
    assert!(utc_timestamp_representable(0));
    assert!(utc_timestamp_representable(-8334601315200));
    assert!(!utc_timestamp_representable(-8334601315201));
    assert!(utc_timestamp_representable(8210266876799));
    assert!(!utc_timestamp_representable(8210266876800));
    assert!(utc_time_representable(UtcTime { secs: 59, nanos: 1_500_000_000 }));
    assert!(!utc_time_representable(UtcTime { secs: 58, nanos: 1_500_000_000 }));
    assert!(utc_time_representable(UtcTime { secs: -1, nanos: 1_000_000_000 }));
    assert!(!utc_time_representable(UtcTime { secs: 59, nanos: 2_000_000_000 }));
}
