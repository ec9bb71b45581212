//! Meeting export.
//!
//! Renders a meeting — metadata, transcript, and summary — into Markdown or
//! plain text so users can archive or share meeting notes, and builds the
//! export file name.
use vstd::prelude::*;

use crate::db::{Meeting, Summary, Transcript, UtcTime};
use crate::text::{
    ascii_alphanumeric, ascii_lower, ascii_lower_seq, char_is_alphanumeric, chars_of, is_alphanumeric, is_none, is_none_word, lines, push_char, push_decimal, push_range,
    push_signed_decimal, push_str, push_two_digits, signed_decimal, split_lines, str_lowercase, to_lowercase,
    trim, trim_bounds, trimmed, two_digits, decimal,
};

verus! {

// ---------------------------------------------------------------------------
// Dates (chrono)
// ---------------------------------------------------------------------------

/// The text chrono renders for the UTC instant `secs` seconds after the Unix
/// epoch with the format string `fmt`.
pub uninterp spec fn chrono_utc_format(secs: int, fmt: Seq<char>) -> Seq<char>;

/// chrono represents instants from -262143-01-01 to 262142-12-31; these are
/// the first and last whole seconds of that range.
pub open spec fn utc_timestamp_in_range(secs: int) -> bool {
    -8334601315200 <= secs <= 8210266876799
}

/// The format of dates in export headers.
pub const HUMAN_DATE_FORMAT: &'static str = "%Y-%m-%d %H:%M UTC";

/// The format of dates in export file names.
pub const FILE_DATE_FORMAT: &'static str = "%Y%m%d";

/// The format of the stamp in recording file names.
pub const RECORDING_STAMP_FORMAT: &'static str = "%Y%m%d_%H%M%S";

/// Calls chrono's `DateTime::from_timestamp(secs, 0)` and formats the
/// instant with `format(fmt)`. The contract claims only that the text is the
/// named result `chrono_utc_format(secs, fmt)`; `from_timestamp` returns
/// `Some` exactly on the range of `utc_timestamp_in_range`, and the three
/// format strings admitted are valid, so neither the unwrap nor the
/// formatting panics.
#[verifier::external_body]
pub(crate) fn format_utc(secs: i64, fmt: &str) -> (r: String)
    requires
        utc_timestamp_in_range(secs as int),
        fmt@ == HUMAN_DATE_FORMAT@ || fmt@ == FILE_DATE_FORMAT@ || fmt@ == RECORDING_STAMP_FORMAT@,
    ensures
        r@ == chrono_utc_format(secs as int, fmt@),
{
    chrono::DateTime::from_timestamp(secs, 0).unwrap().format(fmt).to_string()
}

/// An instant chrono can represent: its seconds in chrono's range, and its
/// nanoseconds under one second, or under two on the last second of a
/// minute (a leap second).
pub open spec fn utc_time_valid(t: UtcTime) -> bool {
    &&& utc_timestamp_in_range(t.secs as int)
    &&& (t.nanos < 1_000_000_000 || (t.nanos < 2_000_000_000 && t.secs % 60 == 59))
}

/// Whether chrono can represent the whole second `secs` after the Unix
/// epoch.
pub fn utc_timestamp_representable(secs: i64) -> (r: bool)
    ensures
        r == utc_timestamp_in_range(secs as int),
{
    -8334601315200 <= secs && secs <= 8210266876799
}

/// Whether chrono can represent the instant.
pub fn utc_time_representable(t: UtcTime) -> (r: bool)
    ensures
        r == utc_time_valid(t),
{
    if !utc_timestamp_representable(t.secs) {
        return false;
    }
    // shifted by whole minutes onto non-negative values, so `%` gives the
    // seconds past the minute
    let shifted: i64 = t.secs + 8334601315200;
    assert(shifted % 60 == t.secs % 60) by {
        assert(8334601315200int == 60 * 138910021920);
    }
    t.nanos < 1_000_000_000 || (t.nanos < 2_000_000_000 && shifted % 60 == 59)
}

/// The RFC 3339 text chrono gives for the UTC instant `secs` seconds and
/// `nanos` nanoseconds after the Unix epoch (`DateTime::to_rfc3339`).
pub uninterp spec fn chrono_rfc3339(secs: int, nanos: nat) -> Seq<char>;

/// Calls chrono's `DateTime::from_timestamp(secs, nanos)` and
/// `to_rfc3339`. The contract claims only that the text is the named result
/// `chrono_rfc3339(secs, nanos)`; `from_timestamp` returns `Some` exactly on
/// the instants of `utc_time_valid`, so the unwrap does not panic.
#[verifier::external_body]
pub(crate) fn rfc3339_utc(t: UtcTime) -> (r: String)
    requires
        utc_time_valid(t),
    ensures
        r@ == chrono_rfc3339(t.secs as int, t.nanos as nat),
{
    chrono::DateTime::from_timestamp(t.secs, t.nanos).unwrap().to_rfc3339()
}

/// What chrono's `DateTime::parse_from_rfc3339` makes of a text, taken to
/// UTC: the instant's seconds since the Unix epoch and nanoseconds past
/// them, or the text of chrono's parse error.
pub uninterp spec fn chrono_parse_rfc3339(text: Seq<char>) -> Result<(int, nat), Seq<char>>;

/// Calls chrono's `DateTime::parse_from_rfc3339`, converts the instant to
/// UTC and reads its `timestamp` and `timestamp_subsec_nanos`; an error
/// becomes its message. The contract ties the outcome to the name
/// `chrono_parse_rfc3339`, and says that a parsed instant is one chrono
/// represents (a `DateTime` always is).
#[verifier::external_body]
pub(crate) fn parse_rfc3339_utc(text: &str) -> (r: Result<UtcTime, String>)
    ensures
        match r {
            Ok(t) => chrono_parse_rfc3339(text@) == Ok::<(int, nat), Seq<char>>((t.secs as int, t.nanos as nat))
                && utc_time_valid(t),
            Err(e) => chrono_parse_rfc3339(text@) == Err::<(int, nat), Seq<char>>(e@),
        },
{
    match chrono::DateTime::parse_from_rfc3339(text) {
        Ok(d) => {
            let u = d.with_timezone(&chrono::Utc);
            Ok(UtcTime { secs: u.timestamp(), nanos: u.timestamp_subsec_nanos() })
        },
        Err(e) => Err(e.to_string()),
    }
}

// ---------------------------------------------------------------------------
// Durations
// ---------------------------------------------------------------------------

/// A duration in seconds as `Hh Mm SSs`, `Mm SSs` or `Ss`, the way integer
/// division and remainder truncating toward zero split it; a negative
/// duration prints only its (negative) seconds part.
pub open spec fn duration_text(seconds: int) -> Seq<char> {
    let mag = if seconds < 0 { -seconds } else { seconds };
    let h = mag / 3600;
    let m = (mag % 3600) / 60;
    let s = mag % 60;
    if seconds > 0 && h > 0 {
        decimal(h as nat) + "h "@ + decimal(m as nat) + "m "@ + two_digits(s as nat) + "s"@
    } else if seconds > 0 && m > 0 {
        decimal(m as nat) + "m "@ + two_digits(s as nat) + "s"@
    } else {
        signed_decimal(if seconds < 0 { -s } else { s }) + "s"@
    }
}

/// Format a duration in seconds.
pub fn format_duration(seconds: i64) -> (r: String)
    ensures
        r@ == duration_text(seconds as int),
{
    let mag: u64 = if seconds < 0 {
        ((-(seconds + 1)) as u64) + 1
    } else {
        seconds as u64
    };
    let h = mag / 3600;
    let m = (mag % 3600) / 60;
    let s = mag % 60;
    let mut r = String::new();
    if seconds > 0 && h > 0 {
        push_decimal(&mut r, h);
        push_str(&mut r, "h ");
        push_decimal(&mut r, m);
        push_str(&mut r, "m ");
        push_two_digits(&mut r, s);
        push_str(&mut r, "s");
    } else if seconds > 0 && m > 0 {
        push_decimal(&mut r, m);
        push_str(&mut r, "m ");
        push_two_digits(&mut r, s);
        push_str(&mut r, "s");
    } else {
        let signed: i64 = if seconds < 0 { -(s as i64) } else { s as i64 };
        push_signed_decimal(&mut r, signed);
        push_str(&mut r, "s");
    }
    r
}

// ---------------------------------------------------------------------------
// Markdown sections
// ---------------------------------------------------------------------------

/// A line as a Markdown bullet: kept when it already starts with `-` or `*`,
/// otherwise prefixed with `- `.
pub open spec fn bullet(l: Seq<char>) -> Seq<char> {
    if l.len() > 0 && (l[0] == '-' || l[0] == '*') {
        l
    } else {
        "- "@ + l
    }
}

/// One content line of a section: blank lines are skipped, others are
/// trimmed, made bullets and ended with a newline.
pub open spec fn bullet_item(line: Seq<char>) -> Seq<char> {
    let l = trim(line);
    if l.len() == 0 {
        Seq::empty()
    } else {
        bullet(l) + "\n"@
    }
}

/// The bullet items of a sequence of lines.
pub open spec fn bullet_items(ls: Seq<Seq<char>>) -> Seq<char>
    decreases ls.len(),
{
    if ls.len() == 0 {
        Seq::empty()
    } else {
        bullet_items(ls.drop_last()) + bullet_item(ls.last())
    }
}

/// A bulleted Markdown section `### title`, or nothing when the content is
/// blank or only the word `None` (in any ASCII case).
pub open spec fn section_text(title: Seq<char>, content: Seq<char>) -> Seq<char> {
    let t = trim(content);
    if t.len() == 0 || is_none_word(t) {
        Seq::empty()
    } else {
        "### "@ + title + "\n\n"@ + bullet_items(lines(t)) + "\n"@
    }
}

/// Push a bulleted Markdown section, skipping empty content and content
/// that is only `None`.
fn push_section(md: &mut String, title: &str, content: &str)
    ensures
        final(md)@ == old(md)@ + section_text(title@, content@),
{
    let chars = chars_of(content);
    let t = trimmed(&chars);
    if t.len() == 0 || is_none(&t) {
        assert(old(md)@ + section_text(title@, content@) =~= old(md)@);
        return;
    }
    push_str(md, "### ");
    push_str(md, title);
    push_str(md, "\n\n");
    let ghost head = md@;
    let ls = split_lines(&t);
    let mut i: usize = 0;
    while i < ls.len()
        invariant
            0 <= i <= ls.len(),
            crate::text::views(ls@) == lines(t@),
            md@ == head + bullet_items(crate::text::views(ls@).take(i as int)),
        decreases ls.len() - i,
    {
        let line = &ls[i];
        let (a, b) = trim_bounds(line, 0, line.len());
        assert(line@.subrange(0, line@.len() as int) =~= line@);
        assert(crate::text::views(ls@)[i as int] == line@);
        if a < b {
            if line[a] == '-' || line[a] == '*' {
                push_range(md, line, a, b);
            } else {
                push_str(md, "- ");
                push_range(md, line, a, b);
            }
            push_char(md, '\n');
        }
        let ghost done = crate::text::views(ls@).take(i + 1);
        assert(done.drop_last() =~= crate::text::views(ls@).take(i as int));
        assert(done.last() == line@);
        proof {
            reveal_strlit("\n");
            let l = trim(line@);
            if l.len() > 0 {
                assert(l[0] == line@[a as int]);
                assert(md@ =~= head + bullet_items(done.drop_last()) + bullet_item(done.last()));
            } else {
                assert(md@ =~= head + bullet_items(done.drop_last()) + bullet_item(done.last()));
            }
        }
        i += 1;
    }
    assert(crate::text::views(ls@).take(ls.len() as int) =~= crate::text::views(ls@));
    push_char(md, '\n');
    proof {
        reveal_strlit("\n");
        assert(t@ == trim(content@));
    }
    assert(md@ =~= old(md)@ + section_text(title@, content@));
}

// ---------------------------------------------------------------------------
// Whole exports
// ---------------------------------------------------------------------------

/// The Markdown export of a meeting.
pub open spec fn markdown_text(meeting: Meeting, transcript: Option<Transcript>, summary: Option<Summary>) -> Seq<char> {
    let head = "# "@ + meeting.title@ + "\n\n"@
        + "- **Date:** "@ + chrono_utc_format(meeting.date.secs as int, HUMAN_DATE_FORMAT@) + "\n"@
        + "- **Duration:** "@ + duration_text(meeting.duration_seconds as int) + "\n\n"@;
    let with_summary = match summary {
        Some(s) => head + "## Summary\n\n"@ + section_text("Key Points"@, s.key_points@)
            + section_text("Decisions"@, s.decisions@) + section_text("Action Items"@, s.action_items@) + "\n"@,
        None => head,
    };
    match transcript {
        Some(t) => with_summary + "## Transcript\n\n"@ + t.content@ + "\n"@,
        None => with_summary,
    }
}

/// The plain-text export of a meeting.
pub open spec fn plain_text(meeting: Meeting, transcript: Option<Transcript>, summary: Option<Summary>) -> Seq<char> {
    let head = meeting.title@ + "\n"@
        + "Date: "@ + chrono_utc_format(meeting.date.secs as int, HUMAN_DATE_FORMAT@) + "\n"@
        + "Duration: "@ + duration_text(meeting.duration_seconds as int) + "\n"@;
    let with_summary = match summary {
        Some(s) => head + "\n--- Summary ---\n"@ + "Key Points:\n"@ + s.key_points@ + "\n"@
            + "Decisions:\n"@ + s.decisions@ + "\n"@ + "Action Items:\n"@ + s.action_items@ + "\n"@,
        None => head,
    };
    match transcript {
        Some(t) => with_summary + "\n--- Transcript ---\n"@ + t.content@ + "\n"@,
        None => with_summary,
    }
}

/// Giving a transcript appends `## Transcript`, a blank line and the
/// transcript's content to the Markdown export, whether or not a summary is
/// given; giving a summary inserts its sections after the metadata.
pub proof fn markdown_export_parts(meeting: Meeting, transcript: Transcript, summary: Summary)
    ensures
        markdown_text(meeting, Some(transcript), None) == markdown_text(meeting, None, None) + "## Transcript\n\n"@
            + transcript.content@ + "\n"@,
        markdown_text(meeting, Some(transcript), Some(summary)) == markdown_text(meeting, None, Some(summary))
            + "## Transcript\n\n"@ + transcript.content@ + "\n"@,
        markdown_text(meeting, None, Some(summary)) == markdown_text(meeting, None, None) + "## Summary\n\n"@
            + section_text("Key Points"@, summary.key_points@) + section_text("Decisions"@, summary.decisions@)
            + section_text("Action Items"@, summary.action_items@) + "\n"@,
{
}

/// Giving a transcript appends the transcript block to the plain-text
/// export, whether or not a summary is given; giving a summary inserts its
/// three sections verbatim after the metadata.
pub proof fn plain_export_parts(meeting: Meeting, transcript: Transcript, summary: Summary)
    ensures
        plain_text(meeting, Some(transcript), None) == plain_text(meeting, None, None) + "\n--- Transcript ---\n"@
            + transcript.content@ + "\n"@,
        plain_text(meeting, Some(transcript), Some(summary)) == plain_text(meeting, None, Some(summary))
            + "\n--- Transcript ---\n"@ + transcript.content@ + "\n"@,
        plain_text(meeting, None, Some(summary)) == plain_text(meeting, None, None) + "\n--- Summary ---\n"@
            + "Key Points:\n"@ + summary.key_points@ + "\n"@ + "Decisions:\n"@ + summary.decisions@ + "\n"@
            + "Action Items:\n"@ + summary.action_items@ + "\n"@,
{
}

/// The value behind an optional reference.
pub open spec fn deref_opt<T>(o: Option<&T>) -> Option<T> {
    match o {
        Some(x) => Some(*x),
        None => None,
    }
}

/// Render a complete meeting export as Markdown.
pub fn render_meeting_markdown(meeting: &Meeting, transcript: Option<&Transcript>, summary: Option<&Summary>) -> (md: String)
    requires
        utc_timestamp_in_range(meeting.date.secs as int),
    ensures
        md@ == markdown_text(*meeting, deref_opt(transcript), deref_opt(summary)),
{
    let mut md = String::new();
    push_str(&mut md, "# ");
    push_str(&mut md, meeting.title.as_str());
    push_str(&mut md, "\n\n");
    push_str(&mut md, "- **Date:** ");
    let date = format_utc(meeting.date.secs, HUMAN_DATE_FORMAT);
    push_str(&mut md, date.as_str());
    push_str(&mut md, "\n");
    push_str(&mut md, "- **Duration:** ");
    let duration = format_duration(meeting.duration_seconds);
    push_str(&mut md, duration.as_str());
    push_str(&mut md, "\n\n");
    let ghost head = md@;
    if let Some(summary) = summary {
        push_str(&mut md, "## Summary\n\n");
        push_section(&mut md, "Key Points", summary.key_points.as_str());
        push_section(&mut md, "Decisions", summary.decisions.as_str());
        push_section(&mut md, "Action Items", summary.action_items.as_str());
        push_char(&mut md, '\n');
    }
    let ghost with_summary = md@;
    if let Some(transcript) = transcript {
        push_str(&mut md, "## Transcript\n\n");
        push_str(&mut md, transcript.content.as_str());
        push_char(&mut md, '\n');
    }
    proof {
        reveal_strlit("\n");
        let spec_head = "# "@ + meeting.title@ + "\n\n"@
            + "- **Date:** "@ + chrono_utc_format(meeting.date.secs as int, HUMAN_DATE_FORMAT@) + "\n"@
            + "- **Duration:** "@ + duration_text(meeting.duration_seconds as int) + "\n\n"@;
        assert(head =~= spec_head);
        match summary {
            Some(s) => {
                assert(with_summary =~= spec_head + "## Summary\n\n"@ + section_text("Key Points"@, s.key_points@)
                    + section_text("Decisions"@, s.decisions@) + section_text("Action Items"@, s.action_items@) + "\n"@);
            },
            None => {},
        }
        match transcript {
            Some(t) => {
                assert(md@ =~= with_summary + "## Transcript\n\n"@ + t.content@ + "\n"@);
            },
            None => {},
        }
    }
    md
}

/// Render a plain-text (non-Markdown) export for users who want raw notes.
pub fn render_meeting_text(meeting: &Meeting, transcript: Option<&Transcript>, summary: Option<&Summary>) -> (text: String)
    requires
        utc_timestamp_in_range(meeting.date.secs as int),
    ensures
        text@ == plain_text(*meeting, deref_opt(transcript), deref_opt(summary)),
{
    let mut text = String::new();
    push_str(&mut text, meeting.title.as_str());
    push_str(&mut text, "\n");
    push_str(&mut text, "Date: ");
    let date = format_utc(meeting.date.secs, HUMAN_DATE_FORMAT);
    push_str(&mut text, date.as_str());
    push_str(&mut text, "\n");
    push_str(&mut text, "Duration: ");
    let duration = format_duration(meeting.duration_seconds);
    push_str(&mut text, duration.as_str());
    push_str(&mut text, "\n");
    let ghost head = text@;
    if let Some(summary) = summary {
        push_str(&mut text, "\n--- Summary ---\n");
        push_str(&mut text, "Key Points:\n");
        push_str(&mut text, summary.key_points.as_str());
        push_str(&mut text, "\n");
        push_str(&mut text, "Decisions:\n");
        push_str(&mut text, summary.decisions.as_str());
        push_str(&mut text, "\n");
        push_str(&mut text, "Action Items:\n");
        push_str(&mut text, summary.action_items.as_str());
        push_str(&mut text, "\n");
    }
    let ghost with_summary = text@;
    if let Some(transcript) = transcript {
        push_str(&mut text, "\n--- Transcript ---\n");
        push_str(&mut text, transcript.content.as_str());
        push_char(&mut text, '\n');
    }
    proof {
        reveal_strlit("\n");
        let spec_head = meeting.title@ + "\n"@
            + "Date: "@ + chrono_utc_format(meeting.date.secs as int, HUMAN_DATE_FORMAT@) + "\n"@
            + "Duration: "@ + duration_text(meeting.duration_seconds as int) + "\n"@;
        assert(head =~= spec_head);
        match summary {
            Some(s) => {
                assert(with_summary =~= spec_head + "\n--- Summary ---\n"@ + "Key Points:\n"@ + s.key_points@ + "\n"@
                    + "Decisions:\n"@ + s.decisions@ + "\n"@ + "Action Items:\n"@ + s.action_items@ + "\n"@);
            },
            None => {},
        }
        match transcript {
            Some(t) => {
                assert(text@ =~= with_summary + "\n--- Transcript ---\n"@ + t.content@ + "\n"@);
            },
            None => {},
        }
    }
    text
}

// ---------------------------------------------------------------------------
// File names
// ---------------------------------------------------------------------------

/// Non-alphanumeric characters replaced by `-`.
pub open spec fn dashed(s: Seq<char>) -> Seq<char> {
    Seq::new(s.len(), |i: int| if char_is_alphanumeric(s[i]) { s[i] } else { '-' })
}

/// `s` without leading `-`.
pub open spec fn trim_dash_start(s: Seq<char>) -> Seq<char>
    decreases s.len(),
{
    if s.len() > 0 && s[0] == '-' {
        trim_dash_start(s.drop_first())
    } else {
        s
    }
}

/// `s` without trailing `-`.
pub open spec fn trim_dash_end(s: Seq<char>) -> Seq<char>
    decreases s.len(),
{
    if s.len() > 0 && s.last() == '-' {
        trim_dash_end(s.drop_last())
    } else {
        s
    }
}

/// The slug of a title: lowercased, every non-alphanumeric character
/// replaced by `-`, dashes trimmed from both ends, and `meeting` when
/// nothing is left.
pub open spec fn slug_text(title: Seq<char>) -> Seq<char> {
    slug_of_lowered(str_lowercase(title))
}

/// The slug of an already lowercased title: every non-alphanumeric
/// character replaced by `-`, dashes trimmed from both ends, and `meeting`
/// when nothing is left.
pub open spec fn slug_of_lowered(lower: Seq<char>) -> Seq<char> {
    let t = trim_dash_end(trim_dash_start(dashed(lower)));
    if t.len() == 0 {
        "meeting"@
    } else {
        t
    }
}

/// Every character is ASCII.
pub open spec fn all_ascii(s: Seq<char>) -> bool {
    forall|i: int| 0 <= i < s.len() ==> (s[i] as u32) < 0x80
}

/// Trimming leading dashes keeps a suffix that does not start with a dash.
proof fn lemma_trim_dash_start(s: Seq<char>)
    ensures
        trim_dash_start(s).len() <= s.len(),
        trim_dash_start(s) == s.skip(s.len() - trim_dash_start(s).len()),
        trim_dash_start(s).len() > 0 ==> trim_dash_start(s)[0] != '-',
    decreases s.len(),
{
    if s.len() > 0 && s[0] == '-' {
        lemma_trim_dash_start(s.drop_first());
        let r = trim_dash_start(s.drop_first());
        assert(s.drop_first().skip(s.drop_first().len() - r.len()) =~= s.skip(s.len() - r.len()));
    } else {
        assert(s.skip(0) =~= s);
    }
}

/// Trimming trailing dashes keeps a prefix that does not end with a dash.
proof fn lemma_trim_dash_end(s: Seq<char>)
    ensures
        trim_dash_end(s).len() <= s.len(),
        trim_dash_end(s) == s.take(trim_dash_end(s).len() as int),
        trim_dash_end(s).len() > 0 ==> trim_dash_end(s).last() != '-',
    decreases s.len(),
{
    if s.len() > 0 && s.last() == '-' {
        lemma_trim_dash_end(s.drop_last());
        let r = trim_dash_end(s.drop_last());
        assert(s.drop_last().take(r.len() as int) =~= s.take(r.len() as int));
    } else {
        assert(s.take(s.len() as int) =~= s);
    }
}

/// A slug of lowered text is safe in a file name: never empty, never
/// starting or ending with a dash, and, unless it is the `meeting` fallback,
/// made only of characters of the lowered text that are alphanumeric, and
/// dashes.
proof fn lemma_slug_of_lowered_safe(lower: Seq<char>)
    ensures
        slug_of_lowered(lower).len() > 0,
        slug_of_lowered(lower)[0] != '-',
        slug_of_lowered(lower).last() != '-',
        slug_of_lowered(lower) != "meeting"@ ==> forall|i: int|
            0 <= i < slug_of_lowered(lower).len() ==> slug_of_lowered(lower)[i] == '-' || (char_is_alphanumeric(
                #[trigger] slug_of_lowered(lower)[i],
            ) && exists|j: int| 0 <= j < lower.len() && lower[j] == slug_of_lowered(lower)[i]),
{
    let d = dashed(lower);
    let a = trim_dash_start(d);
    let t = trim_dash_end(a);
    lemma_trim_dash_start(d);
    lemma_trim_dash_end(a);
    reveal_strlit("meeting");
    if t.len() == 0 {
        assert(slug_of_lowered(lower) == "meeting"@);
    } else {
        assert(t[0] == a[0]);
        assert forall|i: int| 0 <= i < t.len() implies t[i] == '-' || (char_is_alphanumeric(#[trigger] t[i])
            && exists|j: int| 0 <= j < lower.len() && lower[j] == t[i]) by {
            assert(t[i] == a[i]);
            let j = d.len() - a.len() + i;
            assert(a[i] == d[j]);
            if t[i] != '-' {
                assert(lower[j] == t[i]);
            }
        }
    }
}

/// A slug is safe in a file name: never empty, never starting or ending
/// with a dash, and, unless it is the `meeting` fallback, made only of
/// alphanumeric characters and dashes.
pub proof fn slug_is_file_safe(title: Seq<char>)
    ensures
        slug_text(title).len() > 0,
        slug_text(title)[0] != '-',
        slug_text(title).last() != '-',
        slug_text(title) != "meeting"@ ==> forall|i: int|
            0 <= i < slug_text(title).len() ==> slug_text(title)[i] == '-' || char_is_alphanumeric(
                #[trigger] slug_text(title)[i],
            ),
{
    lemma_slug_of_lowered_safe(str_lowercase(title));
}

/// A slug of lowered text is its own slug once lowered text stays as it is.
proof fn lemma_slug_of_slug(lower: Seq<char>)
    ensures
        slug_of_lowered(slug_of_lowered(lower)) == slug_of_lowered(lower),
{
    let s = slug_of_lowered(lower);
    lemma_slug_of_lowered_safe(lower);
    reveal_strlit("meeting");
    assert forall|i: int| 0 <= i < s.len() implies s[i] == '-' || char_is_alphanumeric(#[trigger] s[i]) by {
        if s == "meeting"@ {
            assert(ascii_alphanumeric(s[i]));
        }
    }
    assert(dashed(s) =~= s);
    assert(trim_dash_start(s) == s);
    assert(trim_dash_end(s) == s);
}

/// Slugging a slug changes nothing, for every title whose slug std's
/// lowercase mapping leaves as it is (the slug is made of lowercase
/// results, dashes, or the fallback `meeting`).
pub proof fn slug_is_idempotent(title: Seq<char>)
    requires
        str_lowercase(slug_text(title)) == slug_text(title),
    ensures
        slug_text(slug_text(title)) == slug_text(title),
{
    lemma_slug_of_slug(str_lowercase(title));
}

/// The slug of an ASCII title, lowered the ASCII way, is ASCII and already
/// lowercase, so slugging it again changes nothing. With the contract of
/// [`export_slug`] for ASCII titles this gives, for every ASCII title,
/// `export_slug(export_slug(title)) == export_slug(title)`.
pub proof fn ascii_slug_is_idempotent(title: Seq<char>)
    requires
        all_ascii(title),
    ensures
        all_ascii(slug_of_lowered(ascii_lower_seq(title))),
        ascii_lower_seq(slug_of_lowered(ascii_lower_seq(title))) == slug_of_lowered(ascii_lower_seq(title)),
        slug_of_lowered(ascii_lower_seq(slug_of_lowered(ascii_lower_seq(title)))) == slug_of_lowered(
            ascii_lower_seq(title),
        ),
{
    let lower = ascii_lower_seq(title);
    let s = slug_of_lowered(lower);
    lemma_slug_of_lowered_safe(lower);
    reveal_strlit("meeting");
    assert forall|i: int| 0 <= i < s.len() implies (s[i] as u32) < 0x80 && ascii_lower(s[i]) == s[i] by {
        if s == "meeting"@ {
        } else if s[i] != '-' {
            let j = choose|j: int| 0 <= j < lower.len() && lower[j] == s[i];
            assert(lower[j] == ascii_lower(title[j]));
            assert((title[j] as u32) < 0x80);
        }
    }
    assert(ascii_lower_seq(s) =~= s);
    lemma_slug_of_slug(lower);
}

/// Slugify a meeting title for use in an export filename: lowercase, keep
/// Unicode alphanumerics, replace everything else with '-', trim edge dashes,
/// and fall back to "meeting" when empty.
pub fn export_slug(title: &str) -> (slug: String)
    ensures
        slug@ == slug_text(title@),
        title@.len() == 0 ==> slug@ == "meeting"@,
        all_ascii(title@) ==> slug@ == slug_of_lowered(ascii_lower_seq(title@)),
{
    let lower = to_lowercase(title);
    let chars = chars_of(lower.as_str());
    let mut mapped: Vec<char> = Vec::new();
    let mut i: usize = 0;
    while i < chars.len()
        invariant
            0 <= i <= chars.len(),
            mapped@ == dashed(chars@.take(i as int)),
        decreases chars.len() - i,
    {
        let c = chars[i];
        if is_alphanumeric(c) {
            mapped.push(c);
        } else {
            mapped.push('-');
        }
        assert(mapped@ =~= dashed(chars@.take(i + 1)));
        i += 1;
    }
    assert(chars@.take(chars.len() as int) =~= chars@);
    let mut a: usize = 0;
    assert(mapped@.subrange(0, mapped@.len() as int) =~= mapped@);
    while a < mapped.len() && mapped[a] == '-'
        invariant
            0 <= a <= mapped.len(),
            trim_dash_start(mapped@) == trim_dash_start(mapped@.subrange(a as int, mapped@.len() as int)),
        decreases mapped.len() - a,
    {
        assert(mapped@.subrange(a as int, mapped@.len() as int).drop_first() =~= mapped@.subrange(a + 1, mapped@.len() as int));
        a += 1;
    }
    let mut b: usize = mapped.len();
    while b > a && mapped[b - 1] == '-'
        invariant
            0 <= a <= b <= mapped.len(),
            trim_dash_start(mapped@) == mapped@.subrange(a as int, mapped@.len() as int),
            trim_dash_end(trim_dash_start(mapped@)) == trim_dash_end(mapped@.subrange(a as int, b as int)),
        decreases b - a,
    {
        assert(mapped@.subrange(a as int, b as int).drop_last() =~= mapped@.subrange(a as int, b - 1));
        b -= 1;
    }
    let mut slug = String::new();
    if a == b {
        push_str(&mut slug, "meeting");
    } else {
        push_range(&mut slug, &mapped, a, b);
    }
    slug
}

/// `{slug}-{YYYYMMDD}.{ext}`, the date in UTC.
pub open spec fn filename_text(meeting: Meeting, ext: Seq<char>) -> Seq<char> {
    slug_text(meeting.title@) + "-"@ + chrono_utc_format(meeting.date.secs as int, FILE_DATE_FORMAT@) + "."@ + ext
}

/// Build the export filename `{slug}-{YYYYMMDD}.{ext}` with the date stamped
/// in UTC.
pub fn export_filename(meeting: &Meeting, ext: &str) -> (name: String)
    requires
        utc_timestamp_in_range(meeting.date.secs as int),
    ensures
        name@ == filename_text(*meeting, ext@),
{
    let mut name = export_slug(meeting.title.as_str());
    push_str(&mut name, "-");
    let stamp = format_utc(meeting.date.secs, FILE_DATE_FORMAT);
    push_str(&mut name, stamp.as_str());
    push_str(&mut name, ".");
    push_str(&mut name, ext);
    name
}

} // verus!
