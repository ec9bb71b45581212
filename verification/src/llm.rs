//! Meeting summarization: the prompts sent to the language model and the
//! parsing of its answer into key points, decisions and action items.
//!
//! The HTTP exchange with the model happens outside the library; this module
//! builds what is sent and decides what the answer means.
use vstd::prelude::*;

use crate::json::{as_str, get, json_as_str, json_get, parse_json, serde_json_document, JsonValue};
use crate::text::{
    is_none, is_none_word, lemma_join_edges, lemma_lines_no_newline, lemma_lines_of_join, lemma_trim_edges,
    lemma_trim_of_solid, no_newline, char_is_whitespace,
    ascii_lower, ascii_lower_seq, chars_eq, chars_of, join, join_parts, lines, lower_ascii_char, push_char,
    push_range, push_str, remove_all, remove_occurrences, slice_vec, split_lines, split_words, str_lowercase,
    string_of, to_lowercase, trim, trim_bounds, trimmed, views, words,
};

verus! {

/// Default Ollama API endpoint.
pub const DEFAULT_OLLAMA_URL: &'static str = "http://localhost:11434";

/// Default model to use for summarization.
pub const DEFAULT_SUMMARY_MODEL: &'static str = "llama3.2";

/// The local Ollama provider.
pub const PROVIDER_OLLAMA: &'static str = "ollama";

/// An OpenAI-compatible API provider.
pub const PROVIDER_API: &'static str = "api";

// ---------------------------------------------------------------------------
// Cleaning transcripts
// ---------------------------------------------------------------------------

/// Whisper special tokens and non-speech markers removed before prompting.
pub open spec fn special_tokens() -> Seq<Seq<char>> {
    seq![
        "[_SOT_]"@, "[_EOT_]"@, "[_BEG_]"@, "[_TT_"@, "[_PREV_]"@, "[_LANG_"@, "[_TRANSCRIBE_]"@,
        "[_TRANSLATE_]"@, "[ Pause ]"@, "[Typing]"@, "[typing]"@, "[SILENCE]"@, "[NOISE]"@, "[MUSIC]"@,
        "[APPLAUSE]"@, "[LAUGHTER]"@, "[BLANK_AUDIO]"@,
    ]
}

fn special_token_list() -> (v: Vec<&'static str>)
    ensures
        v@.len() == special_tokens().len(),
        forall|i: int| 0 <= i < v@.len() ==> #[trigger] v@[i]@ == special_tokens()[i],
{
    let mut v: Vec<&'static str> = Vec::new();
    v.push("[_SOT_]");
    v.push("[_EOT_]");
    v.push("[_BEG_]");
    v.push("[_TT_");
    v.push("[_PREV_]");
    v.push("[_LANG_");
    v.push("[_TRANSCRIBE_]");
    v.push("[_TRANSLATE_]");
    v.push("[ Pause ]");
    v.push("[Typing]");
    v.push("[typing]");
    v.push("[SILENCE]");
    v.push("[NOISE]");
    v.push("[MUSIC]");
    v.push("[APPLAUSE]");
    v.push("[LAUGHTER]");
    v.push("[BLANK_AUDIO]");
    v
}

/// `s` with every occurrence of each token removed, one token after the
/// other.
pub open spec fn remove_tokens(s: Seq<char>, tokens: Seq<Seq<char>>) -> Seq<char>
    decreases tokens.len(),
{
    if tokens.len() == 0 {
        s
    } else {
        remove_tokens(remove_all(s, tokens[0]), tokens.drop_first())
    }
}

/// A transcript without special tokens, its words separated by single
/// spaces.
pub open spec fn clean_transcript_text(s: Seq<char>) -> Seq<char> {
    join(words(remove_tokens(s, special_tokens())), " "@)
}

/// Filter out Whisper special tokens from a transcript and collapse runs of
/// whitespace to single spaces.
pub fn clean_transcript(transcript: &str) -> (r: String)
    ensures
        r@ == clean_transcript_text(transcript@),
{
    let tokens = special_token_list();
    let mut cleaned = chars_of(transcript);
    let mut i: usize = 0;
    assert(special_tokens().skip(0) =~= special_tokens());
    while i < tokens.len()
        invariant
            tokens@.len() == special_tokens().len(),
            forall|k: int| 0 <= k < tokens@.len() ==> #[trigger] tokens@[k]@ == special_tokens()[k],
            0 <= i <= tokens.len(),
            remove_tokens(transcript@, special_tokens()) == remove_tokens(cleaned@, special_tokens().skip(i as int)),
        decreases tokens.len() - i,
    {
        let tok = chars_of(tokens[i]);
        assert(special_tokens().skip(i as int)[0] == tokens@[i as int]@);
        assert(special_tokens().skip(i as int).drop_first() =~= special_tokens().skip(i + 1));
        cleaned = remove_occurrences(&cleaned, &tok);
        i += 1;
    }
    assert(special_tokens().skip(tokens.len() as int) =~= Seq::<Seq<char>>::empty());
    let ws = split_words(&cleaned);
    join_parts(&ws, " ")
}

// ---------------------------------------------------------------------------
// Prompts
// ---------------------------------------------------------------------------

/// The instructions that precede the transcript in the plain-text prompt.
pub const SUMMARY_PROMPT_PREFIX: &'static str = "You are a meeting assistant that creates structured summaries from meeting transcripts.\n\nPlease analyze the following meeting transcript and provide a structured summary with these three sections:\n\n1. KEY POINTS (3-5 bullet points of the most important discussion points)\n2. DECISIONS (any decisions made during the meeting)\n3. ACTION ITEMS (tasks assigned with who should do what, if mentioned)\n\nFormat your response exactly like this:\n\nKEY POINTS:\n- point 1\n- point 2\n- point 3\n\nDECISIONS:\n- decision 1\n- decision 2\n\nACTION ITEMS:\n- person: task description\n- person: task description\n\nIf a section has no content, write \"None\" under that section.\n\nHere is the transcript:\n\n";

/// The instructions that precede the transcript in the JSON prompt.
pub const SUMMARY_JSON_PROMPT_PREFIX: &'static str = "You are a meeting assistant that creates structured summaries from meeting transcripts.\n\nAnalyze the following meeting transcript and return only a valid JSON object with this shape:\n\n{\n  \"key_points\": [\"3-5 bullet points of the most important discussion points\"],\n  \"decisions\": [\"Any decisions made during the meeting\"],\n  \"action_items\": [\"Tasks assigned with who should do what, if mentioned\"]\n}\n\nUse empty arrays for sections with no content.\n\nHere is the transcript:\n\n";

/// Build the prompt for structured meeting summarization: the instructions
/// followed by the cleaned transcript.
pub fn build_summary_prompt(transcript: &str) -> (prompt: String)
    ensures
        prompt@ == SUMMARY_PROMPT_PREFIX@ + clean_transcript_text(transcript@),
{
    let cleaned = clean_transcript(transcript);
    let mut prompt = String::new();
    push_str(&mut prompt, SUMMARY_PROMPT_PREFIX);
    push_str(&mut prompt, cleaned.as_str());
    prompt
}

/// Build the prompt for JSON meeting summarization with API providers: the
/// instructions followed by the transcript as given.
pub fn build_summary_json_prompt(transcript: &str) -> (prompt: String)
    ensures
        prompt@ == SUMMARY_JSON_PROMPT_PREFIX@ + transcript@,
{
    let mut prompt = String::new();
    push_str(&mut prompt, SUMMARY_JSON_PROMPT_PREFIX);
    push_str(&mut prompt, transcript);
    prompt
}

// ---------------------------------------------------------------------------
// Laws of transcript cleaning
// ---------------------------------------------------------------------------

/// No character is an opening bracket.
pub open spec fn no_open_bracket(s: Seq<char>) -> bool {
    forall|i: int| 0 <= i < s.len() ==> s[i] != '['
}

/// A token that starts with `[` and holds no other `[`.
pub open spec fn bracket_token(t: Seq<char>) -> bool {
    t.len() > 0 && t[0] == '[' && no_open_bracket(t.drop_first())
}

/// Neither text starts with the other.
pub open spec fn unrelated(t: Seq<char>, u: Seq<char>) -> bool {
    &&& !(t.len() <= u.len() && u.take(t.len() as int) == t)
    &&& !(u.len() <= t.len() && t.take(u.len() as int) == u)
}

/// Texts that differ at a position both reach are unrelated.
proof fn lemma_unrelated_at(t: Seq<char>, u: Seq<char>, k: int)
    requires
        0 <= k < t.len(),
        k < u.len(),
        t[k] != u[k],
    ensures
        unrelated(t, u),
{
    if t.len() <= u.len() && u.take(t.len() as int) == t {
        assert(u.take(t.len() as int)[k] == u[k]);
    }
    if u.len() <= t.len() && t.take(u.len() as int) == u {
        assert(t.take(u.len() as int)[k] == t[k]);
    }
}

/// Each special token starts with `[` and holds no other `[`.
proof fn lemma_special_token_bracketed(i: int)
    requires
        0 <= i < special_tokens().len(),
    ensures
        bracket_token(special_tokens()[i]),
{
    reveal_strlit("[_SOT_]");
    reveal_strlit("[_EOT_]");
    reveal_strlit("[_BEG_]");
    reveal_strlit("[_TT_");
    reveal_strlit("[_PREV_]");
    reveal_strlit("[_LANG_");
    reveal_strlit("[_TRANSCRIBE_]");
    reveal_strlit("[_TRANSLATE_]");
    reveal_strlit("[ Pause ]");
    reveal_strlit("[Typing]");
    reveal_strlit("[typing]");
    reveal_strlit("[SILENCE]");
    reveal_strlit("[NOISE]");
    reveal_strlit("[MUSIC]");
    reveal_strlit("[APPLAUSE]");
    reveal_strlit("[LAUGHTER]");
    reveal_strlit("[BLANK_AUDIO]");
    let ts = special_tokens();
    if i == 0 {
        assert(ts[0] == "[_SOT_]"@);
    } else if i == 1 {
        assert(ts[1] == "[_EOT_]"@);
    } else if i == 2 {
        assert(ts[2] == "[_BEG_]"@);
    } else if i == 3 {
        assert(ts[3] == "[_TT_"@);
    } else if i == 4 {
        assert(ts[4] == "[_PREV_]"@);
    } else if i == 5 {
        assert(ts[5] == "[_LANG_"@);
    } else if i == 6 {
        assert(ts[6] == "[_TRANSCRIBE_]"@);
    } else if i == 7 {
        assert(ts[7] == "[_TRANSLATE_]"@);
    } else if i == 8 {
        assert(ts[8] == "[ Pause ]"@);
    } else if i == 9 {
        assert(ts[9] == "[Typing]"@);
    } else if i == 10 {
        assert(ts[10] == "[typing]"@);
    } else if i == 11 {
        assert(ts[11] == "[SILENCE]"@);
    } else if i == 12 {
        assert(ts[12] == "[NOISE]"@);
    } else if i == 13 {
        assert(ts[13] == "[MUSIC]"@);
    } else if i == 14 {
        assert(ts[14] == "[APPLAUSE]"@);
    } else if i == 15 {
        assert(ts[15] == "[LAUGHTER]"@);
    } else if i == 16 {
        assert(ts[16] == "[BLANK_AUDIO]"@);
    }
    let t = ts[i];
    assert forall|m: int| 0 <= m < t.drop_first().len() implies t.drop_first()[m] != '[' by {
        assert(t.drop_first()[m] == t[m + 1]);
    }
}

/// No special token starts with another.
proof fn lemma_special_tokens_unrelated(i: int, j: int)
    requires
        0 <= i < j < special_tokens().len(),
    ensures
        unrelated(special_tokens()[i], special_tokens()[j]),
{
    reveal_strlit("[_SOT_]");
    reveal_strlit("[_EOT_]");
    reveal_strlit("[_BEG_]");
    reveal_strlit("[_TT_");
    reveal_strlit("[_PREV_]");
    reveal_strlit("[_LANG_");
    reveal_strlit("[_TRANSCRIBE_]");
    reveal_strlit("[_TRANSLATE_]");
    reveal_strlit("[ Pause ]");
    reveal_strlit("[Typing]");
    reveal_strlit("[typing]");
    reveal_strlit("[SILENCE]");
    reveal_strlit("[NOISE]");
    reveal_strlit("[MUSIC]");
    reveal_strlit("[APPLAUSE]");
    reveal_strlit("[LAUGHTER]");
    reveal_strlit("[BLANK_AUDIO]");
    let ts = special_tokens();
    if i == 0 {
        if j == 1 {
            lemma_unrelated_at(ts[0], ts[1], 2);
        } else if j == 2 {
            lemma_unrelated_at(ts[0], ts[2], 2);
        } else if j == 3 {
            lemma_unrelated_at(ts[0], ts[3], 2);
        } else if j == 4 {
            lemma_unrelated_at(ts[0], ts[4], 2);
        } else if j == 5 {
            lemma_unrelated_at(ts[0], ts[5], 2);
        } else if j == 6 {
            lemma_unrelated_at(ts[0], ts[6], 2);
        } else if j == 7 {
            lemma_unrelated_at(ts[0], ts[7], 2);
        } else if j == 8 {
            lemma_unrelated_at(ts[0], ts[8], 1);
        } else if j == 9 {
            lemma_unrelated_at(ts[0], ts[9], 1);
        } else if j == 10 {
            lemma_unrelated_at(ts[0], ts[10], 1);
        } else if j == 11 {
            lemma_unrelated_at(ts[0], ts[11], 1);
        } else if j == 12 {
            lemma_unrelated_at(ts[0], ts[12], 1);
        } else if j == 13 {
            lemma_unrelated_at(ts[0], ts[13], 1);
        } else if j == 14 {
            lemma_unrelated_at(ts[0], ts[14], 1);
        } else if j == 15 {
            lemma_unrelated_at(ts[0], ts[15], 1);
        } else if j == 16 {
            lemma_unrelated_at(ts[0], ts[16], 1);
        }
    } else if i == 1 {
        if j == 2 {
            lemma_unrelated_at(ts[1], ts[2], 2);
        } else if j == 3 {
            lemma_unrelated_at(ts[1], ts[3], 2);
        } else if j == 4 {
            lemma_unrelated_at(ts[1], ts[4], 2);
        } else if j == 5 {
            lemma_unrelated_at(ts[1], ts[5], 2);
        } else if j == 6 {
            lemma_unrelated_at(ts[1], ts[6], 2);
        } else if j == 7 {
            lemma_unrelated_at(ts[1], ts[7], 2);
        } else if j == 8 {
            lemma_unrelated_at(ts[1], ts[8], 1);
        } else if j == 9 {
            lemma_unrelated_at(ts[1], ts[9], 1);
        } else if j == 10 {
            lemma_unrelated_at(ts[1], ts[10], 1);
        } else if j == 11 {
            lemma_unrelated_at(ts[1], ts[11], 1);
        } else if j == 12 {
            lemma_unrelated_at(ts[1], ts[12], 1);
        } else if j == 13 {
            lemma_unrelated_at(ts[1], ts[13], 1);
        } else if j == 14 {
            lemma_unrelated_at(ts[1], ts[14], 1);
        } else if j == 15 {
            lemma_unrelated_at(ts[1], ts[15], 1);
        } else if j == 16 {
            lemma_unrelated_at(ts[1], ts[16], 1);
        }
    } else if i == 2 {
        if j == 3 {
            lemma_unrelated_at(ts[2], ts[3], 2);
        } else if j == 4 {
            lemma_unrelated_at(ts[2], ts[4], 2);
        } else if j == 5 {
            lemma_unrelated_at(ts[2], ts[5], 2);
        } else if j == 6 {
            lemma_unrelated_at(ts[2], ts[6], 2);
        } else if j == 7 {
            lemma_unrelated_at(ts[2], ts[7], 2);
        } else if j == 8 {
            lemma_unrelated_at(ts[2], ts[8], 1);
        } else if j == 9 {
            lemma_unrelated_at(ts[2], ts[9], 1);
        } else if j == 10 {
            lemma_unrelated_at(ts[2], ts[10], 1);
        } else if j == 11 {
            lemma_unrelated_at(ts[2], ts[11], 1);
        } else if j == 12 {
            lemma_unrelated_at(ts[2], ts[12], 1);
        } else if j == 13 {
            lemma_unrelated_at(ts[2], ts[13], 1);
        } else if j == 14 {
            lemma_unrelated_at(ts[2], ts[14], 1);
        } else if j == 15 {
            lemma_unrelated_at(ts[2], ts[15], 1);
        } else if j == 16 {
            lemma_unrelated_at(ts[2], ts[16], 1);
        }
    } else if i == 3 {
        if j == 4 {
            lemma_unrelated_at(ts[3], ts[4], 2);
        } else if j == 5 {
            lemma_unrelated_at(ts[3], ts[5], 2);
        } else if j == 6 {
            lemma_unrelated_at(ts[3], ts[6], 3);
        } else if j == 7 {
            lemma_unrelated_at(ts[3], ts[7], 3);
        } else if j == 8 {
            lemma_unrelated_at(ts[3], ts[8], 1);
        } else if j == 9 {
            lemma_unrelated_at(ts[3], ts[9], 1);
        } else if j == 10 {
            lemma_unrelated_at(ts[3], ts[10], 1);
        } else if j == 11 {
            lemma_unrelated_at(ts[3], ts[11], 1);
        } else if j == 12 {
            lemma_unrelated_at(ts[3], ts[12], 1);
        } else if j == 13 {
            lemma_unrelated_at(ts[3], ts[13], 1);
        } else if j == 14 {
            lemma_unrelated_at(ts[3], ts[14], 1);
        } else if j == 15 {
            lemma_unrelated_at(ts[3], ts[15], 1);
        } else if j == 16 {
            lemma_unrelated_at(ts[3], ts[16], 1);
        }
    } else if i == 4 {
        if j == 5 {
            lemma_unrelated_at(ts[4], ts[5], 2);
        } else if j == 6 {
            lemma_unrelated_at(ts[4], ts[6], 2);
        } else if j == 7 {
            lemma_unrelated_at(ts[4], ts[7], 2);
        } else if j == 8 {
            lemma_unrelated_at(ts[4], ts[8], 1);
        } else if j == 9 {
            lemma_unrelated_at(ts[4], ts[9], 1);
        } else if j == 10 {
            lemma_unrelated_at(ts[4], ts[10], 1);
        } else if j == 11 {
            lemma_unrelated_at(ts[4], ts[11], 1);
        } else if j == 12 {
            lemma_unrelated_at(ts[4], ts[12], 1);
        } else if j == 13 {
            lemma_unrelated_at(ts[4], ts[13], 1);
        } else if j == 14 {
            lemma_unrelated_at(ts[4], ts[14], 1);
        } else if j == 15 {
            lemma_unrelated_at(ts[4], ts[15], 1);
        } else if j == 16 {
            lemma_unrelated_at(ts[4], ts[16], 1);
        }
    } else if i == 5 {
        if j == 6 {
            lemma_unrelated_at(ts[5], ts[6], 2);
        } else if j == 7 {
            lemma_unrelated_at(ts[5], ts[7], 2);
        } else if j == 8 {
            lemma_unrelated_at(ts[5], ts[8], 1);
        } else if j == 9 {
            lemma_unrelated_at(ts[5], ts[9], 1);
        } else if j == 10 {
            lemma_unrelated_at(ts[5], ts[10], 1);
        } else if j == 11 {
            lemma_unrelated_at(ts[5], ts[11], 1);
        } else if j == 12 {
            lemma_unrelated_at(ts[5], ts[12], 1);
        } else if j == 13 {
            lemma_unrelated_at(ts[5], ts[13], 1);
        } else if j == 14 {
            lemma_unrelated_at(ts[5], ts[14], 1);
        } else if j == 15 {
            lemma_unrelated_at(ts[5], ts[15], 1);
        } else if j == 16 {
            lemma_unrelated_at(ts[5], ts[16], 1);
        }
    } else if i == 6 {
        if j == 7 {
            lemma_unrelated_at(ts[6], ts[7], 7);
        } else if j == 8 {
            lemma_unrelated_at(ts[6], ts[8], 1);
        } else if j == 9 {
            lemma_unrelated_at(ts[6], ts[9], 1);
        } else if j == 10 {
            lemma_unrelated_at(ts[6], ts[10], 1);
        } else if j == 11 {
            lemma_unrelated_at(ts[6], ts[11], 1);
        } else if j == 12 {
            lemma_unrelated_at(ts[6], ts[12], 1);
        } else if j == 13 {
            lemma_unrelated_at(ts[6], ts[13], 1);
        } else if j == 14 {
            lemma_unrelated_at(ts[6], ts[14], 1);
        } else if j == 15 {
            lemma_unrelated_at(ts[6], ts[15], 1);
        } else if j == 16 {
            lemma_unrelated_at(ts[6], ts[16], 1);
        }
    } else if i == 7 {
        if j == 8 {
            lemma_unrelated_at(ts[7], ts[8], 1);
        } else if j == 9 {
            lemma_unrelated_at(ts[7], ts[9], 1);
        } else if j == 10 {
            lemma_unrelated_at(ts[7], ts[10], 1);
        } else if j == 11 {
            lemma_unrelated_at(ts[7], ts[11], 1);
        } else if j == 12 {
            lemma_unrelated_at(ts[7], ts[12], 1);
        } else if j == 13 {
            lemma_unrelated_at(ts[7], ts[13], 1);
        } else if j == 14 {
            lemma_unrelated_at(ts[7], ts[14], 1);
        } else if j == 15 {
            lemma_unrelated_at(ts[7], ts[15], 1);
        } else if j == 16 {
            lemma_unrelated_at(ts[7], ts[16], 1);
        }
    } else if i == 8 {
        if j == 9 {
            lemma_unrelated_at(ts[8], ts[9], 1);
        } else if j == 10 {
            lemma_unrelated_at(ts[8], ts[10], 1);
        } else if j == 11 {
            lemma_unrelated_at(ts[8], ts[11], 1);
        } else if j == 12 {
            lemma_unrelated_at(ts[8], ts[12], 1);
        } else if j == 13 {
            lemma_unrelated_at(ts[8], ts[13], 1);
        } else if j == 14 {
            lemma_unrelated_at(ts[8], ts[14], 1);
        } else if j == 15 {
            lemma_unrelated_at(ts[8], ts[15], 1);
        } else if j == 16 {
            lemma_unrelated_at(ts[8], ts[16], 1);
        }
    } else if i == 9 {
        if j == 10 {
            lemma_unrelated_at(ts[9], ts[10], 1);
        } else if j == 11 {
            lemma_unrelated_at(ts[9], ts[11], 1);
        } else if j == 12 {
            lemma_unrelated_at(ts[9], ts[12], 1);
        } else if j == 13 {
            lemma_unrelated_at(ts[9], ts[13], 1);
        } else if j == 14 {
            lemma_unrelated_at(ts[9], ts[14], 1);
        } else if j == 15 {
            lemma_unrelated_at(ts[9], ts[15], 1);
        } else if j == 16 {
            lemma_unrelated_at(ts[9], ts[16], 1);
        }
    } else if i == 10 {
        if j == 11 {
            lemma_unrelated_at(ts[10], ts[11], 1);
        } else if j == 12 {
            lemma_unrelated_at(ts[10], ts[12], 1);
        } else if j == 13 {
            lemma_unrelated_at(ts[10], ts[13], 1);
        } else if j == 14 {
            lemma_unrelated_at(ts[10], ts[14], 1);
        } else if j == 15 {
            lemma_unrelated_at(ts[10], ts[15], 1);
        } else if j == 16 {
            lemma_unrelated_at(ts[10], ts[16], 1);
        }
    } else if i == 11 {
        if j == 12 {
            lemma_unrelated_at(ts[11], ts[12], 1);
        } else if j == 13 {
            lemma_unrelated_at(ts[11], ts[13], 1);
        } else if j == 14 {
            lemma_unrelated_at(ts[11], ts[14], 1);
        } else if j == 15 {
            lemma_unrelated_at(ts[11], ts[15], 1);
        } else if j == 16 {
            lemma_unrelated_at(ts[11], ts[16], 1);
        }
    } else if i == 12 {
        if j == 13 {
            lemma_unrelated_at(ts[12], ts[13], 1);
        } else if j == 14 {
            lemma_unrelated_at(ts[12], ts[14], 1);
        } else if j == 15 {
            lemma_unrelated_at(ts[12], ts[15], 1);
        } else if j == 16 {
            lemma_unrelated_at(ts[12], ts[16], 1);
        }
    } else if i == 13 {
        if j == 14 {
            lemma_unrelated_at(ts[13], ts[14], 1);
        } else if j == 15 {
            lemma_unrelated_at(ts[13], ts[15], 1);
        } else if j == 16 {
            lemma_unrelated_at(ts[13], ts[16], 1);
        }
    } else if i == 14 {
        if j == 15 {
            lemma_unrelated_at(ts[14], ts[15], 1);
        } else if j == 16 {
            lemma_unrelated_at(ts[14], ts[16], 1);
        }
    } else if i == 15 {
        if j == 16 {
            lemma_unrelated_at(ts[15], ts[16], 1);
        }
    }
}

/// Removing a bracket token from text without `[` changes nothing.
proof fn lemma_remove_absent(x: Seq<char>, t: Seq<char>)
    requires
        no_open_bracket(x),
        t.len() > 0,
        t[0] == '[',
    ensures
        remove_all(x, t) == x,
    decreases x.len(),
{
    if x.len() > 0 {
        if t.len() <= x.len() && x.subrange(0, t.len() as int) == t {
            assert(x.subrange(0, t.len() as int)[0] == x[0]);
        }
        lemma_remove_absent(x.drop_first(), t);
        assert(no_open_bracket(x.drop_first()));
        assert(seq![x[0]] + x.drop_first() =~= x);
    }
}

/// Removing a bracket token passes over a text without `[` in front.
proof fn lemma_remove_after_plain(a: Seq<char>, y: Seq<char>, t: Seq<char>)
    requires
        no_open_bracket(a),
        t.len() > 0,
        t[0] == '[',
    ensures
        remove_all(a + y, t) == a + remove_all(y, t),
    decreases a.len(),
{
    if a.len() == 0 {
        assert(a + y =~= y);
        assert(a + remove_all(y, t) =~= remove_all(y, t));
    } else {
        let ay = a + y;
        assert(ay[0] == a[0]);
        if t.len() <= ay.len() && ay.subrange(0, t.len() as int) == t {
            assert(ay.subrange(0, t.len() as int)[0] == ay[0]);
        }
        assert(ay.drop_first() =~= a.drop_first() + y);
        lemma_remove_after_plain(a.drop_first(), y, t);
        assert(seq![a[0]] + (a.drop_first() + remove_all(y, t)) =~= a + remove_all(y, t));
    }
}

/// Removing a token takes out its occurrence between texts without `[`.
proof fn lemma_remove_token_itself(a: Seq<char>, tok: Seq<char>, b: Seq<char>)
    requires
        no_open_bracket(a),
        no_open_bracket(b),
        bracket_token(tok),
    ensures
        remove_all(a + tok + b, tok) == a + b,
{
    let y = tok + b;
    assert(a + tok + b =~= a + y);
    lemma_remove_after_plain(a, y, tok);
    assert(y.subrange(0, tok.len() as int) =~= tok);
    assert(y.skip(tok.len() as int) =~= b);
    lemma_remove_absent(b, tok);
}

/// Removing another token leaves a token between texts without `[` alone.
proof fn lemma_remove_other_token(a: Seq<char>, tok: Seq<char>, b: Seq<char>, t: Seq<char>)
    requires
        no_open_bracket(a),
        no_open_bracket(b),
        bracket_token(tok),
        bracket_token(t),
        unrelated(t, tok),
    ensures
        remove_all(a + tok + b, t) == a + tok + b,
{
    let y = tok + b;
    assert(a + tok + b =~= a + y);
    lemma_remove_after_plain(a, y, t);
    if t.len() <= y.len() && y.subrange(0, t.len() as int) == t {
        if t.len() <= tok.len() {
            assert(tok.take(t.len() as int) =~= y.subrange(0, t.len() as int));
        } else {
            assert(t.take(tok.len() as int) =~= y.subrange(0, t.len() as int).take(tok.len() as int));
            assert(y.subrange(0, t.len() as int).take(tok.len() as int) =~= tok);
        }
    }
    assert(y.drop_first() =~= tok.drop_first() + b);
    assert forall|m: int| 0 <= m < y.drop_first().len() implies y.drop_first()[m] != '[' by {
        if m < tok.drop_first().len() {
            assert(y.drop_first()[m] == tok.drop_first()[m]);
        } else {
            assert(y.drop_first()[m] == b[m - tok.drop_first().len()]);
        }
    }
    lemma_remove_absent(y.drop_first(), t);
    assert(seq![y[0]] + y.drop_first() =~= y);
}

/// Removing bracket tokens from text without `[` changes nothing.
proof fn lemma_remove_tokens_plain(x: Seq<char>, ts: Seq<Seq<char>>)
    requires
        no_open_bracket(x),
        forall|i: int| 0 <= i < ts.len() ==> bracket_token(#[trigger] ts[i]),
    ensures
        remove_tokens(x, ts) == x,
    decreases ts.len(),
{
    if ts.len() > 0 {
        assert(bracket_token(ts[0]));
        lemma_remove_absent(x, ts[0]);
        assert forall|i: int| 0 <= i < ts.drop_first().len() implies bracket_token(#[trigger] ts.drop_first()[i]) by {
            assert(ts.drop_first()[i] == ts[i + 1]);
        }
        lemma_remove_tokens_plain(x, ts.drop_first());
    }
}

/// Removing a list of tokens that holds `tok`, and only tokens unrelated to
/// it otherwise, takes out `tok` between texts without `[`.
proof fn lemma_remove_tokens_one(a: Seq<char>, tok: Seq<char>, b: Seq<char>, ts: Seq<Seq<char>>)
    requires
        no_open_bracket(a),
        no_open_bracket(b),
        bracket_token(tok),
        ts.contains(tok),
        forall|i: int| 0 <= i < ts.len() ==> bracket_token(#[trigger] ts[i]),
        forall|i: int| 0 <= i < ts.len() && ts[i] != tok ==> unrelated(#[trigger] ts[i], tok),
    ensures
        remove_tokens(a + tok + b, ts) == a + b,
    decreases ts.len(),
{
    assert forall|i: int| 0 <= i < ts.drop_first().len() implies bracket_token(#[trigger] ts.drop_first()[i]) by {
        assert(ts.drop_first()[i] == ts[i + 1]);
    }
    if ts[0] == tok {
        lemma_remove_token_itself(a, tok, b);
        assert(no_open_bracket(a + b)) by {
            assert forall|m: int| 0 <= m < (a + b).len() implies (a + b)[m] != '[' by {
                if m >= a.len() {
                    assert((a + b)[m] == b[m - a.len()]);
                }
            }
        }
        lemma_remove_tokens_plain(a + b, ts.drop_first());
    } else {
        assert(bracket_token(ts[0]));
        lemma_remove_other_token(a, tok, b, ts[0]);
        let k = choose|k: int| 0 <= k < ts.len() && ts[k] == tok;
        assert(k > 0);
        assert(ts.drop_first()[k - 1] == tok);
        assert forall|i: int| 0 <= i < ts.drop_first().len() && ts.drop_first()[i] != tok implies unrelated(
            #[trigger] ts.drop_first()[i],
            tok,
        ) by {
            assert(ts.drop_first()[i] == ts[i + 1]);
        }
        lemma_remove_tokens_one(a, tok, b, ts.drop_first());
    }
}

/// Cleaning takes out every special token: with text around it that holds
/// no `[` (so that no token can form across it), a special token leaves the
/// same cleaned transcript as if it were not there, and text without `[`
/// loses nothing but its extra whitespace.
pub proof fn special_tokens_are_removed(a: Seq<char>, tok: Seq<char>, b: Seq<char>)
    requires
        special_tokens().contains(tok),
        no_open_bracket(a),
        no_open_bracket(b),
    ensures
        clean_transcript_text(a + tok + b) == clean_transcript_text(a + b),
        clean_transcript_text(a + b) == join(words(a + b), " "@),
{
    let ts = special_tokens();
    let j = choose|j: int| 0 <= j < ts.len() && ts[j] == tok;
    assert forall|i: int| 0 <= i < ts.len() implies bracket_token(#[trigger] ts[i]) by {
        lemma_special_token_bracketed(i);
    }
    assert forall|i: int| 0 <= i < ts.len() && ts[i] != tok implies unrelated(#[trigger] ts[i], tok) by {
        if i < j {
            lemma_special_tokens_unrelated(i, j);
        } else {
            lemma_special_tokens_unrelated(j, i);
        }
    }
    lemma_remove_tokens_one(a, tok, b, ts);
    assert(no_open_bracket(a + b)) by {
        assert forall|m: int| 0 <= m < (a + b).len() implies (a + b)[m] != '[' by {
            if m >= a.len() {
                assert((a + b)[m] == b[m - a.len()]);
            }
        }
    }
    lemma_remove_tokens_plain(a + b, ts);
}

// ---------------------------------------------------------------------------
// Cleaning sections
// ---------------------------------------------------------------------------

/// One line of a section: trimmed, and made a bullet unless it already
/// starts with `-`, `*` or `•`.
pub open spec fn clean_line(line: Seq<char>) -> Seq<char> {
    let l = trim(line);
    if l.len() == 0 {
        Seq::empty()
    } else if l[0] == '-' || l[0] == '*' || l[0] == '\u{2022}' {
        l
    } else {
        "- "@ + l
    }
}

/// The cleaned non-blank lines.
pub open spec fn clean_lines(ls: Seq<Seq<char>>) -> Seq<Seq<char>>
    decreases ls.len(),
{
    if ls.len() == 0 {
        Seq::empty()
    } else {
        let c = clean_line(ls.last());
        if c.len() == 0 {
            clean_lines(ls.drop_last())
        } else {
            clean_lines(ls.drop_last()).push(c)
        }
    }
}

/// A section's content as bullet lines; blank content and a lone `None`
/// give nothing.
pub open spec fn clean_section_text(content: Seq<char>) -> Seq<char> {
    let t = trim(content);
    if t.len() == 0 || is_none_word(t) {
        Seq::empty()
    } else {
        join(clean_lines(lines(t)), "\n"@)
    }
}

/// Clean up a section: remove "None" if it's the only content, and make
/// every non-blank line a bullet.
pub fn clean_section(content: &str) -> (r: String)
    ensures
        r@ == clean_section_text(content@),
{
    let chars = chars_of(content);
    let t = trimmed(&chars);
    if t.len() == 0 || is_none(&t) {
        return String::new();
    }
    let ls = split_lines(&t);
    let mut cleaned: Vec<Vec<char>> = Vec::new();
    let mut i: usize = 0;
    while i < ls.len()
        invariant
            0 <= i <= ls.len(),
            views(ls@) == lines(t@),
            views(cleaned@) == clean_lines(views(ls@).take(i as int)),
        decreases ls.len() - i,
    {
        let line = &ls[i];
        let (a, b) = trim_bounds(line, 0, line.len());
        assert(line@.subrange(0, line@.len() as int) =~= line@);
        assert(views(ls@)[i as int] == line@);
        let ghost done = views(ls@).take(i + 1);
        assert(done.drop_last() =~= views(ls@).take(i as int));
        assert(done.last() == line@);
        if a < b {
            let mut c: Vec<char> = Vec::new();
            if !(line[a] == '-' || line[a] == '*' || line[a] == '\u{2022}') {
                c.push('-');
                c.push(' ');
            }
            let mut k: usize = a;
            let ghost prefix = c@;
            while k < b
                invariant
                    a <= k <= b <= line.len(),
                    c@ == prefix + line@.subrange(a as int, k as int),
                decreases b - k,
            {
                c.push(line[k]);
                assert(line@.subrange(a as int, k + 1) =~= line@.subrange(a as int, k as int).push(line@[k as int]));
                k += 1;
            }
            proof {
                reveal_strlit("- ");
                assert(trim(line@)[0] == line@[a as int]);
                assert(c@ =~= clean_line(line@));
            }
            let ghost before = views(cleaned@);
            cleaned.push(c);
            assert(views(cleaned@) =~= before.push(clean_line(line@)));
        }
        i += 1;
    }
    assert(views(ls@).take(ls.len() as int) =~= views(ls@));
    join_parts(&cleaned, "\n")
}

/// A cleaned line: not empty, a bullet, no trailing whitespace and no line
/// break.
pub open spec fn is_clean_line(c: Seq<char>) -> bool {
    &&& c.len() > 0
    &&& (c[0] == '-' || c[0] == '*' || c[0] == '\u{2022}')
    &&& !char_is_whitespace(c.last())
    &&& no_newline(c)
}

/// Cleaning a line without a line break gives a clean line or nothing.
proof fn lemma_clean_line_is_clean(line: Seq<char>)
    requires
        no_newline(line),
        clean_line(line).len() > 0,
    ensures
        is_clean_line(clean_line(line)),
{
    lemma_trim_edges(line);
    let l = trim(line);
    reveal_strlit("- ");
    if !(l[0] == '-' || l[0] == '*' || l[0] == '\u{2022}') {
        let c = "- "@ + l;
        assert(c[0] == '-');
        assert(c.last() == l.last());
        assert forall|i: int| 0 <= i < c.len() implies c[i] != '\n' by {
            if i >= 2 {
                assert(c[i] == l[i - 2]);
            }
        }
    }
}

/// A clean line is its own cleaning.
proof fn lemma_clean_line_fixed(c: Seq<char>)
    requires
        is_clean_line(c),
    ensures
        trim(c) == c,
        clean_line(c) == c,
{
    lemma_trim_of_solid(c);
}

/// Cleaning lines without line breaks gives clean lines.
proof fn lemma_clean_lines_are_clean(ls: Seq<Seq<char>>)
    requires
        forall|k: int| 0 <= k < ls.len() ==> no_newline(#[trigger] ls[k]),
    ensures
        forall|k: int| 0 <= k < clean_lines(ls).len() ==> is_clean_line(#[trigger] clean_lines(ls)[k]),
    decreases ls.len(),
{
    if ls.len() > 0 {
        assert forall|k: int| 0 <= k < ls.drop_last().len() implies no_newline(#[trigger] ls.drop_last()[k]) by {
            assert(ls.drop_last()[k] == ls[k]);
        }
        lemma_clean_lines_are_clean(ls.drop_last());
        assert(no_newline(ls[ls.len() - 1]));
        let prev = clean_lines(ls.drop_last());
        let c = clean_line(ls.last());
        if c.len() > 0 {
            lemma_clean_line_is_clean(ls.last());
            assert(clean_lines(ls) == prev.push(c));
            assert forall|k: int| 0 <= k < clean_lines(ls).len() implies is_clean_line(#[trigger] clean_lines(ls)[k]) by {
                if k < prev.len() {
                    assert(clean_lines(ls)[k] == prev[k]);
                }
            }
        } else {
            assert(clean_lines(ls) == prev);
        }
    }
}

/// Clean lines are their own cleaning.
proof fn lemma_clean_lines_fixed(ls: Seq<Seq<char>>)
    requires
        forall|k: int| 0 <= k < ls.len() ==> is_clean_line(#[trigger] ls[k]),
    ensures
        clean_lines(ls) == ls,
    decreases ls.len(),
{
    if ls.len() > 0 {
        assert forall|k: int| 0 <= k < ls.drop_last().len() implies is_clean_line(#[trigger] ls.drop_last()[k]) by {
            assert(ls.drop_last()[k] == ls[k]);
        }
        lemma_clean_lines_fixed(ls.drop_last());
        assert(is_clean_line(ls[ls.len() - 1]));
        lemma_clean_line_fixed(ls.last());
        assert(ls.drop_last().push(ls.last()) =~= ls);
    }
}

/// Cleaning a cleaned section changes nothing.
pub proof fn clean_section_is_idempotent(content: Seq<char>)
    ensures
        clean_section_text(clean_section_text(content)) == clean_section_text(content),
{
    let e = Seq::<char>::empty();
    assert(trim(e) == e);
    let t = trim(content);
    if !(t.len() == 0 || is_none_word(t)) {
        lemma_lines_no_newline(t, e);
        let ls = clean_lines(lines(t));
        lemma_clean_lines_are_clean(lines(t));
        if ls.len() > 0 {
            let j = join(ls, "\n"@);
            assert forall|k: int| 0 <= k < ls.len() implies (#[trigger] ls[k]).len() > 0 by {
                assert(is_clean_line(ls[k]));
            }
            lemma_join_edges(ls, "\n"@);
            assert(is_clean_line(ls[0]));
            assert(is_clean_line(ls[ls.len() - 1]));
            lemma_trim_of_solid(j);
            reveal_strlit("none");
            assert(ascii_lower_seq(j)[0] == ascii_lower(j[0]));
            assert(ascii_lower_seq(j) != "none"@);
            assert forall|k: int| 0 <= k < ls.len() implies (#[trigger] ls[k]).len() > 0 && no_newline(ls[k])
                && !char_is_whitespace(ls[k].last()) by {
                assert(is_clean_line(ls[k]));
            }
            lemma_lines_of_join(ls);
            lemma_clean_lines_fixed(ls);
        }
    }
}

// ---------------------------------------------------------------------------
// Section headers
// ---------------------------------------------------------------------------

/// The three sections of a summary.
#[derive(Clone, Copy, PartialEq, Eq, Structural)]
pub enum SummarySection {
    KeyPoints,
    Decisions,
    ActionItems,
}

/// `s` without leading characters satisfying `p`.
pub open spec fn trim_start_where(s: Seq<char>, p: spec_fn(char) -> bool) -> Seq<char>
    decreases s.len(),
{
    if s.len() > 0 && p(s[0]) {
        trim_start_where(s.drop_first(), p)
    } else {
        s
    }
}

/// `#`, which Markdown headings start with.
pub open spec fn is_hash(c: char) -> bool {
    c == '#'
}

/// An ASCII digit, `.` or `)`, as in numbered headings.
pub open spec fn is_label_mark(c: char) -> bool {
    ('0' <= c && c <= '9') || c == '.' || c == ')'
}

/// The position of the first `c` in `s`.
pub open spec fn first_index_of(s: Seq<char>, c: char) -> Option<int>
    decreases s.len(),
{
    if s.len() == 0 {
        None
    } else if s[0] == c {
        Some(0)
    } else {
        match first_index_of(s.drop_first(), c) {
            Some(i) => Some(i + 1),
            None => None,
        }
    }
}

/// A header line split at its first `:` into label and remainder, both
/// trimmed, after trimming the line and its leading `#`s.
pub open spec fn header_parts(line: Seq<char>) -> (Seq<char>, Seq<char>) {
    let t = trim(trim_start_where(trim(line), |c: char| is_hash(c)));
    match first_index_of(t, ':') {
        Some(i) => (trim(t.take(i)), trim(t.skip(i + 1))),
        None => (t, Seq::empty()),
    }
}

/// A label lowercased, without leading numbering, `_` and `-` read as
/// spaces.
pub open spec fn normalize_label(label: Seq<char>) -> Seq<char> {
    let lower = str_lowercase(trim(trim_start_where(label, |c: char| is_label_mark(c))));
    Seq::new(lower.len(), |i: int| if lower[i] == '_' || lower[i] == '-' { ' ' } else { lower[i] })
}

/// The section a normalized label names.
pub open spec fn section_named(label: Seq<char>) -> Option<SummarySection> {
    if label == "key points"@ {
        Some(SummarySection::KeyPoints)
    } else if label == "decisions"@ {
        Some(SummarySection::Decisions)
    } else if label == "action items"@ {
        Some(SummarySection::ActionItems)
    } else {
        None
    }
}

/// The section a line opens, with the text after its `:`.
pub open spec fn header_of(line: Seq<char>) -> Option<(SummarySection, Seq<char>)> {
    let (label, rest) = header_parts(line);
    match section_named(normalize_label(label)) {
        Some(s) => Some((s, rest)),
        None => None,
    }
}

/// The first position in `v[lo..hi]` whose character is not `#`.
fn skip_hashes(v: &Vec<char>, lo: usize, hi: usize) -> (r: usize)
    requires
        lo <= hi <= v.len(),
    ensures
        lo <= r <= hi,
        v@.subrange(r as int, hi as int) == trim_start_where(v@.subrange(lo as int, hi as int), |c: char| is_hash(c)),
{
    let mut a = lo;
    while a < hi && v[a] == '#'
        invariant
            lo <= a <= hi <= v.len(),
            trim_start_where(v@.subrange(lo as int, hi as int), |c: char| is_hash(c)) == trim_start_where(
                v@.subrange(a as int, hi as int),
                |c: char| is_hash(c),
            ),
        decreases hi - a,
    {
        assert(v@.subrange(a as int, hi as int).drop_first() =~= v@.subrange(a + 1, hi as int));
        a += 1;
    }
    a
}

/// The first position in `v[lo..hi]` that is not a label mark.
fn skip_label_marks(v: &Vec<char>, lo: usize, hi: usize) -> (r: usize)
    requires
        lo <= hi <= v.len(),
    ensures
        lo <= r <= hi,
        v@.subrange(r as int, hi as int) == trim_start_where(v@.subrange(lo as int, hi as int), |c: char| is_label_mark(c)),
{
    let mut a = lo;
    while a < hi && (('0' <= v[a] && v[a] <= '9') || v[a] == '.' || v[a] == ')')
        invariant
            lo <= a <= hi <= v.len(),
            trim_start_where(v@.subrange(lo as int, hi as int), |c: char| is_label_mark(c)) == trim_start_where(
                v@.subrange(a as int, hi as int),
                |c: char| is_label_mark(c),
            ),
        decreases hi - a,
    {
        assert(v@.subrange(a as int, hi as int).drop_first() =~= v@.subrange(a + 1, hi as int));
        a += 1;
    }
    a
}

/// The position of the first `c` in `v[lo..hi]`.
pub fn find_char(v: &Vec<char>, lo: usize, hi: usize, c: char) -> (r: Option<usize>)
    requires
        lo <= hi <= v.len(),
    ensures
        match r {
            Some(i) => lo <= i < hi && first_index_of(v@.subrange(lo as int, hi as int), c) == Some(i - lo),
            None => first_index_of(v@.subrange(lo as int, hi as int), c) is None,
        },
{
    let mut i = hi;
    let mut found: Option<usize> = None;
    // scan from the back so that the last match kept is the first one
    while i > lo
        invariant
            lo <= i <= hi <= v.len(),
            match found {
                Some(f) => i <= f < hi && first_index_of(v@.subrange(i as int, hi as int), c) == Some(f - i),
                None => first_index_of(v@.subrange(i as int, hi as int), c) is None,
            },
        decreases i - lo,
    {
        let ghost s = v@.subrange(i - 1, hi as int);
        assert(s.drop_first() =~= v@.subrange(i as int, hi as int));
        if v[i - 1] == c {
            found = Some(i - 1);
        }
        i -= 1;
    }
    found
}

/// The section a line opens, if it is a header, and the text after its
/// `:`.
pub fn parse_section_header(line: &str) -> (r: Option<(SummarySection, String)>)
    ensures
        match r {
            Some((s, rest)) => header_of(line@) == Some((s, rest@)),
            None => header_of(line@) is None,
        },
{
    let v = chars_of(line);
    let (a0, b0) = trim_bounds(&v, 0, v.len());
    assert(v@.subrange(0, v@.len() as int) =~= v@);
    let h = skip_hashes(&v, a0, b0);
    let (a, b) = trim_bounds(&v, h, b0);
    // now v[a..b] is the trimmed header text
    let ghost t = v@.subrange(a as int, b as int);
    let (label_lo, label_hi, rest_lo, rest_hi) = match find_char(&v, a, b, ':') {
        Some(i) => {
            let (la, lb) = trim_bounds(&v, a, i);
            let (ra, rb) = trim_bounds(&v, i + 1, b);
            assert(t.take(i - a) =~= v@.subrange(a as int, i as int));
            assert(t.skip(i - a + 1) =~= v@.subrange(i + 1, b as int));
            (la, lb, ra, rb)
        },
        None => (a, b, b, b),
    };
    let ghost label = v@.subrange(label_lo as int, label_hi as int);
    let ghost rest = v@.subrange(rest_lo as int, rest_hi as int);
    assert((label, rest) == header_parts(line@));
    let m = skip_label_marks(&v, label_lo, label_hi);
    let (na, nb) = trim_bounds(&v, m, label_hi);
    let mut label_text = String::new();
    push_range(&mut label_text, &v, na, nb);
    let lower = to_lowercase(label_text.as_str());
    let lower_chars = chars_of(lower.as_str());
    let mut normalized: Vec<char> = Vec::new();
    let mut k: usize = 0;
    while k < lower_chars.len()
        invariant
            0 <= k <= lower_chars.len(),
            normalized@ == Seq::new(k as nat, |j: int| if lower_chars@[j] == '_' || lower_chars@[j] == '-' { ' ' } else { lower_chars@[j] }),
        decreases lower_chars.len() - k,
    {
        let c = lower_chars[k];
        if c == '_' || c == '-' {
            normalized.push(' ');
        } else {
            normalized.push(c);
        }
        assert(normalized@ =~= Seq::new((k + 1) as nat, |j: int| if lower_chars@[j] == '_' || lower_chars@[j] == '-' { ' ' } else { lower_chars@[j] }));
        k += 1;
    }
    assert(normalized@ =~= normalize_label(label));
    let section = if chars_eq(&normalized, &chars_of("key points")) {
        SummarySection::KeyPoints
    } else if chars_eq(&normalized, &chars_of("decisions")) {
        SummarySection::Decisions
    } else if chars_eq(&normalized, &chars_of("action items")) {
        SummarySection::ActionItems
    } else {
        return None;
    };
    let mut remainder = String::new();
    push_range(&mut remainder, &v, rest_lo, rest_hi);
    Some((section, remainder))
}

// ---------------------------------------------------------------------------
// Plain-text summaries
// ---------------------------------------------------------------------------

/// The lines gathered so far: the current section and the lines of each
/// section.
pub type SectionState = (Option<SummarySection>, Seq<Seq<char>>, Seq<Seq<char>>, Seq<Seq<char>>);

/// `line` added to the lines of `section`.
pub open spec fn add_line(st: SectionState, section: SummarySection, line: Seq<char>) -> SectionState {
    match section {
        SummarySection::KeyPoints => (st.0, st.1.push(line), st.2, st.3),
        SummarySection::Decisions => (st.0, st.1, st.2.push(line), st.3),
        SummarySection::ActionItems => (st.0, st.1, st.2, st.3.push(line)),
    }
}

/// One line read: a header switches section (keeping any text after its
/// `:`), any other line goes to the current section, and lines before the
/// first header are dropped.
pub open spec fn read_line(st: SectionState, line: Seq<char>) -> SectionState {
    match header_of(line) {
        Some((s, rest)) => {
            let switched = (Some(s), st.1, st.2, st.3);
            if rest.len() > 0 {
                add_line(switched, s, rest)
            } else {
                switched
            }
        },
        None => match st.0 {
            Some(s) => add_line(st, s, line),
            None => st,
        },
    }
}

/// The state after reading the lines in order.
pub open spec fn read_lines(ls: Seq<Seq<char>>) -> SectionState
    decreases ls.len(),
{
    if ls.len() == 0 {
        (None, Seq::empty(), Seq::empty(), Seq::empty())
    } else {
        read_line(read_lines(ls.drop_last()), ls.last())
    }
}

/// The lines gathered so far for one section.
pub open spec fn section_lines(st: SectionState, section: SummarySection) -> Seq<Seq<char>> {
    match section {
        SummarySection::KeyPoints => st.1,
        SummarySection::Decisions => st.2,
        SummarySection::ActionItems => st.3,
    }
}

/// `a` is an initial part of `b`.
pub open spec fn is_prefix_of(a: Seq<Seq<char>>, b: Seq<Seq<char>>) -> bool {
    a.len() <= b.len() && b.take(a.len() as int) == a
}

/// Reading one more line only adds lines at the end of a section.
proof fn lemma_read_line_extends(st: SectionState, line: Seq<char>, section: SummarySection)
    ensures
        is_prefix_of(section_lines(st, section), section_lines(read_line(st, line), section)),
{
    let before = section_lines(st, section);
    let after = section_lines(read_line(st, line), section);
    assert(before.take(before.len() as int) =~= before);
    if after.len() > before.len() {
        assert(after.take(before.len() as int) =~= before);
    }
}

/// Reading more lines never changes the lines a section already has: what
/// the first `k` lines gathered for a section is an initial part of what
/// the whole answer gathers for it.
pub proof fn earlier_section_lines_stay(ls: Seq<Seq<char>>, k: int, section: SummarySection)
    requires
        0 <= k <= ls.len(),
    ensures
        is_prefix_of(section_lines(read_lines(ls.take(k)), section), section_lines(read_lines(ls), section)),
    decreases ls.len(),
{
    if k == ls.len() {
        assert(ls.take(k) =~= ls);
        let a = section_lines(read_lines(ls), section);
        assert(a.take(a.len() as int) =~= a);
    } else {
        earlier_section_lines_stay(ls.drop_last(), k, section);
        assert(ls.drop_last().take(k) =~= ls.take(k));
        lemma_read_line_extends(read_lines(ls.drop_last()), ls.last(), section);
        let a = section_lines(read_lines(ls.take(k)), section);
        let b = section_lines(read_lines(ls.drop_last()), section);
        let c = section_lines(read_lines(ls), section);
        assert(c.take(a.len() as int) =~= b.take(a.len() as int));
    }
}

/// A header line `Label: text` whose text is not empty opens its section
/// with that text: the text is the next line of that section, right after
/// what the lines before the header gathered for it, and stays there
/// whatever follows. In particular, when the answer starts with such a
/// header, its text is the first line of its section.
pub proof fn header_text_opens_its_section(
    ls: Seq<Seq<char>>,
    k: int,
    section: SummarySection,
    rest: Seq<char>,
)
    requires
        0 <= k < ls.len(),
        header_of(ls[k]) == Some((section, rest)),
        rest.len() > 0,
    ensures
        section_lines(read_lines(ls.take(k + 1)), section) == section_lines(read_lines(ls.take(k)), section).push(rest),
        section_lines(read_lines(ls), section)[section_lines(read_lines(ls.take(k)), section).len() as int] == rest,
        k == 0 ==> section_lines(read_lines(ls), section)[0] == rest,
{
    assert(ls.take(k + 1).drop_last() =~= ls.take(k));
    assert(ls.take(k + 1).last() == ls[k]);
    let before = section_lines(read_lines(ls.take(k)), section);
    earlier_section_lines_stay(ls, k + 1, section);
    let all = section_lines(read_lines(ls), section);
    assert(all.take(before.len() + 1int)[before.len() as int] == rest);
    if k == 0 {
        assert(ls.take(0) =~= Seq::<Seq<char>>::empty());
    }
}

/// The three cleaned sections of a plain-text answer.
pub open spec fn text_summary(response: Seq<char>) -> (Seq<char>, Seq<char>, Seq<char>) {
    let st = read_lines(lines(response));
    (
        clean_section_text(join(st.1, "\n"@)),
        clean_section_text(join(st.2, "\n"@)),
        clean_section_text(join(st.3, "\n"@)),
    )
}

/// A parsed summary.
pub struct ParsedSummary {
    pub key_points: String,
    pub decisions: String,
    pub action_items: String,
}

/// The three sections of a parsed summary.
pub open spec fn summary_view(p: ParsedSummary) -> (Seq<char>, Seq<char>, Seq<char>) {
    (p.key_points@, p.decisions@, p.action_items@)
}

/// Append a line to the lines of a section.
pub fn push_section_line(
    section: SummarySection,
    line: &str,
    key_points: &mut Vec<String>,
    decisions: &mut Vec<String>,
    action_items: &mut Vec<String>,
)
    ensures
        (string_views(final(key_points)@), string_views(final(decisions)@), string_views(final(action_items)@))
            == ({
            let st = add_line(
                (None, string_views(old(key_points)@), string_views(old(decisions)@), string_views(old(action_items)@)),
                section,
                line@,
            );
            (st.1, st.2, st.3)
        }),
{
    let mut owned = String::new();
    push_str(&mut owned, line);
    match section {
        SummarySection::KeyPoints => {
            key_points.push(owned);
            assert(string_views(key_points@) =~= string_views(old(key_points)@).push(line@));
        },
        SummarySection::Decisions => {
            decisions.push(owned);
            assert(string_views(decisions@) =~= string_views(old(decisions)@).push(line@));
        },
        SummarySection::ActionItems => {
            action_items.push(owned);
            assert(string_views(action_items@) =~= string_views(old(action_items)@).push(line@));
        },
    }
}

/// The views of a sequence of strings.
pub open spec fn string_views(v: Seq<String>) -> Seq<Seq<char>> {
    Seq::new(v.len(), |i: int| v[i]@)
}

/// `parts` joined with newlines.
fn join_lines(parts: &Vec<String>) -> (r: String)
    ensures
        r@ == join(string_views(parts@), "\n"@),
{
    let mut out = String::new();
    let mut i: usize = 0;
    while i < parts.len()
        invariant
            0 <= i <= parts.len(),
            out@ == join(string_views(parts@).take(i as int), "\n"@),
        decreases parts.len() - i,
    {
        if i > 0 {
            push_str(&mut out, "\n");
        }
        push_str(&mut out, parts[i].as_str());
        assert(string_views(parts@).take(i + 1).drop_last() =~= string_views(parts@).take(i as int));
        if i == 0 {
            assert(out@ =~= join(string_views(parts@).take(1), "\n"@));
        }
        i += 1;
    }
    assert(string_views(parts@).take(parts.len() as int) =~= string_views(parts@));
    out
}

/// Parse a plain-text answer by its section headers.
pub fn parse_text_summary(response: &str) -> (r: ParsedSummary)
    ensures
        summary_view(r) == text_summary(response@),
{
    let v = chars_of(response);
    let ls = split_lines(&v);
    let mut current: Option<SummarySection> = None;
    let mut key_points: Vec<String> = Vec::new();
    let mut decisions: Vec<String> = Vec::new();
    let mut action_items: Vec<String> = Vec::new();
    let mut i: usize = 0;
    while i < ls.len()
        invariant
            0 <= i <= ls.len(),
            views(ls@) == lines(response@),
            read_lines(views(ls@).take(i as int)) == (
                current,
                string_views(key_points@),
                string_views(decisions@),
                string_views(action_items@),
            ),
        decreases ls.len() - i,
    {
        let line = string_of(&ls[i]);
        assert(views(ls@)[i as int] == line@);
        let ghost done = views(ls@).take(i + 1);
        assert(done.drop_last() =~= views(ls@).take(i as int));
        assert(done.last() == line@);
        match parse_section_header(line.as_str()) {
            Some((section, remainder)) => {
                current = Some(section);
                if !remainder.as_str().is_empty() {
                    push_section_line(section, remainder.as_str(), &mut key_points, &mut decisions, &mut action_items);
                }
            },
            None => {
                if let Some(section) = current {
                    push_section_line(section, line.as_str(), &mut key_points, &mut decisions, &mut action_items);
                }
            },
        }
        i += 1;
    }
    assert(views(ls@).take(ls.len() as int) =~= views(ls@));
    let kp = join_lines(&key_points);
    let d = join_lines(&decisions);
    let ai = join_lines(&action_items);
    ParsedSummary {
        key_points: clean_section(kp.as_str()),
        decisions: clean_section(d.as_str()),
        action_items: clean_section(ai.as_str()),
    }
}

// ---------------------------------------------------------------------------
// JSON summaries
// ---------------------------------------------------------------------------

/// The end of the JSON object whose scan is at position `i`, given whether
/// the scan is inside a string, just after a backslash in a string, and how
/// many braces are open: the position of the brace that closes the object.
pub open spec fn json_close(s: Seq<char>, i: int, in_string: bool, escaped: bool, depth: nat) -> Option<int>
    decreases s.len() - i,
{
    if i < 0 || i >= s.len() {
        None
    } else if escaped {
        json_close(s, i + 1, in_string, false, depth)
    } else if s[i] == '\\' && in_string {
        json_close(s, i + 1, in_string, true, depth)
    } else if s[i] == '"' {
        json_close(s, i + 1, !in_string, false, depth)
    } else if s[i] == '{' && !in_string {
        json_close(s, i + 1, in_string, false, depth + 1)
    } else if s[i] == '}' && !in_string {
        let d: nat = if depth > 0 { (depth - 1) as nat } else { 0 };
        if d == 0 {
            Some(i)
        } else {
            json_close(s, i + 1, in_string, false, d)
        }
    } else {
        json_close(s, i + 1, in_string, false, depth)
    }
}

/// The first balanced `{...}` of `s`, braces inside JSON strings not
/// counted.
pub open spec fn json_object_text(s: Seq<char>) -> Option<Seq<char>> {
    match first_index_of(s, '{') {
        Some(start) => match json_close(s, start, false, false, 0) {
            Some(end) => Some(s.subrange(start, end + 1)),
            None => None,
        },
        None => None,
    }
}

/// Find the first balanced JSON object in a model answer (which may wrap it
/// in prose or a Markdown fence).
pub fn find_json_object(response: &str) -> (r: Option<String>)
    ensures
        match r {
            Some(t) => json_object_text(response@) == Some(t@),
            None => json_object_text(response@) is None,
        },
{
    let v = chars_of(response);
    assert(v@.subrange(0, v@.len() as int) =~= v@);
    let start = match find_char(&v, 0, v.len(), '{') {
        Some(i) => i,
        None => return None,
    };
    let mut in_string = false;
    let mut escaped = false;
    let mut depth: usize = 0;
    let mut i: usize = start;
    assert(first_index_of(v@, '{') == Some(start as int));
    while i < v.len()
        invariant
            v@ == response@,
            first_index_of(v@, '{') == Some(start as int),
            start <= i <= v.len(),
            depth <= i - start,
            json_close(v@, start as int, false, false, 0) == json_close(v@, i as int, in_string, escaped, depth as nat),
        decreases v.len() - i,
    {
        let c = v[i];
        let ghost (ins, esc, dep) = (in_string, escaped, depth as nat);
        if escaped {
            escaped = false;
        } else if c == '\\' && in_string {
            escaped = true;
        } else if c == '"' {
            in_string = !in_string;
        } else if c == '{' && !in_string {
            depth += 1;
        } else if c == '}' && !in_string {
            depth = if depth > 0 { depth - 1 } else { 0 };
            if depth == 0 {
                assert(json_close(v@, i as int, ins, esc, dep) == Some(i as int));
                assert(first_index_of(v@, '{') == Some(start as int));
                let mut out = String::new();
                push_range(&mut out, &v, start, i + 1);
                return Some(out);
            }
        }
        i += 1;
    }
    None
}

/// The keys under which each section may appear, in order of preference.
pub open spec fn key_point_keys() -> Seq<Seq<char>> {
    seq!["key_points"@, "keyPoints"@, "key points"@, "Key Points"@, "KEY POINTS"@]
}

/// The keys of the decisions section.
pub open spec fn decision_keys() -> Seq<Seq<char>> {
    seq!["decisions"@, "Decisions"@, "DECISIONS"@]
}

/// The keys of the action items section.
pub open spec fn action_item_keys() -> Seq<Seq<char>> {
    seq!["action_items"@, "actionItems"@, "action items"@, "Action Items"@, "ACTION ITEMS"@]
}

/// The first of `keys` present in an object, with the person it names.
pub open spec fn first_present(v: JsonValue, keys: Seq<Seq<char>>) -> Option<JsonValue>
    decreases keys.len(),
{
    if keys.len() == 0 {
        None
    } else {
        match json_get(v, keys[0]) {
            Some(x) => Some(x),
            None => first_present(v, keys.drop_first()),
        }
    }
}

/// The task of an action-item object: its `task` text, else its
/// `description` text.
pub open spec fn object_task(v: JsonValue) -> Option<Seq<char>> {
    match json_as_str(json_get(v, "task"@)) {
        Some(t) => Some(t),
        None => json_as_str(json_get(v, "description"@)),
    }
}

/// The person of an action-item object: the first of `person`, `owner`,
/// `assignee` present, when it is text.
pub open spec fn object_person(v: JsonValue) -> Option<Seq<char>> {
    json_as_str(first_present(v, seq!["person"@, "owner"@, "assignee"@]))
}

/// One JSON value as a line of text: strings as they are, `null` as
/// nothing, objects with a task as `person: task` (or just the task), and
/// anything else as its JSON text.
pub open spec fn json_line(v: JsonValue) -> Option<Seq<char>> {
    match v {
        JsonValue::Str(t) => Some(t@),
        JsonValue::Null => None,
        JsonValue::Object(_, text) => match object_task(v) {
            Some(task) => match object_person(v) {
                Some(p) => Some(p + ": "@ + task),
                None => Some(task),
            },
            None => Some(text@),
        },
        JsonValue::Bool(b) => Some(if b { "true"@ } else { "false"@ }),
        JsonValue::Number(t) => Some(t@),
        JsonValue::Array(_, text) => Some(text@),
    }
}

/// The lines of the items that give one.
pub open spec fn item_lines(items: Seq<JsonValue>) -> Seq<Seq<char>>
    decreases items.len(),
{
    if items.len() == 0 {
        Seq::empty()
    } else {
        match json_line(items.last()) {
            Some(l) => item_lines(items.drop_last()).push(l),
            None => item_lines(items.drop_last()),
        }
    }
}

/// A section's JSON value as text: an array gives one line per item,
/// anything else one line or nothing.
pub open spec fn json_lines(v: JsonValue) -> Seq<char> {
    match v {
        JsonValue::Array(items, _) => join(item_lines(items@), "\n"@),
        _ => match json_line(v) {
            Some(l) => l,
            None => Seq::empty(),
        },
    }
}

/// The text of the first section key present in the document.
pub open spec fn json_section(v: JsonValue, keys: Seq<Seq<char>>) -> Seq<char> {
    match first_present(v, keys) {
        Some(x) => json_lines(x),
        None => Seq::empty(),
    }
}

/// The three cleaned sections of a JSON document.
pub open spec fn json_sections(v: JsonValue) -> (Seq<char>, Seq<char>, Seq<char>) {
    (
        clean_section_text(json_section(v, key_point_keys())),
        clean_section_text(json_section(v, decision_keys())),
        clean_section_text(json_section(v, action_item_keys())),
    )
}

/// All three sections are empty.
pub open spec fn all_empty(s: (Seq<char>, Seq<char>, Seq<char>)) -> bool {
    s.0.len() == 0 && s.1.len() == 0 && s.2.len() == 0
}

/// The sections of the first JSON object in an answer, when it parses and
/// at least one section has content.
pub open spec fn json_summary(response: Seq<char>) -> Option<(Seq<char>, Seq<char>, Seq<char>)> {
    match json_object_text(response) {
        Some(t) => match serde_json_document(t) {
            Some(v) => if all_empty(json_sections(v)) {
                None
            } else {
                Some(json_sections(v))
            },
            None => None,
        },
        None => None,
    }
}

/// The sections of a model answer: its JSON object if it has a usable one,
/// otherwise its plain-text sections.
pub open spec fn summary_of(response: Seq<char>) -> (Seq<char>, Seq<char>, Seq<char>) {
    let r = trim(response);
    match json_summary(r) {
        Some(s) => s,
        None => text_summary(r),
    }
}

/// The first of `keys` present in `v`.
fn find_present<'a>(v: &'a JsonValue, keys: &Vec<&'static str>) -> (r: Option<&'a JsonValue>)
    ensures
        match r {
            Some(x) => first_present(*v, static_views(keys@)) == Some(*x),
            None => first_present(*v, static_views(keys@)) is None,
        },
{
    let mut i: usize = 0;
    assert(static_views(keys@).skip(0) =~= static_views(keys@));
    while i < keys.len()
        invariant
            0 <= i <= keys.len(),
            first_present(*v, static_views(keys@)) == first_present(*v, static_views(keys@).skip(i as int)),
        decreases keys.len() - i,
    {
        assert(static_views(keys@).skip(i as int)[0] == keys@[i as int]@);
        assert(static_views(keys@).skip(i as int).drop_first() =~= static_views(keys@).skip(i + 1));
        let found = get(v, keys[i]);
        if let Some(x) = found {
            return Some(x);
        }
        i += 1;
    }
    None
}

/// The views of a sequence of string slices.
pub open spec fn static_views(v: Seq<&'static str>) -> Seq<Seq<char>> {
    Seq::new(v.len(), |i: int| v[i]@)
}

fn keys_of(a: &'static str, b: &'static str, c: &'static str) -> (v: Vec<&'static str>)
    ensures
        static_views(v@) == seq![a@, b@, c@],
{
    let mut v: Vec<&'static str> = Vec::new();
    v.push(a);
    v.push(b);
    v.push(c);
    assert(static_views(v@) =~= seq![a@, b@, c@]);
    v
}

fn keys_of5(a: &'static str, b: &'static str, c: &'static str, d: &'static str, e: &'static str) -> (v: Vec<&'static str>)
    ensures
        static_views(v@) == seq![a@, b@, c@, d@, e@],
{
    let mut v: Vec<&'static str> = Vec::new();
    v.push(a);
    v.push(b);
    v.push(c);
    v.push(d);
    v.push(e);
    assert(static_views(v@) =~= seq![a@, b@, c@, d@, e@]);
    v
}

/// One JSON value as a line of text.
pub fn json_value_to_line(value: &JsonValue) -> (r: Option<String>)
    ensures
        match r {
            Some(l) => json_line(*value) == Some(l@),
            None => json_line(*value) is None,
        },
{
    match value {
        JsonValue::Str(t) => Some(t.clone()),
        JsonValue::Null => None,
        JsonValue::Object(_, text) => {
            let task = match as_str(get(value, "task")) {
                Some(t) => Some(t),
                None => as_str(get(value, "description")),
            };
            match task {
                Some(task) => {
                    let people = keys_of("person", "owner", "assignee");
                    match as_str(find_present(value, &people)) {
                        Some(p) => {
                            let mut line = String::new();
                            push_str(&mut line, p.as_str());
                            push_str(&mut line, ": ");
                            push_str(&mut line, task.as_str());
                            Some(line)
                        },
                        None => Some(task.clone()),
                    }
                },
                None => Some(text.clone()),
            }
        },
        JsonValue::Bool(b) => {
            let mut t = String::new();
            if *b {
                push_str(&mut t, "true");
            } else {
                push_str(&mut t, "false");
            }
            Some(t)
        },
        JsonValue::Number(t) => Some(t.clone()),
        JsonValue::Array(_, text) => Some(text.clone()),
    }
}

/// A section's JSON value as text.
pub fn json_value_to_lines(value: &JsonValue) -> (r: String)
    ensures
        r@ == json_lines(*value),
{
    match value {
        JsonValue::Array(items, _) => {
            let mut ls: Vec<String> = Vec::new();
            let mut i: usize = 0;
            while i < items.len()
                invariant
                    0 <= i <= items.len(),
                    string_views(ls@) == item_lines(items@.take(i as int)),
                decreases items.len() - i,
            {
                let ghost done = items@.take(i + 1);
                assert(done.drop_last() =~= items@.take(i as int));
                assert(done.last() == items@[i as int]);
                match json_value_to_line(&items[i]) {
                    Some(l) => {
                        let ghost before = string_views(ls@);
                        let ghost lv = l@;
                        ls.push(l);
                        assert(string_views(ls@) =~= before.push(lv));
                    },
                    None => {},
                }
                i += 1;
            }
            assert(items@.take(items.len() as int) =~= items@);
            join_lines(&ls)
        },
        _ => match json_value_to_line(value) {
            Some(l) => l,
            None => String::new(),
        },
    }
}

/// The text of the first section key present in a document.
fn json_section_value(value: &JsonValue, keys: &Vec<&'static str>) -> (r: String)
    ensures
        r@ == json_section(*value, static_views(keys@)),
{
    match find_present(value, keys) {
        Some(x) => json_value_to_lines(x),
        None => String::new(),
    }
}

/// The sections of the first JSON object in an answer, when it parses and
/// at least one section has content.
pub fn parse_json_summary(response: &str) -> (r: Option<ParsedSummary>)
    ensures
        match r {
            Some(p) => json_summary(response@) == Some(summary_view(p)),
            None => json_summary(response@) is None,
        },
{
    let text = match find_json_object(response) {
        Some(t) => t,
        None => return None,
    };
    let value = match parse_json(text.as_str()) {
        Some(v) => v,
        None => return None,
    };
    summary_from_json_value(&value)
}

/// The cleaned sections of a parsed JSON document, the first present key
/// of each section taken; `None` when all three are empty.
pub fn summary_from_json_value(value: &JsonValue) -> (r: Option<ParsedSummary>)
    ensures
        match r {
            Some(p) => !all_empty(json_sections(*value)) && summary_view(p) == json_sections(*value),
            None => all_empty(json_sections(*value)),
        },
{
    let kp_keys = keys_of5("key_points", "keyPoints", "key points", "Key Points", "KEY POINTS");
    let d_keys = keys_of("decisions", "Decisions", "DECISIONS");
    let ai_keys = keys_of5("action_items", "actionItems", "action items", "Action Items", "ACTION ITEMS");
    let kp = json_section_value(value, &kp_keys);
    let d = json_section_value(value, &d_keys);
    let ai = json_section_value(value, &ai_keys);
    let summary = ParsedSummary {
        key_points: clean_section(kp.as_str()),
        decisions: clean_section(d.as_str()),
        action_items: clean_section(ai.as_str()),
    };
    if summary.key_points.as_str().is_empty() && summary.decisions.as_str().is_empty()
        && summary.action_items.as_str().is_empty() {
        None
    } else {
        Some(summary)
    }
}

/// Parse the model's answer into structured sections: a JSON object if the
/// answer holds a usable one, otherwise `KEY POINTS:` / `DECISIONS:` /
/// `ACTION ITEMS:` headers.
pub fn parse_summary_response(response: &str) -> (r: ParsedSummary)
    ensures
        summary_view(r) == summary_of(response@),
{
    let v = chars_of(response);
    let t = trimmed(&v);
    let s = string_of(&t);
    match parse_json_summary(s.as_str()) {
        Some(p) => p,
        None => parse_text_summary(s.as_str()),
    }
}

// ---------------------------------------------------------------------------
// Deciding on the model's answer
// ---------------------------------------------------------------------------

/// The error for a transcript with no text.
pub const EMPTY_TRANSCRIPT_ERROR: &'static str = "Transcript is empty - no speech detected in the recording";

/// The error for a blank answer from Ollama.
pub const EMPTY_RESPONSE_ERROR: &'static str = "Ollama returned empty response - the model may not be loaded or the transcript was too short";

/// The start of the error for an answer without any section.
pub const UNPARSED_RESPONSE_ERROR: &'static str = "Failed to parse summary sections from model response. The model may not be following the expected format. Response preview: ";

/// A transcript can be summarized only when it has some non-whitespace
/// text.
pub fn check_transcript(transcript: &str) -> (r: Result<(), String>)
    ensures
        match r {
            Ok(()) => trim(transcript@).len() > 0,
            Err(e) => trim(transcript@).len() == 0 && e@ == EMPTY_TRANSCRIPT_ERROR@,
        },
{
    let v = chars_of(transcript);
    let t = trimmed(&v);
    if t.len() == 0 {
        let mut e = String::new();
        push_str(&mut e, EMPTY_TRANSCRIPT_ERROR);
        Err(e)
    } else {
        Ok(())
    }
}

/// At most the first `n` characters.
pub open spec fn preview(s: Seq<char>, n: nat) -> Seq<char> {
    if s.len() <= n {
        s
    } else {
        s.take(n as int)
    }
}

/// What an Ollama answer yields: an error when it is blank or has no
/// section, otherwise its sections.
pub open spec fn ollama_outcome(response: Seq<char>) -> Result<(Seq<char>, Seq<char>, Seq<char>), Seq<char>> {
    if trim(response).len() == 0 {
        Err(EMPTY_RESPONSE_ERROR@)
    } else if all_empty(summary_of(response)) {
        Err(UNPARSED_RESPONSE_ERROR@ + preview(response, 200))
    } else {
        Ok(summary_of(response))
    }
}

/// Decide on the text of an Ollama answer: a blank answer or one without
/// any section is an error (quoting the first 200 characters of the
/// answer), anything else gives its sections.
pub fn summary_from_ollama_response(response: &str) -> (r: Result<ParsedSummary, String>)
    ensures
        match r {
            Ok(p) => ollama_outcome(response@) == Ok::<_, Seq<char>>(summary_view(p)),
            Err(e) => ollama_outcome(response@) == Err::<(Seq<char>, Seq<char>, Seq<char>), _>(e@),
        },
{
    let v = chars_of(response);
    let t = trimmed(&v);
    if t.len() == 0 {
        let mut e = String::new();
        push_str(&mut e, EMPTY_RESPONSE_ERROR);
        return Err(e);
    }
    let summary = parse_summary_response(response);
    if summary.key_points.as_str().is_empty() && summary.decisions.as_str().is_empty()
        && summary.action_items.as_str().is_empty() {
        let mut e = String::new();
        push_str(&mut e, UNPARSED_RESPONSE_ERROR);
        let n = if v.len() <= 200 { v.len() } else { 200 };
        push_range(&mut e, &v, 0, n);
        assert(v@.subrange(0, n as int) =~= preview(response@, 200));
        return Err(e);
    }
    Ok(summary)
}

/// The content an API answer is read from: that of its first choice,
/// empty when it has none.
pub open spec fn first_choice(choices: Seq<Seq<char>>) -> Seq<char> {
    if choices.len() > 0 {
        choices[0]
    } else {
        Seq::empty()
    }
}

/// The sections of an API answer, given the message contents of its
/// choices in order: the first choice is parsed, an answer without choices
/// parses as empty text.
pub fn summary_from_api_choices(choices: &Vec<String>) -> (r: ParsedSummary)
    ensures
        summary_view(r) == summary_of(first_choice(string_views(choices@))),
{
    if choices.len() > 0 {
        assert(string_views(choices@)[0] == choices@[0]@);
        parse_summary_response(choices[0].as_str())
    } else {
        let empty = String::new();
        parse_summary_response(empty.as_str())
    }
}

/// The chat-completions URL of an OpenAI-compatible endpoint, whether the
/// endpoint is a base URL (with or without `/v1` or a trailing `/`) or
/// already complete.
pub open spec fn chat_completions_url_text(endpoint: Seq<char>) -> Seq<char> {
    if crate::text::has_suffix(endpoint, "/chat/completions"@) {
        endpoint
    } else if crate::text::has_suffix(endpoint, "/v1"@) {
        endpoint + "/chat/completions"@
    } else if crate::text::has_suffix(endpoint, "/"@) {
        endpoint + "chat/completions"@
    } else {
        endpoint + "/chat/completions"@
    }
}

/// Construct the full API URL from the configured endpoint.
pub fn chat_completions_url(endpoint: &str) -> (url: String)
    ensures
        url@ == chat_completions_url_text(endpoint@),
{
    let v = chars_of(endpoint);
    let mut url = String::new();
    push_str(&mut url, endpoint);
    if crate::text::ends_with(&v, &chars_of("/chat/completions")) {
    } else if crate::text::ends_with(&v, &chars_of("/v1")) {
        push_str(&mut url, "/chat/completions");
    } else if crate::text::ends_with(&v, &chars_of("/")) {
        push_str(&mut url, "chat/completions");
    } else {
        push_str(&mut url, "/chat/completions");
    }
    url
}

} // verus!
