# echo_note

The verified core of EchoNote, a desktop meeting-notes application that
records a meeting (microphone, plus system audio through the BlackHole
driver), transcribes it with Whisper, labels speakers, summarizes the
transcript with a local or hosted language model, and exports the notes.

`src/` is the library, written in Verus: every function carries a contract
and is proved against it.

- `audio` — the bounded sample buffer, recording file names, device
  identifiers and counting, choosing an input device, device listings and
  diagnostics, and what stopping a recording yields.
- `system_audio` — reading `system_profiler` output (JSON and text) and
  detecting BlackHole.
- `whisper` — the bounded model cache, the model table, assembling and
  formatting transcripts, applying diarization labels.
- `diarization` — cluster merging, speaker numbering by first appearance,
  speaker labels.
- `llm` — summary prompts, transcript cleaning, and parsing model answers
  (JSON or section headers).
- `export` — Markdown and plain-text exports and their file names.
- `cleanup` — which recordings a retention policy removes, storage usage.
- `keychain` — secret settings and the stores that hold them.
- `db`, `commands` — stored records, default settings, and what each command
  answers.
- `text`, `assoc`, `json` — strings as character sequences, string-keyed
  entry lists, and parsed JSON documents.

`app/` is the application around it: SQLite, audio devices, model inference,
HTTP, the file system and the command handlers. `tests/` exercises the
library's public functions.
