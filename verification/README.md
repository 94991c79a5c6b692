# Transcrip It — verified backend

The backend of a local-first desktop meeting recorder: a meeting library in SQLite, consent-gated
recording of microphone and system audio, local transcription, full-text search, and extractive
notes whose every item cites the transcript.

`src/` is the library, verified with Verus:

- `database/` — the store: schema and migrations (`mod.rs`, `schema.rs`), the meeting lifecycle and
  job state machines with idempotent, audited transitions (`workflow.rs`), the meeting library
  (`meetings.rs`), revisioned corrections beside immutable source text (`evidence.rs`), source
  transcripts and search (`transcripts.rs`), and stored notes (`notes.rs`).
- `summary.rs` — the extractive notes draft, its validation against the transcript, its review
  rules and its Markdown and text exports.
- `transcription.rs` — model packs, grouping recognised segments into passages, chunk discovery,
  time ordering, live previews, transcript exports, and the transitions of a transcription run.
- `recording.rs` — what may be recorded and how, source discovery, storage preflight, the recording
  session's transitions, and playback.
- `engines.rs` — engine descriptors, typed engine errors and shared cancellation.
- `text.rs` — the string functions the rest is written with, each specified over character sequences.
- `sql.rs`, `json.rs` — the calls into SQLite and JSON. The SQL wrappers state nothing of what the
  store does (their results are left to SQLite); what the library fixes is the parameters it hands
  them, built by verified functions with exact contracts (`params_view`), and the decisions it makes
  on what comes back. The JSON wrappers state only that a value equals itself.

`app/` is the unverified shell around it: the commands the interface calls, the capture, playback,
FFmpeg and whisper.cpp processes, files on disk, and the serialized forms of the library's values.

`tests/` runs the library on concrete inputs, against an in-memory store where it needs one.
