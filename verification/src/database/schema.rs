//! The SQL of each schema migration.
use vstd::prelude::*;

verus! {

/// Meetings, source transcript segments, jobs, actions and settings.
pub const MIGRATION_INITIAL: &'static str = "
CREATE TABLE meetings (
    id TEXT PRIMARY KEY NOT NULL,
    title TEXT NOT NULL CHECK (length(trim(title)) > 0),
    lifecycle_state TEXT NOT NULL DEFAULT 'draft' CHECK (
        lifecycle_state IN ('draft', 'recording', 'paused', 'processing', 'ready', 'failed', 'archived')
    ),
    source_kind TEXT NOT NULL DEFAULT 'recording',
    duration_ms INTEGER CHECK (duration_ms IS NULL OR duration_ms >= 0),
    recording_path TEXT,
    started_at TEXT,
    ended_at TEXT,
    created_at TEXT NOT NULL DEFAULT (strftime('%Y-%m-%dT%H:%M:%fZ', 'now')),
    updated_at TEXT NOT NULL DEFAULT (strftime('%Y-%m-%dT%H:%M:%fZ', 'now'))
);

CREATE TABLE transcript_segments (
    id TEXT PRIMARY KEY NOT NULL,
    meeting_id TEXT NOT NULL REFERENCES meetings(id) ON DELETE CASCADE,
    sequence_number INTEGER NOT NULL CHECK (sequence_number >= 0),
    start_ms INTEGER NOT NULL CHECK (start_ms >= 0),
    end_ms INTEGER NOT NULL CHECK (end_ms >= start_ms),
    speaker_label TEXT,
    language_code TEXT,
    source_text TEXT NOT NULL,
    created_at TEXT NOT NULL DEFAULT (strftime('%Y-%m-%dT%H:%M:%fZ', 'now')),
    UNIQUE (meeting_id, sequence_number)
);

CREATE TRIGGER transcript_segments_are_immutable
BEFORE UPDATE OF meeting_id, sequence_number, start_ms, end_ms, source_text, created_at
ON transcript_segments
BEGIN
    SELECT RAISE(ABORT, 'source transcript evidence is immutable');
END;

CREATE TABLE jobs (
    id TEXT PRIMARY KEY NOT NULL,
    meeting_id TEXT REFERENCES meetings(id) ON DELETE CASCADE,
    job_kind TEXT NOT NULL,
    state TEXT NOT NULL DEFAULT 'queued' CHECK (
        state IN ('queued', 'running', 'succeeded', 'failed', 'cancelled')
    ),
    progress REAL NOT NULL DEFAULT 0.0 CHECK (progress >= 0.0 AND progress <= 1.0),
    attempt_count INTEGER NOT NULL DEFAULT 0 CHECK (attempt_count >= 0),
    checkpoint_json TEXT,
    error_code TEXT,
    error_message TEXT,
    started_at TEXT,
    finished_at TEXT,
    created_at TEXT NOT NULL DEFAULT (strftime('%Y-%m-%dT%H:%M:%fZ', 'now')),
    updated_at TEXT NOT NULL DEFAULT (strftime('%Y-%m-%dT%H:%M:%fZ', 'now'))
);

CREATE TABLE actions (
    id TEXT PRIMARY KEY NOT NULL,
    meeting_id TEXT NOT NULL REFERENCES meetings(id) ON DELETE CASCADE,
    source_segment_id TEXT REFERENCES transcript_segments(id) ON DELETE SET NULL,
    action_text TEXT NOT NULL,
    owner TEXT,
    due_date TEXT,
    completed INTEGER NOT NULL DEFAULT 0,
    created_at TEXT NOT NULL DEFAULT (strftime('%Y-%m-%dT%H:%M:%fZ', 'now')),
    updated_at TEXT NOT NULL DEFAULT (strftime('%Y-%m-%dT%H:%M:%fZ', 'now'))
);

CREATE TABLE settings (
    key TEXT PRIMARY KEY NOT NULL,
    value_json TEXT NOT NULL CHECK (json_valid(value_json)),
    updated_at TEXT NOT NULL DEFAULT (strftime('%Y-%m-%dT%H:%M:%fZ', 'now'))
);
";

/// Audited lifecycle transitions, library tags, revisioned transcript derivatives,
/// transcript search, stored notes, and leased, idempotent jobs.
pub const MIGRATION_WORKFLOW_STATE: &'static str = "
ALTER TABLE meetings ADD COLUMN state_revision INTEGER NOT NULL DEFAULT 0;
ALTER TABLE meetings ADD COLUMN creation_key TEXT;
ALTER TABLE meetings ADD COLUMN pre_archive_state TEXT;
ALTER TABLE meetings ADD COLUMN archived_at TEXT;
CREATE UNIQUE INDEX meetings_by_creation_key ON meetings(creation_key) WHERE creation_key IS NOT NULL;

CREATE TABLE meeting_transitions (
    idempotency_key TEXT PRIMARY KEY NOT NULL,
    meeting_id TEXT NOT NULL REFERENCES meetings(id) ON DELETE CASCADE,
    from_state TEXT NOT NULL,
    to_state TEXT NOT NULL,
    resulting_revision INTEGER NOT NULL,
    created_at TEXT NOT NULL DEFAULT (strftime('%Y-%m-%dT%H:%M:%fZ', 'now'))
);

CREATE TABLE meeting_tags (
    meeting_id TEXT NOT NULL REFERENCES meetings(id) ON DELETE CASCADE,
    tag TEXT NOT NULL COLLATE NOCASE,
    PRIMARY KEY (meeting_id, tag)
);

ALTER TABLE transcript_segments ADD COLUMN source_track TEXT;

CREATE TABLE transcript_derivatives (
    id TEXT PRIMARY KEY NOT NULL,
    idempotency_key TEXT NOT NULL UNIQUE,
    segment_id TEXT NOT NULL REFERENCES transcript_segments(id) ON DELETE CASCADE,
    derivative_kind TEXT NOT NULL CHECK (derivative_kind IN ('correction', 'translation', 'romanization')),
    author_kind TEXT NOT NULL CHECK (author_kind IN ('user', 'model')),
    revision_number INTEGER NOT NULL CHECK (revision_number > 0),
    derived_text TEXT NOT NULL CHECK (length(trim(derived_text)) > 0),
    language_code TEXT,
    model_id TEXT,
    supersedes_id TEXT REFERENCES transcript_derivatives(id),
    created_at TEXT NOT NULL DEFAULT (strftime('%Y-%m-%dT%H:%M:%fZ', 'now')),
    UNIQUE (segment_id, derivative_kind, revision_number)
);

CREATE VIEW transcript_current_text AS
SELECT
    s.id AS segment_id,
    s.source_text AS source_text,
    COALESCE(
        (SELECT d.derived_text FROM transcript_derivatives d
         WHERE d.segment_id = s.id AND d.derivative_kind = 'correction'
         ORDER BY d.revision_number DESC LIMIT 1),
        s.source_text
    ) AS display_text,
    (SELECT d.id FROM transcript_derivatives d
     WHERE d.segment_id = s.id AND d.derivative_kind = 'correction'
     ORDER BY d.revision_number DESC LIMIT 1) AS active_correction_id
FROM transcript_segments s;

CREATE TABLE meeting_notes (
    meeting_id TEXT PRIMARY KEY NOT NULL REFERENCES meetings(id) ON DELETE CASCADE,
    payload_json TEXT NOT NULL,
    approved INTEGER NOT NULL DEFAULT 0,
    stale INTEGER NOT NULL DEFAULT 0,
    updated_at TEXT NOT NULL DEFAULT (strftime('%Y-%m-%dT%H:%M:%fZ', 'now'))
);

CREATE VIRTUAL TABLE transcript_search USING fts5(meeting_id UNINDEXED, segment_id UNINDEXED, text);

INSERT INTO transcript_search (meeting_id, segment_id, text)
SELECT meeting_id, id, source_text FROM transcript_segments;

CREATE TRIGGER transcript_segments_indexed AFTER INSERT ON transcript_segments
BEGIN
    INSERT INTO transcript_search (meeting_id, segment_id, text)
    VALUES (new.meeting_id, new.id, new.source_text);
END;

CREATE TRIGGER transcript_segments_unindexed AFTER DELETE ON transcript_segments
BEGIN
    DELETE FROM transcript_search WHERE segment_id = old.id;
END;

CREATE TRIGGER transcript_corrections_indexed AFTER INSERT ON transcript_derivatives
WHEN new.derivative_kind = 'correction'
BEGIN
    UPDATE transcript_search SET text = new.derived_text WHERE segment_id = new.segment_id;
END;

ALTER TABLE jobs ADD COLUMN idempotency_key TEXT;
UPDATE jobs SET idempotency_key = id WHERE idempotency_key IS NULL;
CREATE UNIQUE INDEX jobs_by_idempotency_key ON jobs(idempotency_key);
ALTER TABLE jobs ADD COLUMN payload_json TEXT NOT NULL DEFAULT '{}';
ALTER TABLE jobs ADD COLUMN run_token TEXT;
ALTER TABLE jobs ADD COLUMN lease_expires_at INTEGER;
ALTER TABLE jobs ADD COLUMN available_at INTEGER NOT NULL DEFAULT 0;
UPDATE jobs SET state = 'queued', run_token = NULL, lease_expires_at = NULL WHERE state = 'running';
";

} // verus!
