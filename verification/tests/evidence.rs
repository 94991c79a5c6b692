use transcrip_it::database::evidence::{
    next_revision_number, AuthorKind, DerivativeKind, EvidenceError, SegmentDerivativeInput,
};
use transcrip_it::database::Database;

fn database_with_segment() -> Database {
    let database = Database::open_in_memory().unwrap();
    let connection = database.connection().unwrap();
    connection
        .execute("INSERT INTO meetings (id, title) VALUES ('meeting-1', 'Weekly sync')", [])
        .unwrap();
    connection
        .execute(
            "INSERT INTO transcript_segments
                (id, meeting_id, sequence_number, start_ms, end_ms, source_text)
             VALUES ('segment-1', 'meeting-1', 0, 0, 1000, 'Original words')",
            [],
        )
        .unwrap();
    drop(connection);
    database
}

fn correction(id: &str, key: &str, text: &str) -> SegmentDerivativeInput {
    SegmentDerivativeInput {
        id: id.to_owned(),
        idempotency_key: key.to_owned(),
        segment_id: "segment-1".to_owned(),
        kind: DerivativeKind::Correction,
        author: AuthorKind::User,
        text: text.to_owned(),
        language_code: Some("en".to_owned()),
        model_id: None,
    }
}

#[test]
fn source_evidence_cannot_be_overwritten() {
    let database = database_with_segment();
    let error = database
        .connection()
        .unwrap()
        .execute("UPDATE transcript_segments SET source_text = 'Changed' WHERE id = 'segment-1'", [])
        .unwrap_err();
    assert!(error.to_string().contains("source transcript evidence is immutable"));
}

#[test]
fn corrections_are_revisioned_without_changing_source_text() {
    let database = database_with_segment();
    let first = database
        .append_segment_derivative(&correction("edit-1", "edit-key-1", "Correct words"))
        .unwrap();
    let second = database
        .append_segment_derivative(&correction("edit-2", "edit-key-2", "Final words"))
        .unwrap();
    let current = database.segment_text("segment-1").unwrap();

    assert_eq!(first.revision_number, 1);
    assert_eq!(second.revision_number, 2);
    assert_eq!(second.supersedes_id.as_deref(), Some("edit-1"));
    assert_eq!(current.source_text, "Original words");
    assert_eq!(current.display_text, "Final words");
    assert_eq!(current.active_correction_id.as_deref(), Some("edit-2"));
}

#[test]
fn derivative_writes_are_idempotent() {
    let database = database_with_segment();
    let input = correction("edit-1", "edit-key-1", "Correct words");

    let first = database.append_segment_derivative(&input).unwrap();
    let replay = database.append_segment_derivative(&input).unwrap();

    assert!(!first.replayed);
    assert!(replay.replayed);
    let count: i64 = database
        .connection()
        .unwrap()
        .query_row("SELECT COUNT(*) FROM transcript_derivatives", [], |row| row.get(0))
        .unwrap();
    assert_eq!(count, 1);
}

#[test]
fn derivative_requests_are_checked() {
    let database = database_with_segment();
    assert!(matches!(
        database.append_segment_derivative(&correction("e", "k", "  ")),
        Err(EvidenceError::EmptyText)
    ));
    let mut missing = correction("e", "k", "words");
    missing.segment_id = "nope".to_owned();
    assert!(matches!(
        database.append_segment_derivative(&missing),
        Err(EvidenceError::SegmentNotFound(ref id)) if id == "nope"
    ));
    database.append_segment_derivative(&correction("e", "k", "words")).unwrap();
    assert!(matches!(
        database.append_segment_derivative(&correction("e", "k", "other words")),
        Err(EvidenceError::IdempotencyConflict(_))
    ));
    assert_eq!(DerivativeKind::parse("translation").unwrap(), DerivativeKind::Translation);
    assert!(matches!(AuthorKind::parse("robot"), Err(EvidenceError::InvalidStoredValue(_))));
}

#[test]
fn evidence_names_parse_through_from_str() {
    assert_eq!("model".parse::<AuthorKind>().unwrap(), AuthorKind::Model);
    assert!(matches!("robot".parse::<AuthorKind>(), Err(EvidenceError::InvalidStoredValue(value)) if value == "robot"));
    assert!(matches!("summary-ish".parse::<DerivativeKind>(), Err(EvidenceError::InvalidStoredValue(_))));
}

#[test]
fn a_correction_marks_only_that_meetings_notes_stale() {
    let database = database_with_segment();
    database
        .connection()
        .unwrap()
        .execute("INSERT INTO meetings (id, title) VALUES ('meeting-2', 'Other')", [])
        .unwrap();
    database.store_meeting_notes("meeting-1", "{}", true, false).unwrap();
    database.store_meeting_notes("meeting-2", "{}", true, false).unwrap();

    database.append_segment_derivative(&correction("edit-1", "edit-key-1", "Correct words")).unwrap();

    let first = database.load_meeting_notes("meeting-1").unwrap().unwrap();
    assert!(first.stale && !first.approved);
    assert_eq!(first.payload_json, "{}");
    let other = database.load_meeting_notes("meeting-2").unwrap().unwrap();
    assert!(!other.stale && other.approved);
}

#[test]
fn a_translation_leaves_the_notes_as_they_are() {
    let database = database_with_segment();
    database.store_meeting_notes("meeting-1", "{}", true, false).unwrap();
    let mut translation = correction("tr-1", "tr-key-1", "Palabras");
    translation.kind = DerivativeKind::Translation;
    database.append_segment_derivative(&translation).unwrap();
    let notes = database.load_meeting_notes("meeting-1").unwrap().unwrap();
    assert!(!notes.stale && notes.approved);
}

#[test]
fn revisions_number_from_the_newest_of_their_kind() {
    assert_eq!(next_revision_number(0, "segment-1").unwrap(), 1);
    assert_eq!(next_revision_number(4, "segment-1").unwrap(), 5);
    assert!(matches!(
        next_revision_number(i64::MAX, "segment-1"),
        Err(EvidenceError::InvalidStoredValue(id)) if id == "segment-1"
    ));
}
