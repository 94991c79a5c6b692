use transcrip_it::database::schema::MIGRATION_INITIAL;
use transcrip_it::database::{
    apply_migrations, configure_connection, current_schema_version, pending_migrations, Database,
    DatabaseError,
};

#[test]
fn applies_the_initial_schema() {
    let database = Database::open_in_memory().expect("database should initialize");
    let connection = database.connection().expect("connection should lock");
    let tables = ["actions", "jobs", "meetings", "schema_migrations", "settings", "transcript_segments"];

    for table in tables {
        let exists: bool = connection
            .query_row(
                "SELECT EXISTS(SELECT 1 FROM sqlite_schema WHERE type = 'table' AND name = ?1)",
                [table],
                |row| row.get(0),
            )
            .expect("schema query should succeed");
        assert!(exists, "expected table {table}");
    }

    assert_eq!(current_schema_version(&connection).unwrap(), 2);
}

#[test]
fn applying_migrations_is_idempotent() {
    let mut connection = rusqlite::Connection::open_in_memory().unwrap();
    configure_connection(&connection).unwrap();

    apply_migrations(&mut connection).unwrap();
    apply_migrations(&mut connection).unwrap();

    let migration_count: i64 = connection
        .query_row("SELECT COUNT(*) FROM schema_migrations", [], |row| row.get(0))
        .unwrap();
    assert_eq!(migration_count, 2);
}

#[test]
fn upgrades_an_interrupted_version_one_job_safely() {
    let mut connection = rusqlite::Connection::open_in_memory().unwrap();
    configure_connection(&connection).unwrap();
    connection
        .execute_batch(
            "CREATE TABLE schema_migrations (
                version INTEGER PRIMARY KEY CHECK (version > 0),
                name TEXT NOT NULL UNIQUE,
                applied_at TEXT NOT NULL DEFAULT (strftime('%Y-%m-%dT%H:%M:%fZ', 'now'))
            );",
        )
        .unwrap();
    connection.execute_batch(MIGRATION_INITIAL).unwrap();
    connection
        .execute("INSERT INTO schema_migrations (version, name) VALUES (1, 'initial')", [])
        .unwrap();
    connection
        .execute("INSERT INTO meetings (id, title) VALUES ('meeting-1', 'Interrupted meeting')", [])
        .unwrap();
    connection
        .execute(
            "INSERT INTO jobs (id, meeting_id, job_kind, state)
             VALUES ('job-1', 'meeting-1', 'transcription', 'running')",
            [],
        )
        .unwrap();

    apply_migrations(&mut connection).unwrap();

    let upgraded: (String, String, Option<String>) = connection
        .query_row(
            "SELECT idempotency_key, state, run_token FROM jobs WHERE id = 'job-1'",
            [],
            |row| Ok((row.get(0)?, row.get(1)?, row.get(2)?)),
        )
        .unwrap();
    assert_eq!(upgraded, ("job-1".to_owned(), "queued".to_owned(), None));
    assert_eq!(current_schema_version(&connection).unwrap(), 2);
}

#[test]
fn deleting_a_meeting_removes_its_owned_records() {
    let database = Database::open_in_memory().unwrap();
    let connection = database.connection().unwrap();

    connection
        .execute("INSERT INTO meetings (id, title) VALUES ('meeting-1', 'Weekly sync')", [])
        .unwrap();
    connection
        .execute(
            "INSERT INTO transcript_segments
                (id, meeting_id, sequence_number, start_ms, end_ms, source_text)
             VALUES ('segment-1', 'meeting-1', 0, 0, 1000, 'Hello')",
            [],
        )
        .unwrap();
    connection
        .execute(
            "INSERT INTO jobs (id, idempotency_key, meeting_id, job_kind)
             VALUES ('job-1', 'job-1', 'meeting-1', 'transcription')",
            [],
        )
        .unwrap();
    connection
        .execute(
            "INSERT INTO actions (id, meeting_id, source_segment_id, action_text)
             VALUES ('action-1', 'meeting-1', 'segment-1', 'Send notes')",
            [],
        )
        .unwrap();

    connection.execute("DELETE FROM meetings WHERE id = 'meeting-1'", []).unwrap();

    for table in ["transcript_segments", "jobs", "actions"] {
        let count: i64 = connection
            .query_row(&format!("SELECT COUNT(*) FROM {table}"), [], |row| row.get(0))
            .unwrap();
        assert_eq!(count, 0, "expected {table} rows to cascade");
    }
}

#[test]
fn newer_schemas_are_refused() {
    assert_eq!(pending_migrations(0).unwrap(), vec![0, 1]);
    assert_eq!(pending_migrations(1).unwrap(), vec![1]);
    assert!(pending_migrations(2).unwrap().is_empty());
    match pending_migrations(3) {
        Err(DatabaseError::UnsupportedSchemaVersion { found, supported }) => {
            assert_eq!((found, supported), (3, 2));
        }
        _ => panic!("a newer schema must be refused"),
    }
    let mut connection = rusqlite::Connection::open_in_memory().unwrap();
    apply_migrations(&mut connection).unwrap();
    connection
        .execute("INSERT INTO schema_migrations (version, name) VALUES (7, 'future')", [])
        .unwrap();
    let error = apply_migrations(&mut connection).unwrap_err();
    assert_eq!(error.message(), "database schema version 7 is newer than supported version 2");
}

#[test]
fn status_reports_the_schema_version() {
    let database = Database::open_in_memory().unwrap();
    let status = database.status().unwrap();
    assert!(status.ready);
    assert_eq!(status.schema_version, 2);
}

#[test]
fn meeting_notes_round_trip_and_follow_meeting_deletion() {
    let database = Database::open_in_memory().unwrap();
    {
        let connection = database.connection().unwrap();
        connection
            .execute("INSERT INTO meetings (id, title) VALUES ('meeting-1', 'Review')", [])
            .unwrap();
    }

    database
        .store_meeting_notes("meeting-1", r#"{"meetingId":"meeting-1"}"#, true, false)
        .unwrap();
    let stored = database.load_meeting_notes("meeting-1").unwrap().unwrap();
    assert_eq!(stored.payload_json, r#"{"meetingId":"meeting-1"}"#);
    assert!(stored.approved);

    database
        .connection()
        .unwrap()
        .execute("DELETE FROM meetings WHERE id = 'meeting-1'", [])
        .unwrap();
    assert!(database.load_meeting_notes("meeting-1").unwrap().is_none());
}
