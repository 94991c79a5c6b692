use transcrip_it::database::meetings::{normalize_tags, CreateMeetingInput, MeetingError};
use transcrip_it::database::workflow::{MeetingState, MeetingTransitionRequest};
use transcrip_it::database::Database;

fn input() -> CreateMeetingInput {
    CreateMeetingInput {
        id: "meeting-1".to_owned(),
        idempotency_key: "create-meeting-1".to_owned(),
        title: " Weekly sync ".to_owned(),
    }
}

#[test]
fn creates_and_replays_a_meeting() {
    let database = Database::open_in_memory().unwrap();
    let first = database.create_meeting(&input()).unwrap();
    let replay = database.create_meeting(&input()).unwrap();
    assert_eq!(first.title, "Weekly sync");
    assert_eq!(replay.id, first.id);
    assert_eq!(database.list_meetings(false).unwrap().len(), 1);
}

#[test]
fn renames_and_normalizes_tags() {
    let database = Database::open_in_memory().unwrap();
    database.create_meeting(&input()).unwrap();
    database.rename_meeting("meeting-1", "Planning").unwrap();
    let tags = database
        .replace_meeting_tags(
            "meeting-1",
            &[" Work ".to_owned(), "weekly".to_owned(), "work".to_owned(), "".to_owned()],
        )
        .unwrap();
    let meeting = database.list_meetings(false).unwrap().remove(0);
    assert_eq!(meeting.title, "Planning");
    assert_eq!(tags, vec!["weekly", "Work"]);
    assert_eq!(meeting.tags, tags);
}

#[test]
fn archives_reopens_and_deletes_idempotently() {
    let database = Database::open_in_memory().unwrap();
    database.create_meeting(&input()).unwrap();
    database.archive_meeting("meeting-1", "archive-1").unwrap();
    database.archive_meeting("meeting-1", "archive-1").unwrap();
    assert!(database.list_meetings(false).unwrap().is_empty());
    assert_eq!(database.list_meetings(true).unwrap()[0].state, MeetingState::Archived);

    database.reopen_meeting("meeting-1", "reopen-1").unwrap();
    assert_eq!(database.list_meetings(false).unwrap()[0].state, MeetingState::Draft);
    assert!(database.delete_meeting("meeting-1").unwrap());
    assert!(!database.delete_meeting("meeting-1").unwrap());
}

#[test]
fn active_recordings_cannot_be_archived() {
    let database = Database::open_in_memory().unwrap();
    database.create_meeting(&input()).unwrap();
    database
        .transition_meeting(&MeetingTransitionRequest {
            meeting_id: "meeting-1".to_owned(),
            idempotency_key: "start-1".to_owned(),
            expected_state: MeetingState::Draft,
            next_state: MeetingState::Recording,
        })
        .unwrap();
    let error = database.archive_meeting("meeting-1", "archive-1").unwrap_err();
    assert!(matches!(error, MeetingError::CannotArchive(MeetingState::Recording)));
}

#[test]
fn blank_titles_and_reused_keys_are_refused() {
    let database = Database::open_in_memory().unwrap();
    let blank = CreateMeetingInput { title: "  \t".to_owned(), ..input() };
    assert!(matches!(database.create_meeting(&blank), Err(MeetingError::EmptyTitle)));
    database.create_meeting(&input()).unwrap();
    let other = CreateMeetingInput { title: "Another".to_owned(), ..input() };
    assert!(matches!(database.create_meeting(&other), Err(MeetingError::IdempotencyConflict(_))));
    assert!(matches!(database.rename_meeting("missing", "x"), Err(MeetingError::NotFound(_))));
    assert!(matches!(database.reopen_meeting("meeting-1", "reopen-1"), Err(MeetingError::NotArchived)));
    database.archive_meeting("meeting-1", "archive-1").unwrap();
    assert!(matches!(
        database.reopen_meeting("meeting-1", "archive-1"),
        Err(MeetingError::IdempotencyConflict(_))
    ));
}

#[test]
fn reopening_restores_the_archived_state() {
    let database = Database::open_in_memory().unwrap();
    database.create_meeting(&input()).unwrap();
    for (key, from, to) in [
        ("s", MeetingState::Draft, MeetingState::Recording),
        ("p", MeetingState::Recording, MeetingState::Processing),
        ("r", MeetingState::Processing, MeetingState::Ready),
    ] {
        database
            .transition_meeting(&MeetingTransitionRequest {
                meeting_id: "meeting-1".to_owned(),
                idempotency_key: key.to_owned(),
                expected_state: from,
                next_state: to,
            })
            .unwrap();
    }
    database.archive_meeting("meeting-1", "a").unwrap();
    database.reopen_meeting("meeting-1", "o").unwrap();
    assert_eq!(database.meeting_state("meeting-1").unwrap(), MeetingState::Ready);
}

#[test]
fn recording_metadata_is_recorded() {
    let database = Database::open_in_memory().unwrap();
    database.create_meeting(&input()).unwrap();
    database.mark_recording_started("meeting-1", "/data/recordings/meeting-1").unwrap();
    assert_eq!(
        database.recordings_missing_duration().unwrap(),
        vec![("meeting-1".to_owned(), "/data/recordings/meeting-1".to_owned())]
    );
    database.mark_recording_finished("meeting-1", 5_178_125, "/data/recordings/meeting-1").unwrap();
    let meeting = database.list_meetings(false).unwrap().remove(0);
    assert_eq!(meeting.duration_ms, Some(5_178_125));
    assert!(database.recordings_missing_duration().unwrap().is_empty());
    assert_eq!(
        database.meeting_recording_path("meeting-1").unwrap().as_deref(),
        Some("/data/recordings/meeting-1")
    );
    assert_eq!(database.meeting_title("meeting-1").unwrap(), "Weekly sync");
}

#[test]
fn tags_are_trimmed_deduplicated_by_case_and_sorted() {
    let tags = normalize_tags(&["b".to_owned(), " A ".to_owned(), "a".to_owned(), "B".to_owned(), " ".to_owned()]);
    assert_eq!(tags, vec!["A", "b"]);
}

#[test]
fn normalizing_tags_twice_changes_nothing() {
    let tags = vec![" Beta ".to_owned(), "alpha".to_owned(), "BETA".to_owned(), "  ".to_owned(), "Gamma".to_owned()];
    let once = normalize_tags(&tags);
    assert_eq!(once, vec!["alpha", "Beta", "Gamma"]);
    assert_eq!(normalize_tags(&once), once);
}
