use transcrip_it::database::evidence::{AuthorKind, DerivativeKind, SegmentDerivativeInput};
use transcrip_it::database::meetings::CreateMeetingInput;
use transcrip_it::database::transcripts::{search_terms, TranscriptError, TranscriptSegmentInput};
use transcrip_it::database::Database;

#[test]
fn source_transcript_is_stored_once_with_timestamps() {
    let database = Database::open_in_memory().unwrap();
    database
        .create_meeting(&CreateMeetingInput {
            id: "m1".to_owned(),
            idempotency_key: "create-m1".to_owned(),
            title: "Test".to_owned(),
        })
        .unwrap();
    let input = [TranscriptSegmentInput {
        start_ms: 100,
        end_ms: 900,
        speaker_label: Some("Microphone".to_owned()),
        source_track: Some("mic".to_owned()),
        text: " Hello ".to_owned(),
    }];
    let first = database.store_source_transcript("m1", &input).unwrap();
    let replay = database.store_source_transcript("m1", &input).unwrap();
    assert_eq!(first.len(), 1);
    assert_eq!(first[0].source_text, "Hello");
    assert_eq!(first[0].speaker_label.as_deref(), Some("Microphone"));
    assert_eq!(database.rename_speaker_label("m1", "Microphone", "Jihad").unwrap(), 1);
    assert_eq!(database.list_transcript("m1").unwrap()[0].speaker_label.as_deref(), Some("Jihad"));
    assert_eq!(replay.len(), 1);
    let results = database.search_transcripts("hello").unwrap();
    assert_eq!(results.len(), 1);
    assert_eq!(results[0].meeting_id, "m1");
    database
        .append_segment_derivative(&SegmentDerivativeInput {
            id: "correction-1".to_owned(),
            idempotency_key: "correct-m1-1".to_owned(),
            segment_id: "m1:source:0".to_owned(),
            kind: DerivativeKind::Correction,
            author: AuthorKind::User,
            text: "Corrected phrase".to_owned(),
            language_code: Some("en".to_owned()),
            model_id: None,
        })
        .unwrap();
    assert!(database.search_transcripts("hello").unwrap().is_empty());
    assert_eq!(database.search_transcripts("corrected").unwrap().len(), 1);
    database.store_meeting_notes("m1", r#"{"meetingId":"m1"}"#, false, false).unwrap();
    assert!(database.delete_transcript("m1").unwrap());
    assert!(database.list_transcript("m1").unwrap().is_empty());
    assert!(database.search_transcripts("corrected").unwrap().is_empty());
    assert!(database.load_meeting_notes("m1").unwrap().is_none());
    assert!(!database.delete_transcript("m1").unwrap());
}

#[test]
fn search_terms_are_quoted_phrases() {
    assert_eq!(search_terms("  hello   say \"hi\" "), "\"hello\" \"say\" \"\"\"hi\"\"\"");
    assert_eq!(search_terms(" \t\n"), "");
}

#[test]
fn transcript_requests_are_checked() {
    let database = Database::open_in_memory().unwrap();
    let bad = [TranscriptSegmentInput {
        start_ms: 500,
        end_ms: 100,
        speaker_label: None,
        source_track: None,
        text: "x".to_owned(),
    }];
    assert!(matches!(database.store_source_transcript("m1", &bad), Err(TranscriptError::InvalidSegment)));
    assert!(matches!(database.list_transcript("m1"), Err(TranscriptError::MeetingNotFound(_))));
    assert!(matches!(
        database.rename_speaker_label("m1", "A", &"x".repeat(81)),
        Err(TranscriptError::InvalidSpeakerLabel)
    ));
    assert!(database.search_transcripts("   ").unwrap().is_empty());
}
