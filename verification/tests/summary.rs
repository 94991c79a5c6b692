use transcrip_it::database::transcripts::TranscriptSegmentRecord;
use transcrip_it::summary::{
    accept_stored_notes, approve_for_export, check_export_request, check_not_stale, format_notes,
    generate_notes, prepare_saved_notes, validate_notes,
};

fn segment(id: &str, start_ms: i64, text: &str) -> TranscriptSegmentRecord {
    TranscriptSegmentRecord {
        id: id.to_owned(),
        sequence_number: start_ms / 1000,
        start_ms,
        end_ms: start_ms + 900,
        speaker_label: Some("Speaker".to_owned()),
        source_track: Some("mic".to_owned()),
        source_text: text.to_owned(),
        display_text: text.to_owned(),
        active_correction_id: None,
    }
}

#[test]
fn notes_are_extractive_grounded_and_preserve_unknowns() {
    let segments = vec![
        segment("s1", 0, "We discussed the release plan and current recording quality."),
        segment("s2", 1_000, "We decided to test the Ubuntu package tomorrow."),
        segment("s3", 2_000, "Action item: we need to verify the clean installation."),
        segment("s4", 3_000, "Is the microphone warning visible?"),
        segment("s5", 4_000, "The main risk is a delayed model download."),
    ];
    let notes = generate_notes("meeting-1", &segments).unwrap();
    assert_eq!(notes.decisions[0].evidence[0].segment_id, "s2");
    assert_eq!(notes.actions[0].owner, "Not specified");
    assert_eq!(notes.actions[0].due_date, "Not specified");
    assert_eq!(notes.questions[0].evidence[0].start_ms, 3_000);
    assert_eq!(notes.risks[0].text, segments[4].display_text);
    assert!(format_notes("Test", &notes, true).contains("[00:02]"));
    assert!(!notes.approved);
    assert!(!notes.stale);
}

#[test]
fn notes_require_a_transcript() {
    assert!(generate_notes("meeting-1", &[]).is_err());
}

#[test]
fn edited_notes_must_retain_real_evidence() {
    let segments = vec![segment("s1", 0, "We agreed to ship the reviewed package.")];
    let mut notes = generate_notes("meeting-1", &segments).unwrap();
    notes.overview[0].text = "Edited overview".to_owned();
    assert!(validate_notes(&notes, &segments).is_ok());

    notes.overview[0].evidence[0].segment_id = "invented".to_owned();
    assert!(validate_notes(&notes, &segments).is_err());
}

#[test]
fn generated_notes_always_validate_against_their_transcript() {
    let segments = vec![
        segment("a", 0, "We decided to move the launch."),
        segment("b", 61_000, "Next step: email the team."),
    ];
    let notes = generate_notes("m", &segments).unwrap();
    assert!(validate_notes(&notes, &segments).is_ok());
    assert_eq!(notes.next_steps[0].evidence[0].start_ms, 61_000);
}

#[test]
fn a_blank_passage_in_the_overview_fails_generation() {
    let segments = vec![segment("a", 0, "We decided to move the launch."), segment("c", 1_000, "   ")];
    assert_eq!(
        generate_notes("m", &segments).unwrap_err(),
        "Generated notes failed evidence validation."
    );
}

#[test]
fn review_flow_clears_and_grants_approval() {
    let segments = vec![segment("s1", 0, "We agreed to ship the reviewed package.")];
    let notes = generate_notes("meeting-1", &segments).unwrap();

    let stored = accept_stored_notes(notes.clone(), true, true, "meeting-1", &segments).unwrap();
    assert!(stored.approved && stored.stale);
    assert_eq!(
        accept_stored_notes(notes.clone(), false, false, "other", &segments).unwrap_err(),
        "Stored meeting notes do not belong to this meeting."
    );

    let mut approved = notes.clone();
    approved.approved = true;
    let saved = prepare_saved_notes(approved, true, &segments).unwrap();
    assert!(!saved.approved && saved.stale);

    assert!(check_export_request("meeting-1", "markdown", false, &notes).is_err());
    assert!(check_export_request("meeting-1", "pdf", true, &notes).is_err());
    assert!(check_export_request("other", "text", true, &notes).is_err());
    assert!(check_export_request("meeting-1", "text", true, &notes).is_ok());
    assert!(check_not_stale(false, true).is_err());
    assert!(check_not_stale(false, false).is_ok());
    let exported = approve_for_export(saved, &segments).unwrap();
    assert!(exported.approved && !exported.stale);
}
