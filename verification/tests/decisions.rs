use transcrip_it::database::meetings::{check_archivable, reopen_target, replay_archive_move, MeetingError};
use transcrip_it::database::transcripts::{check_segments, check_speaker_label, source_segment_id, TranscriptSegmentInput};
use transcrip_it::database::workflow::{
    apply_transition, plan_completion, plan_retry, replay_schedule, JobSchedule, JobSnapshot, JobState, JobStep,
    MeetingState, MeetingTransitionRequest, WorkflowError,
};

fn job(state: JobState, token: Option<&str>) -> JobSnapshot {
    JobSnapshot {
        id: "job-1".to_owned(),
        meeting_id: Some("m".to_owned()),
        job_kind: "transcription".to_owned(),
        state,
        attempt_count: 2,
        run_token: token.map(str::to_owned),
        replayed: false,
    }
}

#[test]
fn completion_is_taken_only_from_the_current_run_and_replays() {
    assert!(matches!(
        plan_completion(job(JobState::Running, Some("w2")), "job-1", "w2", JobState::Succeeded),
        Ok(JobStep::Apply(JobState::Succeeded))
    ));
    assert!(matches!(
        plan_completion(job(JobState::Running, Some("w2")), "job-1", "w1", JobState::Failed),
        Err(WorkflowError::StaleJobLease(ref id)) if id == "job-1"
    ));
    match plan_completion(job(JobState::Succeeded, Some("w2")), "job-1", "w2", JobState::Succeeded) {
        Ok(JobStep::Replay(snapshot)) => assert!(snapshot.replayed && snapshot.attempt_count == 2),
        _ => panic!("a repeated completion must replay"),
    }
    assert!(matches!(
        plan_completion(job(JobState::Succeeded, Some("w2")), "job-1", "w2", JobState::Failed),
        Err(WorkflowError::StaleJobLease(_))
    ));
}

#[test]
fn retries_requeue_failed_jobs_only() {
    assert!(matches!(plan_retry(job(JobState::Failed, Some("w")), "job-1"), Ok(JobStep::Apply(JobState::Queued))));
    assert!(matches!(plan_retry(job(JobState::Queued, None), "job-1"), Ok(JobStep::Replay(_))));
    assert!(matches!(plan_retry(job(JobState::Running, Some("w")), "job-1"), Err(WorkflowError::StaleJobLease(_))));
}

#[test]
fn rescheduling_needs_the_same_inputs() {
    let schedule = JobSchedule {
        id: "job-1".to_owned(),
        idempotency_key: "key".to_owned(),
        meeting_id: Some("m".to_owned()),
        job_kind: "transcription".to_owned(),
        payload: serde_json::from_str("{}").unwrap(),
    };
    assert!(replay_schedule(job(JobState::Queued, None), &schedule, true).unwrap().replayed);
    assert!(matches!(
        replay_schedule(job(JobState::Queued, None), &schedule, false),
        Err(WorkflowError::IdempotencyConflict(ref key)) if key == "key"
    ));
}

#[test]
fn fresh_transitions_advance_the_revision_along_the_graph() {
    let request = MeetingTransitionRequest {
        meeting_id: "m".to_owned(),
        idempotency_key: "k".to_owned(),
        expected_state: MeetingState::Ready,
        next_state: MeetingState::Archived,
    };
    let applied = apply_transition(&request, MeetingState::Ready, 41).unwrap();
    assert_eq!((applied.state, applied.revision, applied.replayed), (MeetingState::Archived, 42, false));
    assert!(matches!(
        apply_transition(&request, MeetingState::Failed, 41),
        Err(WorkflowError::StateConflict { expected: MeetingState::Ready, actual: MeetingState::Failed })
    ));
    let skip = MeetingTransitionRequest { next_state: MeetingState::Recording, ..request };
    assert!(matches!(apply_transition(&skip, MeetingState::Ready, 0), Err(WorkflowError::InvalidTransition { .. })));
}

#[test]
fn archive_rules() {
    assert!(check_archivable(MeetingState::Failed).is_ok());
    assert!(matches!(check_archivable(MeetingState::Paused), Err(MeetingError::CannotArchive(MeetingState::Paused))));
    assert_eq!(reopen_target(MeetingState::Archived, Some(MeetingState::Ready)).unwrap(), MeetingState::Ready);
    assert_eq!(reopen_target(MeetingState::Archived, None).unwrap(), MeetingState::Draft);
    assert!(matches!(reopen_target(MeetingState::Draft, None), Err(MeetingError::NotArchived)));
    assert!(replay_archive_move("archived", true, "k").is_ok());
    assert!(replay_archive_move("draft", true, "k").is_err());
    assert!(replay_archive_move("draft", false, "k").is_ok());
    assert_eq!(
        check_archivable(MeetingState::Recording).unwrap_err().message(),
        "meeting cannot be archived while in state Recording"
    );
}

#[test]
fn transcript_inputs_are_checked() {
    let segment = |start_ms: i64, end_ms: i64, text: &str| TranscriptSegmentInput {
        start_ms,
        end_ms,
        speaker_label: None,
        source_track: None,
        text: text.to_owned(),
    };
    assert!(check_segments(&[segment(0, 0, "a"), segment(5, 9, " b ")]).is_ok());
    assert!(check_segments(&[segment(-1, 0, "a")]).is_err());
    assert!(check_segments(&[segment(0, 1, " \n ")]).is_err());
    assert_eq!(check_speaker_label("Microphone", "  Jihad ").unwrap(), "Jihad");
    assert!(check_speaker_label("  ", "Jihad").is_err());
    assert!(check_speaker_label("A", &"é".repeat(80)).is_ok());
    assert!(check_speaker_label("A", &"é".repeat(81)).is_err());
    assert_eq!(source_segment_id("m1", 12), "m1:source:12");
}
