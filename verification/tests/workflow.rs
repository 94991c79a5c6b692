use transcrip_it::database::workflow::{
    recovery_key, recovery_path, replay_transition, JobClaim, JobCompletion, JobSchedule, JobState,
    MeetingState, MeetingTransitionRequest, StoredTransition, WorkflowError,
};
use transcrip_it::database::workflow::{check_state_updated, transition_audit_params, transition_update_params};
use transcrip_it::database::Database;
use transcrip_it::sql::SqlParam;

fn database_with_meeting() -> Database {
    let database = Database::open_in_memory().unwrap();
    database
        .connection()
        .unwrap()
        .execute("INSERT INTO meetings (id, title) VALUES ('meeting-1', 'Weekly sync')", [])
        .unwrap();
    database
}

fn schedule() -> JobSchedule {
    JobSchedule {
        id: "job-1".to_owned(),
        idempotency_key: "transcribe:meeting-1:source-v1".to_owned(),
        meeting_id: Some("meeting-1".to_owned()),
        job_kind: "transcription".to_owned(),
        payload: serde_json::from_str(r#"{ "sourceVersion": 1 }"#).unwrap(),
    }
}

#[test]
fn meeting_transitions_are_validated_and_idempotent() {
    let database = database_with_meeting();
    let request = MeetingTransitionRequest {
        meeting_id: "meeting-1".to_owned(),
        idempotency_key: "start-recording-1".to_owned(),
        expected_state: MeetingState::Draft,
        next_state: MeetingState::Recording,
    };

    let first = database.transition_meeting(&request).unwrap();
    let replay = database.transition_meeting(&request).unwrap();

    assert_eq!(first.state, MeetingState::Recording);
    assert_eq!(first.revision, 1);
    assert!(!first.replayed);
    assert!(replay.replayed);
    assert_eq!(replay.revision, 1);

    let transition_count: i64 = database
        .connection()
        .unwrap()
        .query_row("SELECT COUNT(*) FROM meeting_transitions", [], |row| row.get(0))
        .unwrap();
    assert_eq!(transition_count, 1);
}

#[test]
fn meeting_transitions_reject_invalid_edges() {
    let database = database_with_meeting();
    let error = database
        .transition_meeting(&MeetingTransitionRequest {
            meeting_id: "meeting-1".to_owned(),
            idempotency_key: "skip-to-ready".to_owned(),
            expected_state: MeetingState::Draft,
            next_state: MeetingState::Ready,
        })
        .unwrap_err();

    assert!(matches!(error, WorkflowError::InvalidTransition { .. }));
}

#[test]
fn startup_recovery_moves_interrupted_meetings_to_failed() {
    let database = database_with_meeting();
    database
        .transition_meeting(&MeetingTransitionRequest {
            meeting_id: "meeting-1".to_owned(),
            idempotency_key: "start-before-crash".to_owned(),
            expected_state: MeetingState::Draft,
            next_state: MeetingState::Recording,
        })
        .unwrap();
    assert_eq!(database.recover_interrupted_meetings().unwrap(), 1);
    assert_eq!(database.meeting_state("meeting-1").unwrap(), MeetingState::Failed);
    assert_eq!(database.recover_interrupted_meetings().unwrap(), 0);

    database
        .transition_meeting(&MeetingTransitionRequest {
            meeting_id: "meeting-1".to_owned(),
            idempotency_key: "retry-before-second-crash".to_owned(),
            expected_state: MeetingState::Failed,
            next_state: MeetingState::Processing,
        })
        .unwrap();
    assert_eq!(database.recover_interrupted_meetings().unwrap(), 1);
    assert_eq!(database.meeting_state("meeting-1").unwrap(), MeetingState::Failed);
}

#[test]
fn job_scheduling_is_idempotent() {
    let database = database_with_meeting();
    let schedule = schedule();

    let first = database.schedule_job(&schedule).unwrap();
    let replay = database.schedule_job(&schedule).unwrap();

    assert_eq!(first.state, JobState::Queued);
    assert!(!first.replayed);
    assert!(replay.replayed);
    let count: i64 = database
        .connection()
        .unwrap()
        .query_row("SELECT COUNT(*) FROM jobs", [], |row| row.get(0))
        .unwrap();
    assert_eq!(count, 1);
}

#[test]
fn stale_workers_cannot_complete_a_reclaimed_job() {
    let database = database_with_meeting();
    database.schedule_job(&schedule()).unwrap();

    let first = database
        .claim_next_job(&JobClaim { job_kind: "transcription", run_token: "worker-1", lease_seconds: 60 })
        .unwrap()
        .unwrap();
    assert_eq!(first.attempt_count, 1);

    database
        .connection()
        .unwrap()
        .execute("UPDATE jobs SET lease_expires_at = 0 WHERE id = 'job-1'", [])
        .unwrap();
    let reclaimed = database
        .claim_next_job(&JobClaim { job_kind: "transcription", run_token: "worker-2", lease_seconds: 60 })
        .unwrap()
        .unwrap();
    assert_eq!(reclaimed.attempt_count, 2);

    let stale = database.complete_job("job-1", "worker-1", JobCompletion::Succeeded);
    assert!(matches!(stale, Err(WorkflowError::StaleJobLease(_))));

    let completed = database.complete_job("job-1", "worker-2", JobCompletion::Succeeded).unwrap();
    let replay = database.complete_job("job-1", "worker-2", JobCompletion::Succeeded).unwrap();
    assert_eq!(completed.state, JobState::Succeeded);
    assert!(replay.replayed);
}

#[test]
fn failed_jobs_can_be_retried_safely() {
    let database = database_with_meeting();
    database.schedule_job(&schedule()).unwrap();
    database
        .claim_next_job(&JobClaim { job_kind: "transcription", run_token: "worker-1", lease_seconds: 60 })
        .unwrap();
    database
        .complete_job(
            "job-1",
            "worker-1",
            JobCompletion::Failed { error_code: "engine_unavailable", error_message: "engine stopped" },
        )
        .unwrap();

    let queued = database.retry_job("job-1").unwrap();
    let replay = database.retry_job("job-1").unwrap();
    assert_eq!(queued.state, JobState::Queued);
    assert!(replay.replayed);
}

#[test]
fn reusing_keys_with_other_input_is_refused() {
    let database = database_with_meeting();
    let request = MeetingTransitionRequest {
        meeting_id: "meeting-1".to_owned(),
        idempotency_key: "k".to_owned(),
        expected_state: MeetingState::Draft,
        next_state: MeetingState::Recording,
    };
    database.transition_meeting(&request).unwrap();
    let error = database
        .transition_meeting(&MeetingTransitionRequest { next_state: MeetingState::Archived, ..request })
        .unwrap_err();
    assert!(matches!(error, WorkflowError::IdempotencyConflict(ref key) if key == "k"));
    assert_eq!(error.message(), "idempotency key was reused with different input: k");

    database.schedule_job(&schedule()).unwrap();
    let mut other = schedule();
    other.payload = serde_json::from_str(r#"{ "sourceVersion": 2 }"#).unwrap();
    assert!(matches!(database.schedule_job(&other), Err(WorkflowError::IdempotencyConflict(_))));
}

#[test]
fn conflicting_states_and_missing_records_are_reported() {
    let database = database_with_meeting();
    let error = database
        .transition_meeting(&MeetingTransitionRequest {
            meeting_id: "meeting-1".to_owned(),
            idempotency_key: "pause".to_owned(),
            expected_state: MeetingState::Recording,
            next_state: MeetingState::Paused,
        })
        .unwrap_err();
    assert!(matches!(
        error,
        WorkflowError::StateConflict { expected: MeetingState::Recording, actual: MeetingState::Draft }
    ));
    assert!(matches!(database.meeting_state("nope"), Err(WorkflowError::MeetingNotFound(_))));
    assert!(matches!(database.retry_job("nope"), Err(WorkflowError::JobNotFound(_))));
    let invalid = database.claim_next_job(&JobClaim { job_kind: "x", run_token: "w", lease_seconds: 0 });
    assert!(matches!(invalid, Err(WorkflowError::InvalidLeaseDuration)));
}

#[test]
fn state_names_round_trip() {
    for state in [
        MeetingState::Draft,
        MeetingState::Recording,
        MeetingState::Paused,
        MeetingState::Processing,
        MeetingState::Ready,
        MeetingState::Failed,
        MeetingState::Archived,
    ] {
        assert_eq!(MeetingState::parse(state.as_str()).unwrap(), state);
    }
    for state in [JobState::Queued, JobState::Running, JobState::Succeeded, JobState::Failed, JobState::Cancelled] {
        assert_eq!(JobState::parse(state.as_str()).unwrap(), state);
    }
    assert!(matches!(MeetingState::parse("Draft"), Err(WorkflowError::InvalidStoredState(_))));
}

#[test]
fn replayed_transitions_answer_with_the_recorded_result() {
    let request = MeetingTransitionRequest {
        meeting_id: "m".to_owned(),
        idempotency_key: "k".to_owned(),
        expected_state: MeetingState::Processing,
        next_state: MeetingState::Ready,
    };
    let stored = StoredTransition {
        meeting_id: "m".to_owned(),
        from_state: MeetingState::Processing,
        to_state: MeetingState::Ready,
        resulting_revision: 7,
    };
    let replay = replay_transition(&request, stored).unwrap();
    assert!(replay.replayed);
    assert_eq!(replay.revision, 7);
    assert_eq!(recovery_path(MeetingState::Paused), vec![MeetingState::Processing, MeetingState::Failed]);
    assert_eq!(recovery_key(MeetingState::Failed, "m", 3), "startup-recovery-fail:m:3");
}

#[test]
fn stored_state_names_parse_through_from_str() {
    assert_eq!("processing".parse::<MeetingState>().unwrap(), MeetingState::Processing);
    assert_eq!("succeeded".parse::<JobState>().unwrap(), JobState::Succeeded);
    assert!(matches!(
        "sleeping".parse::<MeetingState>(),
        Err(WorkflowError::InvalidStoredState(value)) if value == "sleeping"
    ));
    assert!(matches!(
        "Running".parse::<JobState>(),
        Err(WorkflowError::InvalidStoredState(value)) if value == "Running"
    ));
}

#[test]
fn transition_writes_name_the_edge_and_both_revisions() {
    let request = MeetingTransitionRequest {
        meeting_id: "meeting-1".to_owned(),
        idempotency_key: "start-1".to_owned(),
        expected_state: MeetingState::Draft,
        next_state: MeetingState::Recording,
    };
    let text = |p: &SqlParam| match p {
        SqlParam::Text(s) => s.clone(),
        _ => panic!("expected text"),
    };
    let int = |p: &SqlParam| match p {
        SqlParam::Integer(i) => *i,
        _ => panic!("expected integer"),
    };
    let update = transition_update_params(&request, 4);
    assert_eq!(text(&update[0]), "recording");
    assert_eq!(int(&update[1]), 5);
    assert_eq!(text(&update[2]), "meeting-1");
    assert_eq!(int(&update[3]), 4);
    let audit = transition_audit_params(&request, MeetingState::Draft, 4);
    assert_eq!(text(&audit[0]), "start-1");
    assert_eq!(text(&audit[1]), "meeting-1");
    assert_eq!(text(&audit[2]), "draft");
    assert_eq!(text(&audit[3]), "recording");
    assert_eq!(int(&audit[4]), 5);
    assert!(check_state_updated(1, MeetingState::Draft, MeetingState::Draft).is_ok());
    assert!(matches!(
        check_state_updated(0, MeetingState::Draft, MeetingState::Draft),
        Err(WorkflowError::StateConflict { expected: MeetingState::Draft, actual: MeetingState::Draft })
    ));
}
