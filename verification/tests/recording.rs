use transcrip_it::database::workflow::MeetingState;
use transcrip_it::recording::plan_recording_start;
use transcrip_it::recording::{
    available_storage_from_listing, capture_arguments, capture_failure_message, capture_transitions,
    check_playback_request, check_start_request, check_storage, choose_system_source,
    inactive_playback_status, active_playback_status, parse_sources, playback_matches,
    playlist_text, seek_seconds, should_stop_playback, start_transition, validate_meeting_id,
    AudioSource, RecordingSession, StartRecordingOptions,
};

#[test]
fn meeting_ids_are_safe_for_recording_paths() {
    assert!(validate_meeting_id("0199-demo_meeting").is_ok());
    assert!(validate_meeting_id("../escape").is_err());
    assert!(validate_meeting_id("").is_err());
}

#[test]
fn parses_microphone_and_monitor_sources() {
    let sources = parse_sources(
        "1\talsa_input.usb-mic\tmodule\ts16le\n2\talsa_output.pci.monitor\tmodule\ts16le",
    );
    assert_eq!(sources.len(), 2);
    assert!(!sources[0].monitor);
    assert!(sources[1].monitor);
}

#[test]
fn source_listing_skips_lines_without_a_name_and_strips_line_endings() {
    let sources = parse_sources("header\r\n3\tout.monitor\r\n\n4\tmic\n");
    assert_eq!(sources.len(), 2);
    assert_eq!(sources[0].name, "out.monitor");
    assert!(sources[0].monitor);
    assert_eq!(sources[1].name, "mic");
    assert!(parse_sources("").is_empty());
}

fn source(name: &str, monitor: bool) -> AudioSource {
    AudioSource { name: name.to_owned(), monitor }
}

#[test]
fn system_source_prefers_the_default_output_monitor() {
    let sources = vec![
        source("mic", false),
        source("other.monitor", true),
        source("speakers.monitor", true),
    ];
    assert_eq!(choose_system_source(&sources, "speakers").as_deref(), Some("speakers.monitor"));
    assert_eq!(choose_system_source(&sources, "headset").as_deref(), Some("other.monitor"));
    assert_eq!(choose_system_source(&sources[..1], "headset"), None);
}

fn options(mode: &str, echo: bool) -> StartRecordingOptions {
    StartRecordingOptions {
        mode: mode.to_owned(),
        mic_source: Some("usb-mic".to_owned()),
        system_source: Some(String::new()),
        echo_cancellation: echo,
    }
}

#[test]
fn recording_requires_consent_a_known_mode_and_both_sources_for_echo_cancellation() {
    assert_eq!(
        check_start_request("meeting-1", false, &options("mic", false)).unwrap_err(),
        "Recording requires explicit consent confirmation."
    );
    assert!(check_start_request("../x", true, &options("mic", false)).is_err());
    assert_eq!(
        check_start_request("meeting-1", true, &options("stereo", false)).unwrap_err(),
        "Capture mode must be mic, system, or both."
    );
    assert_eq!(
        check_start_request("meeting-1", true, &options("mic", true)).unwrap_err(),
        "Echo cancellation requires microphone + system capture."
    );
    assert!(check_start_request("meeting-1", true, &options("both", true)).is_ok());
}

#[test]
fn capture_arguments_name_only_the_chosen_sources() {
    let args = capture_arguments(&options("both", true));
    assert_eq!(
        args,
        vec!["record", "--mode", "both", "--consent-confirmed", "--echo-cancel", "--mic-source", "usb-mic"]
    );
}

#[test]
fn storage_listing_gives_free_bytes_and_the_preflight_refuses_too_little() {
    let listing = "Filesystem 1024-blocks Used Available Capacity Mounted\n/dev/sda1 100 50 2048 50% /\n";
    assert_eq!(available_storage_from_listing(listing).unwrap(), 2048 * 1024);
    assert!(available_storage_from_listing("nothing here").is_err());
    assert_eq!(
        check_storage(100 * 1024 * 1024).unwrap_err(),
        "Recording needs at least 512 MB free; only 100 MB is available."
    );
    assert!(check_storage(512 * 1024 * 1024).is_ok());
}

#[test]
fn capture_failures_report_the_worker_errors() {
    assert_eq!(capture_failure_message(&[]), "Audio capture did not complete successfully.");
    assert_eq!(
        capture_failure_message(&["mic lost".to_owned(), "disk full".to_owned()]),
        "Audio capture failed: mic lost; disk full"
    );
}

#[test]
fn session_steps_request_audited_lifecycle_edges() {
    let start = start_transition("m1");
    assert_eq!(start.idempotency_key, "recording-start:m1");
    assert_eq!((start.expected_state, start.next_state), (MeetingState::Draft, MeetingState::Recording));

    let mut session = RecordingSession::new("m1");
    assert!(session.ensure_meeting("m2").is_err());
    let pause = session.begin_pause().unwrap();
    assert_eq!(pause.idempotency_key, "recording-pause:m1:1");
    session.set_paused(true);
    assert!(session.begin_pause().is_none());
    let resume = session.resume_request().unwrap();
    assert_eq!(resume.idempotency_key, "recording-resume:m1:1");
    session.set_paused(false);
    assert!(session.resume_request().is_none());
    assert_eq!(session.begin_pause().unwrap().idempotency_key, "recording-pause:m1:2");

    let (process, finish) = capture_transitions("m1", MeetingState::Ready);
    assert_eq!(process.idempotency_key, "recording-process:m1");
    assert_eq!(finish.idempotency_key, "recording-finish:m1");
    assert_eq!(finish.next_state, MeetingState::Ready);
}

#[test]
fn playback_requests_and_status() {
    assert_eq!(check_playback_request("mic", None).unwrap(), 0);
    assert!(check_playback_request("video", Some(0)).is_err());
    assert_eq!(check_playback_request("system", Some(-1)).unwrap_err(), "Playback start time cannot be negative.");
    let status = inactive_playback_status();
    assert!(!status.active && status.meeting_id.is_none() && status.chunk_count == 0);
    let playing = active_playback_status("m1", "mic", i64::MAX - 5, 10, 3);
    assert_eq!(playing.position_ms, i64::MAX);
    assert!(should_stop_playback(Some("m1"), None));
    assert!(!should_stop_playback(Some("m1"), Some("m2")));
    assert!(!should_stop_playback(None, None));
    assert!(playback_matches(true, "m1", "mic", 5, "m1", "mic", 5));
    assert!(!playback_matches(false, "m1", "mic", 5, "m1", "mic", 5));
    assert_eq!(seek_seconds(1_234_005), "1234.005");
    assert_eq!(
        playlist_text(&["/r/it's-1.wav".to_owned()]),
        "ffconcat version 1.0\nfile '/r/it'\\''s-1.wav'\n"
    );
}

#[test]
fn a_second_recording_is_refused_while_one_is_active() {
    assert!(transcrip_it::recording::check_recording_slot(None).is_ok());
    assert_eq!(
        transcrip_it::recording::check_recording_slot(Some("meeting-1")).unwrap_err(),
        "A recording is already active for meeting meeting-1."
    );
}

#[test]
fn a_start_runs_only_when_every_check_passes() {
    let options = StartRecordingOptions {
        mode: "both".to_owned(),
        echo_cancellation: false,
        mic_source: None,
        system_source: None,
    };
    let enough = 1024 * 1024 * 1024;
    assert_eq!(
        plan_recording_start("meeting-2", true, &options, Some("meeting-1"), false, enough).err().unwrap(),
        "A recording is already active for meeting meeting-1."
    );
    assert_eq!(
        plan_recording_start("meeting-2", true, &options, None, true, enough).err().unwrap(),
        "A recording directory already exists for this meeting."
    );
    assert_eq!(
        plan_recording_start("meeting-2", true, &options, None, false, 100 * 1024 * 1024).err().unwrap(),
        "Recording needs at least 512 MB free; only 100 MB is available."
    );
    assert_eq!(
        plan_recording_start("meeting-2", false, &options, Some("meeting-1"), true, 0).err().unwrap(),
        "Recording requires explicit consent confirmation."
    );
    let start = plan_recording_start("meeting-2", true, &options, None, false, enough).ok().unwrap();
    assert_eq!(start.arguments, vec!["record", "--mode", "both", "--consent-confirmed"]);
    assert_eq!(start.transition.meeting_id, "meeting-2");
    assert_eq!(start.transition.idempotency_key, "recording-start:meeting-2");
    assert_eq!(start.transition.expected_state, MeetingState::Draft);
    assert_eq!(start.transition.next_state, MeetingState::Recording);
}
