use transcrip_it::database::transcripts::{TranscriptSegmentInput, TranscriptSegmentRecord};
use transcrip_it::database::workflow::MeetingState;
use transcrip_it::transcription::{
    check_transcribable, check_transcription_slot, checksum_matches, engine_failure_message,
    engine_version_label, format_timestamp, kept_segments, latest_wav_chunk, live_line,
    merge_continuous_segments, model_spec, order_by_time, prepare_transcription_audio,
    transcript_export_text, transcription_finish, transcription_start, wav_chunks,
    RecognizedSegment, Transcriber,
};

#[test]
fn exposes_three_integrity_checked_english_model_packs() {
    assert_eq!(model_spec("fast").unwrap().filename, "ggml-base.en.bin");
    assert_eq!(model_spec("balanced").unwrap().filename, "ggml-small.en.bin");
    assert_eq!(model_spec("accuracy").unwrap().filename, "ggml-medium.en.bin");
    assert!(model_spec("unknown").is_err());
}

fn input(start_ms: i64, end_ms: i64, speaker: &str, track: &str, text: &str) -> TranscriptSegmentInput {
    TranscriptSegmentInput {
        start_ms,
        end_ms,
        speaker_label: Some(speaker.to_owned()),
        source_track: Some(track.to_owned()),
        text: text.to_owned(),
    }
}

#[test]
fn groups_continuous_speech_but_preserves_pauses_and_speakers() {
    let segments = vec![
        input(0, 1_000, "Microphone", "mic", "This is one"),
        input(1_300, 2_500, "Microphone", "mic", "continuous thought."),
        input(4_500, 5_000, "Microphone", "mic", "After a pause."),
        input(5_100, 6_000, "Meeting audio", "system", "Another channel."),
    ];

    let grouped = merge_continuous_segments(segments);
    assert_eq!(grouped.len(), 3);
    assert_eq!(grouped[0].text, "This is one continuous thought.");
    assert_eq!(grouped[0].end_ms, 2_500);
    assert_eq!(grouped[2].speaker_label.as_deref(), Some("Meeting audio"));
}

#[test]
fn hyphenated_words_join_without_a_space() {
    let grouped = merge_continuous_segments(vec![
        input(0, 500, "Microphone", "mic", "re-"),
        input(600, 900, "Microphone", "mic", "start"),
    ]);
    assert_eq!(grouped.len(), 1);
    assert_eq!(grouped[0].text, "restart");
}

#[test]
fn timestamps_are_minutes_and_seconds() {
    assert_eq!(format_timestamp(2_000), "00:02");
    assert_eq!(format_timestamp(754_999), "12:34");
}

#[test]
fn chunks_are_found_sorted_and_indexed() {
    let names: Vec<String> = ["mic-2.wav", "system-1.wav", "mic-10.wav", "mic-1.wav", "notes.txt"]
        .iter()
        .map(|n| n.to_string())
        .collect();
    assert_eq!(wav_chunks(&names, "mic"), vec!["mic-1.wav", "mic-10.wav", "mic-2.wav"]);
    assert_eq!(latest_wav_chunk(&names, "mic").unwrap(), Some(("mic-2.wav".to_owned(), 2)));
    assert_eq!(latest_wav_chunk(&names, "mic_raw").unwrap(), None);
    let plans = prepare_transcription_audio(&names).unwrap();
    assert_eq!(plans.len(), 2);
    assert!(prepare_transcription_audio(&["x.wav".to_owned()]).is_err());
}

#[test]
fn recognised_segments_are_trimmed_labelled_and_ordered() {
    let raw = vec![
        RecognizedSegment { from_ms: 500, to_ms: 900, text: " later ".to_owned() },
        RecognizedSegment { from_ms: 100, to_ms: 300, text: "   ".to_owned() },
        RecognizedSegment { from_ms: 0, to_ms: 400, text: "first".to_owned() },
    ];
    let kept = kept_segments(&raw, "Microphone", "mic");
    assert_eq!(kept.len(), 2);
    assert_eq!(kept[0].text, "later");
    assert_eq!(kept[0].source_track.as_deref(), Some("mic"));
    let mut all = kept;
    all.push(input(0, 400, "Meeting audio", "system", "same time"));
    let ordered = order_by_time(all);
    assert_eq!(ordered[0].text, "first");
    assert_eq!(ordered[1].text, "same time");
    assert_eq!(ordered[2].text, "later");
}

#[test]
fn transcription_runs_are_exclusive_and_audited() {
    let transcriber = Transcriber::new();
    assert!(transcriber.active_transcription().lock().unwrap().is_none());
    assert_eq!(
        check_transcription_slot(&Some("m9".to_owned())).unwrap_err(),
        "Transcription is already running for meeting m9."
    );
    assert!(check_transcribable(MeetingState::Ready).is_ok());
    assert_eq!(
        check_transcribable(MeetingState::Recording).unwrap_err(),
        "Meeting cannot be transcribed while in state Recording."
    );
    let start = transcription_start("m1", 42, MeetingState::Failed);
    assert_eq!(start.idempotency_key, "transcription-start:m1:42");
    let finish = transcription_finish("m1", 42, false);
    assert_eq!(finish.next_state, MeetingState::Failed);
}

#[test]
fn engine_output_is_reported_and_checked() {
    assert_eq!(
        engine_failure_message("Microphone", "warming up\nout of memory\n"),
        "Local transcription failed for Microphone: out of memory"
    );
    assert_eq!(engine_failure_message("Microphone", ""), "Local transcription failed for Microphone: unknown error");
    assert!(checksum_matches("137c  /tmp/model.download\n", "137c"));
    assert!(!checksum_matches("137d  /tmp/model.download\n", "137c"));
    assert_eq!(engine_version_label(false, None), "Not installed");
    assert_eq!(engine_version_label(true, Some("  \n".to_owned())), "whisper.cpp");
    assert_eq!(engine_version_label(true, Some(" v1.9.4\n".to_owned())), "v1.9.4");
}

#[test]
fn live_lines_join_recognised_text_at_minute_offsets() {
    let line = live_line("mic", "Microphone", 3, &[" Hello ".to_owned(), "".to_owned(), "there".to_owned()]).unwrap();
    assert_eq!(line.text, "Hello there");
    assert_eq!(line.start_ms, 180_000);
    assert!(live_line("mic", "Microphone", 3, &["  ".to_owned()]).is_none());
}

#[test]
fn transcript_exports_show_time_speaker_and_current_text() {
    let segment = TranscriptSegmentRecord {
        id: "m:source:0".to_owned(),
        sequence_number: 0,
        start_ms: 61_000,
        end_ms: 62_000,
        speaker_label: None,
        source_track: Some("mic".to_owned()),
        source_text: "helo".to_owned(),
        display_text: "hello".to_owned(),
        active_correction_id: Some("c1".to_owned()),
    };
    assert_eq!(
        transcript_export_text("Sync", std::slice::from_ref(&segment), true),
        "# Sync\n\n**[01:01] Speaker**  \nhello\n\n"
    );
    assert_eq!(
        transcript_export_text("Sync", std::slice::from_ref(&segment), false),
        "Sync\n====\n\n[01:01] Speaker: hello\n"
    );
}

#[test]
fn unsigned_numbers_parse_as_the_standard_library_reads_them() {
    let parse = transcrip_it::text::parse_u64;
    assert_eq!(parse("42"), Some(42));
    assert_eq!(parse("+7"), Some(7));
    assert_eq!(parse("18446744073709551615"), Some(u64::MAX));
    assert_eq!(parse("18446744073709551616"), None);
    assert_eq!(parse(""), None);
    assert_eq!(parse("+"), None);
    assert_eq!(parse("-1"), None);
    assert_eq!(parse("12a"), None);
    for text in ["0", "007", "+0", "99999999999999999999", " 1", "1 "] {
        assert_eq!(parse(text), text.parse::<u64>().ok());
    }
}
