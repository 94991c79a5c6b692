//! The rules of a recording session: what may be recorded and how, which capture and playback
//! commands run, and which lifecycle transitions each step requests.
use vstd::prelude::*;
use crate::database::workflow::{spec_can_transition, MeetingState, MeetingTransitionRequest};
use crate::text::{
    char_vec, decimal, ends_with_chars, lines_of, parse_u64, push_char, push_decimal, push_str,
    spec_ends_with, spec_lines, spec_parse_u64, spec_split_char, spec_words,
    split_on, split_words, string_from_chars, str_equals,
};

verus! {

/// A meeting id may name a recording directory: it is not empty and holds only ASCII letters,
/// digits, `-` and `_`.
pub open spec fn spec_safe_meeting_id(id: Seq<char>) -> bool {
    id.len() > 0 && forall|i: int| 0 <= i < id.len() ==> #[trigger] safe_id_char(id[i])
}

/// A character allowed in a meeting id.
pub open spec fn safe_id_char(c: char) -> bool {
    ('a' <= c <= 'z') || ('A' <= c <= 'Z') || ('0' <= c <= '9') || c == '-' || c == '_'
}

/// Refuses a meeting id that could not safely name a recording directory.
pub fn validate_meeting_id(meeting_id: &str) -> (r: Result<(), String>)
    ensures
        r is Ok <==> spec_safe_meeting_id(meeting_id@),
        r matches Err(m) ==> m@ == "Meeting ID contains unsupported characters."@,
{
    let chars = char_vec(meeting_id);
    let mut ok = chars.len() > 0;
    let mut i: usize = 0;
    while i < chars.len()
        invariant
            i <= chars.len(),
            chars@ == meeting_id@,
            ok == (chars.len() > 0 && forall|k: int| 0 <= k < i ==> #[trigger] safe_id_char(chars@[k])),
        decreases chars.len() - i,
    {
        let c = chars[i];
        let allowed = ('a' <= c && c <= 'z') || ('A' <= c && c <= 'Z') || ('0' <= c && c <= '9') || c == '-' || c == '_';
        assert(allowed == safe_id_char(chars@[i as int]));
        ok = ok && allowed;
        assert(ok == (chars.len() > 0 && forall|k: int| 0 <= k < i + 1 ==> #[trigger] safe_id_char(chars@[k]))) by {
            if ok {
                assert forall|k: int| 0 <= k < i + 1 implies #[trigger] safe_id_char(chars@[k]) by {}
            }
        }
        i = i + 1;
    }
    if ok {
        Ok(())
    } else {
        Err("Meeting ID contains unsupported characters.".to_owned())
    }
}

/// An audio source that the sound server offers, and whether it monitors an output.
#[derive(Debug)]
pub struct AudioSource {
    pub name: String,
    pub monitor: bool,
}

/// The sound server's defaults, the source that captures system audio, and all sources.
#[derive(Debug)]
pub struct AudioDevices {
    pub default_source: String,
    pub default_sink: String,
    pub system_source: Option<String>,
    pub sources: Vec<AudioSource>,
}

/// The second tab-separated field of a line, if it has one.
pub open spec fn second_field(line: Seq<char>) -> Option<Seq<char>> {
    let fields = spec_split_char(line, '\t');
    if fields.len() >= 2 {
        Some(fields[1])
    } else {
        None
    }
}

/// The source names in a short source listing: the second field of each line that has one.
pub open spec fn source_names(lines: Seq<Seq<char>>) -> Seq<Seq<char>>
    decreases lines.len(),
{
    if lines.len() == 0 {
        Seq::empty()
    } else {
        let before = source_names(lines.drop_last());
        match second_field(lines.last()) {
            Some(name) => before.push(name),
            None => before,
        }
    }
}

/// A source monitors an output when its name ends in `.monitor`.
pub open spec fn is_monitor_name(name: Seq<char>) -> bool {
    spec_ends_with(name, ".monitor"@)
}

/// Reads a short source listing: one source per line that has a second tab-separated field,
/// named by it, in order.
pub fn parse_sources(output: &str) -> (sources: Vec<AudioSource>)
    ensures
        sources.len() == source_names(spec_lines(output@)).len(),
        forall|k: int| 0 <= k < sources.len() ==> {
            &&& (#[trigger] sources[k]).name@ == source_names(spec_lines(output@))[k]
            &&& sources[k].monitor == is_monitor_name(sources[k].name@)
        },
{
    let chars = char_vec(output);
    let lines = lines_of(chars.as_slice());
    let ghost lv = lines@.map_values(|w: Vec<char>| w@);
    let suffix = char_vec(".monitor");
    let mut sources: Vec<AudioSource> = Vec::new();
    let mut k: usize = 0;
    while k < lines.len()
        invariant
            k <= lines.len(),
            lv == lines@.map_values(|w: Vec<char>| w@),
            lv == spec_lines(output@),
            suffix@ == ".monitor"@,
            sources.len() == source_names(lv.take(k as int)).len(),
            forall|m: int| 0 <= m < sources.len() ==> {
                &&& (#[trigger] sources[m]).name@ == source_names(lv.take(k as int))[m]
                &&& sources[m].monitor == is_monitor_name(sources[m].name@)
            },
        decreases lines.len() - k,
    {
        let fields = split_on(lines[k].as_slice(), '\t');
        let ghost before = source_names(lv.take(k as int));
        proof {
            let t = lv.take(k + 1);
            assert(t.drop_last() =~= lv.take(k as int));
            assert(t.last() == lines@[k as int]@);
        }
        if fields.len() >= 2 {
            let name_chars = &fields[1];
            let monitor = ends_with_chars(name_chars.as_slice(), suffix.as_slice());
            let name = string_from_chars(name_chars.as_slice());
            assert(fields@.map_values(|w: Vec<char>| w@)[1] == fields@[1]@);
            sources.push(AudioSource { name, monitor });
            assert(source_names(lv.take(k + 1)) == before.push(fields@[1]@));
        } else {
            assert(fields@.map_values(|w: Vec<char>| w@).len() == fields.len());
        }
        k = k + 1;
    }
    assert(lv.take(lines.len() as int) =~= lv);
    sources
}

/// Chooses the source that captures system audio: the monitor of the default output when it is
/// listed, else the first monitor source, else none.
pub fn choose_system_source(sources: &[AudioSource], default_sink: &str) -> (r: Option<String>)
    ensures
        r matches Some(name) ==> exists|k: int| 0 <= k < sources.len() && (#[trigger] sources[k]).name@ == name@,
        r matches Some(name) ==> (name@ == default_sink@ + ".monitor"@
            || forall|k: int| 0 <= k < sources.len() ==> (#[trigger] sources[k]).name@ != default_sink@ + ".monitor"@),
        (exists|k: int| 0 <= k < sources.len() && (#[trigger] sources[k]).name@ == default_sink@ + ".monitor"@)
            ==> (r matches Some(name) && name@ == default_sink@ + ".monitor"@),
        r is None <==> forall|k: int| 0 <= k < sources.len() ==> !(#[trigger] sources[k]).monitor
            && sources[k].name@ != default_sink@ + ".monitor"@,
        r matches Some(name) ==> (name@ != default_sink@ + ".monitor"@ ==> exists|k: int| 0 <= k < sources.len()
            && (#[trigger] sources[k]).monitor && sources[k].name@ == name@ && forall|j: int| 0 <= j < k ==> !sources[j].monitor),
{
    let mut expected = default_sink.to_string();
    push_str(&mut expected, ".monitor");
    let mut k: usize = 0;
    while k < sources.len()
        invariant
            k <= sources.len(),
            expected@ == default_sink@ + ".monitor"@,
            forall|j: int| 0 <= j < k ==> (#[trigger] sources[j]).name@ != expected@,
        decreases sources.len() - k,
    {
        if str_equals(sources[k].name.as_str(), expected.as_str()) {
            return Some(sources[k].name.clone());
        }
        k = k + 1;
    }
    let mut k: usize = 0;
    while k < sources.len()
        invariant
            k <= sources.len(),
            expected@ == default_sink@ + ".monitor"@,
            forall|j: int| 0 <= j < sources.len() ==> (#[trigger] sources[j]).name@ != expected@,
            forall|j: int| 0 <= j < k ==> !(#[trigger] sources[j]).monitor,
        decreases sources.len() - k,
    {
        if sources[k].monitor {
            return Some(sources[k].name.clone());
        }
        k = k + 1;
    }
    None
}

} // verus!

verus! {

/// How the user asked to record.
#[derive(Debug)]
pub struct StartRecordingOptions {
    pub mode: String,
    pub mic_source: Option<String>,
    pub system_source: Option<String>,
    pub echo_cancellation: bool,
}

/// The capture modes: microphone, system audio, or both.
pub open spec fn known_capture_mode(mode: Seq<char>) -> bool {
    mode == "mic"@ || mode == "system"@ || mode == "both"@
}

/// Checks a request to start recording before anything runs: the user confirmed consent, the
/// meeting id is safe, the mode is known, and echo cancellation is asked only with both sources.
pub fn check_start_request(meeting_id: &str, consent_confirmed: bool, options: &StartRecordingOptions) -> (r: Result<(), String>)
    ensures
        r is Ok <==> consent_confirmed && spec_safe_meeting_id(meeting_id@) && known_capture_mode(options.mode@)
            && (options.echo_cancellation ==> options.mode@ == "both"@),
        !consent_confirmed ==> (r matches Err(m) && m@ == "Recording requires explicit consent confirmation."@),
        consent_confirmed && !spec_safe_meeting_id(meeting_id@) ==> (r matches Err(m)
            && m@ == "Meeting ID contains unsupported characters."@),
        consent_confirmed && spec_safe_meeting_id(meeting_id@) && !known_capture_mode(options.mode@) ==> (r matches Err(m)
            && m@ == "Capture mode must be mic, system, or both."@),
        consent_confirmed && spec_safe_meeting_id(meeting_id@) && known_capture_mode(options.mode@)
            && options.echo_cancellation && options.mode@ != "both"@ ==> (r matches Err(m)
            && m@ == "Echo cancellation requires microphone + system capture."@),
{
    if !consent_confirmed {
        return Err("Recording requires explicit consent confirmation.".to_owned());
    }
    validate_meeting_id(meeting_id)?;
    let mode = options.mode.as_str();
    if !str_equals(mode, "mic") && !str_equals(mode, "system") && !str_equals(mode, "both") {
        return Err("Capture mode must be mic, system, or both.".to_owned());
    }
    if options.echo_cancellation && !str_equals(mode, "both") {
        return Err("Echo cancellation requires microphone + system capture.".to_owned());
    }
    Ok(())
}

/// Refuses to start a recording while another one is active, naming its meeting.
pub fn check_recording_slot(active_meeting: Option<&str>) -> (r: Result<(), String>)
    ensures
        r is Ok <==> active_meeting is None,
        active_meeting matches Some(id) ==> (r matches Err(m)
            && m@ == "A recording is already active for meeting "@ + id@ + "."@),
{
    match active_meeting {
        Some(id) => {
            let mut message = String::from_str("A recording is already active for meeting ");
            push_str(&mut message, id);
            push_str(&mut message, ".");
            Err(message)
        },
        None => Ok(()),
    }
}

/// A chosen source, when one was named.
pub open spec fn named_source(source: Option<Seq<char>>) -> bool {
    source matches Some(s) && s.len() > 0
}

/// The arguments of the capture worker, before its output directory: record in the chosen mode
/// with consent, with echo cancellation and the chosen sources when they were asked for.
pub open spec fn spec_capture_arguments(options: StartRecordingOptions) -> Seq<Seq<char>> {
    seq!["record"@, "--mode"@, options.mode@, "--consent-confirmed"@]
        + (if options.echo_cancellation { seq!["--echo-cancel"@] } else { Seq::empty() })
        + (if named_source(options.mic_source.deep_view()) {
            seq!["--mic-source"@, options.mic_source.deep_view()->Some_0]
        } else {
            Seq::empty()
        })
        + (if named_source(options.system_source.deep_view()) {
            seq!["--system-source"@, options.system_source.deep_view()->Some_0]
        } else {
            Seq::empty()
        })
}

/// Builds the arguments of the capture worker.
pub fn capture_arguments(options: &StartRecordingOptions) -> (r: Vec<String>)
    ensures
        r@.map_values(|a: String| a@) == spec_capture_arguments(*options),
{
    let mut args: Vec<String> = Vec::new();
    args.push("record".to_string());
    args.push("--mode".to_string());
    args.push(options.mode.clone());
    args.push("--consent-confirmed".to_string());
    if options.echo_cancellation {
        args.push("--echo-cancel".to_string());
    }
    match &options.mic_source {
        Some(source) => {
            if !source.as_str().is_empty() {
                args.push("--mic-source".to_string());
                args.push(source.clone());
            }
        },
        None => {},
    }
    match &options.system_source {
        Some(source) => {
            if !source.as_str().is_empty() {
                args.push("--system-source".to_string());
                args.push(source.clone());
            }
        },
        None => {},
    }
    assert(args@.map_values(|a: String| a@) =~= spec_capture_arguments(*options));
    args
}

/// The free space that recording needs at startup: 512 MiB.
pub const RECORDING_PREFLIGHT_BYTES: u64 = 536870912;

/// The free space, in KiB, that a POSIX `df -Pk` listing gives: the fourth field of its last line.
pub open spec fn spec_available_kib(listing: Seq<char>) -> Option<u64> {
    let lines = spec_lines(listing);
    if lines.len() == 0 {
        None
    } else {
        let fields = spec_words(lines.last());
        if fields.len() < 4 {
            None
        } else {
            spec_parse_u64(fields[3])
        }
    }
}

/// Reads the free space, in bytes, from a `df -Pk` listing (saturating at the largest `u64`).
pub fn available_storage_from_listing(listing: &str) -> (r: Result<u64, String>)
    ensures
        match spec_available_kib(listing@) {
            Some(kib) => r matches Ok(bytes) && bytes == if kib * 1024 > u64::MAX { u64::MAX as int } else { kib * 1024 },
            None => r matches Err(m) && m@ == "Could not understand available storage information."@,
        },
{
    let chars = char_vec(listing);
    let lines = lines_of(chars.as_slice());
    let ghost lv = lines@.map_values(|w: Vec<char>| w@);
    if lines.len() == 0 {
        return Err("Could not understand available storage information.".to_owned());
    }
    let last = &lines[lines.len() - 1];
    assert(lv.last() == last@);
    let fields = split_words(last.as_slice());
    if fields.len() < 4 {
        assert(fields@.map_values(|w: Vec<char>| w@).len() == fields.len());
        return Err("Could not understand available storage information.".to_owned());
    }
    assert(fields@.map_values(|w: Vec<char>| w@)[3] == fields@[3]@);
    let text = string_from_chars(fields[3].as_slice());
    match parse_u64(text.as_str()) {
        Some(kib) => {
            if kib > u64::MAX / 1024 {
                Ok(u64::MAX)
            } else {
                Ok(kib * 1024)
            }
        },
        None => Err("Could not understand available storage information.".to_owned()),
    }
}

/// The refusal when less than the needed free space is available, in whole MiB.
pub open spec fn spec_low_storage_message(available: u64) -> Seq<char> {
    "Recording needs at least 512 MB free; only "@ + decimal((available / 1024 / 1024) as nat) + " MB is available."@
}

/// Refuses to start recording with less than 512 MiB free.
pub fn check_storage(available: u64) -> (r: Result<(), String>)
    ensures
        r is Ok <==> available >= RECORDING_PREFLIGHT_BYTES,
        r matches Err(m) ==> m@ == spec_low_storage_message(available),
{
    if available < RECORDING_PREFLIGHT_BYTES {
        let mut message = String::from_str("Recording needs at least 512 MB free; only ");
        push_decimal(&mut message, available / 1024 / 1024);
        push_str(&mut message, " MB is available.");
        return Err(message);
    }
    Ok(())
}

/// The message of a capture that did not complete: the worker's error messages joined by `; `,
/// or a general message when they say nothing.
pub open spec fn spec_capture_failure_message(messages: Seq<Seq<char>>) -> Seq<char> {
    let details = join_with_separator(messages, "; "@);
    if details.len() == 0 {
        "Audio capture did not complete successfully."@
    } else {
        "Audio capture failed: "@ + details
    }
}

/// The parts joined by `separator`.
pub open spec fn join_with_separator(parts: Seq<Seq<char>>, separator: Seq<char>) -> Seq<char>
    decreases parts.len(),
{
    if parts.len() == 0 {
        Seq::empty()
    } else if parts.len() == 1 {
        parts[0]
    } else {
        join_with_separator(parts.drop_last(), separator) + separator + parts.last()
    }
}

/// Builds the message of a capture that did not complete from the worker's error messages.
pub fn capture_failure_message(messages: &[String]) -> (r: String)
    ensures
        r@ == spec_capture_failure_message(messages@.map_values(|m: String| m@)),
{
    let ghost mv = messages@.map_values(|m: String| m@);
    let mut details = String::new();
    let mut k: usize = 0;
    while k < messages.len()
        invariant
            k <= messages.len(),
            mv == messages@.map_values(|m: String| m@),
            details@ == join_with_separator(mv.take(k as int), "; "@),
        decreases messages.len() - k,
    {
        if k > 0 {
            push_str(&mut details, "; ");
        }
        push_str(&mut details, messages[k].as_str());
        proof {
            let t = mv.take(k + 1);
            assert(t.drop_last() =~= mv.take(k as int));
            assert(t.last() == messages@[k as int]@);
            if k == 0 {
                assert(t.len() == 1 && t[0] == messages@[0]@);
            }
        }
        assert(details@ =~= join_with_separator(mv.take(k + 1), "; "@));
        k = k + 1;
    }
    assert(mv.take(messages.len() as int) =~= mv);
    if details.as_str().is_empty() {
        String::from_str("Audio capture did not complete successfully.")
    } else {
        let mut message = String::from_str("Audio capture failed: ");
        push_str(&mut message, details.as_str());
        message
    }
}

} // verus!

verus! {

/// A request to move `meeting_id` from `from` to `to` under `key`.
pub open spec fn is_request(request: MeetingTransitionRequest, meeting_id: Seq<char>, key: Seq<char>, from: MeetingState, to: MeetingState) -> bool {
    &&& request.meeting_id@ == meeting_id
    &&& request.idempotency_key@ == key
    &&& request.expected_state == from
    &&& request.next_state == to
}

/// The key of a recording step that happens once per meeting.
pub open spec fn step_key(step: Seq<char>, meeting_id: Seq<char>) -> Seq<char> {
    "recording-"@ + step + ":"@ + meeting_id
}

/// The key of the `count`-th pause of a meeting's recording, or of the resume after it.
pub open spec fn pause_key(step: Seq<char>, meeting_id: Seq<char>, count: nat) -> Seq<char> {
    step_key(step, meeting_id) + ":"@ + decimal(count)
}

fn step_request(step: &str, meeting_id: &str, from: MeetingState, to: MeetingState) -> (r: MeetingTransitionRequest)
    ensures
        is_request(r, meeting_id@, step_key(step@, meeting_id@), from, to),
{
    let mut key = String::from_str("recording-");
    push_str(&mut key, step);
    push_str(&mut key, ":");
    push_str(&mut key, meeting_id);
    MeetingTransitionRequest {
        meeting_id: meeting_id.to_string(),
        idempotency_key: key,
        expected_state: from,
        next_state: to,
    }
}

/// The transition that starting to record requests: draft to recording, once per meeting.
pub fn start_transition(meeting_id: &str) -> (r: MeetingTransitionRequest)
    ensures
        is_request(r, meeting_id@, step_key("start"@, meeting_id@), MeetingState::Draft, MeetingState::Recording),
        spec_can_transition(r.expected_state, r.next_state),
{
    step_request("start", meeting_id, MeetingState::Draft, MeetingState::Recording)
}

/// A start request passes the checks made before anything runs (see `check_start_request`).
pub open spec fn start_request_allowed(meeting_id: Seq<char>, consent_confirmed: bool, options: StartRecordingOptions) -> bool {
    &&& consent_confirmed
    &&& spec_safe_meeting_id(meeting_id)
    &&& known_capture_mode(options.mode@)
    &&& (options.echo_cancellation ==> options.mode@ == "both"@)
}

/// What starting a recording does once every check has passed: run the capture worker with these
/// arguments, then move the meeting by this transition.
#[derive(Debug)]
pub struct RecordingStart {
    pub arguments: Vec<String>,
    pub transition: MeetingTransitionRequest,
}

/// Decides a start request from everything it depends on: the request itself, the meeting being
/// recorded (if any), whether the meeting's recording directory already exists, and the free
/// space. The checks run in this order, and only a start that passes all of them gets the worker's
/// arguments and the start transition, so a refused start runs nothing and moves no meeting; at
/// most one recording is active at a time.
pub fn plan_recording_start(
    meeting_id: &str,
    consent_confirmed: bool,
    options: &StartRecordingOptions,
    active_meeting: Option<&str>,
    directory_exists: bool,
    available: u64,
) -> (r: Result<RecordingStart, String>)
    ensures
        r is Ok <==> start_request_allowed(meeting_id@, consent_confirmed, *options) && active_meeting is None
            && !directory_exists && available >= RECORDING_PREFLIGHT_BYTES,
        !consent_confirmed ==> (r matches Err(m) && m@ == "Recording requires explicit consent confirmation."@),
        start_request_allowed(meeting_id@, consent_confirmed, *options) ==> match active_meeting {
            Some(id) => r matches Err(m) && m@ == "A recording is already active for meeting "@ + id@ + "."@,
            None => if directory_exists {
                r matches Err(m) && m@ == "A recording directory already exists for this meeting."@
            } else if available < RECORDING_PREFLIGHT_BYTES {
                r matches Err(m) && m@ == spec_low_storage_message(available)
            } else {
                r is Ok
            },
        },
        r matches Ok(start) ==> start.arguments@.map_values(|a: String| a@) == spec_capture_arguments(*options)
            && is_request(start.transition, meeting_id@, step_key("start"@, meeting_id@), MeetingState::Draft, MeetingState::Recording),
{
    check_start_request(meeting_id, consent_confirmed, options)?;
    check_recording_slot(active_meeting)?;
    if directory_exists {
        return Err("A recording directory already exists for this meeting.".to_owned());
    }
    check_storage(available)?;
    Ok(RecordingStart { arguments: capture_arguments(options), transition: start_transition(meeting_id) })
}

/// The transitions that end a capture: recording to processing, then processing to `final_state`
/// (ready when the capture completed, failed when it did not).
pub fn capture_transitions(meeting_id: &str, final_state: MeetingState) -> (r: (MeetingTransitionRequest, MeetingTransitionRequest))
    requires
        final_state == MeetingState::Ready || final_state == MeetingState::Failed,
    ensures
        is_request(r.0, meeting_id@, step_key("process"@, meeting_id@), MeetingState::Recording, MeetingState::Processing),
        is_request(r.1, meeting_id@, step_key("finish"@, meeting_id@), MeetingState::Processing, final_state),
        spec_can_transition(r.0.expected_state, r.0.next_state),
        spec_can_transition(r.1.expected_state, r.1.next_state),
{
    (
        step_request("process", meeting_id, MeetingState::Recording, MeetingState::Processing),
        step_request("finish", meeting_id, MeetingState::Processing, final_state),
    )
}

/// The refusal of a request about another meeting than the one being recorded.
pub open spec fn other_meeting_message(active: Seq<char>) -> Seq<char> {
    "The active recording belongs to meeting "@ + active + "."@
}

/// The part of an active recording that its steps decide on: whose it is, whether it is paused,
/// and how many pauses it had.
#[derive(Debug)]
pub struct RecordingSession {
    pub meeting_id: String,
    pub paused: bool,
    pub pause_count: u32,
}

impl RecordingSession {
    /// A session that has just started recording.
    pub fn new(meeting_id: &str) -> (r: RecordingSession)
        ensures
            r.meeting_id@ == meeting_id@,
            !r.paused,
            r.pause_count == 0,
    {
        RecordingSession { meeting_id: meeting_id.to_string(), paused: false, pause_count: 0 }
    }

    /// Refuses a request about another meeting than the one being recorded.
    pub fn ensure_meeting(&self, meeting_id: &str) -> (r: Result<(), String>)
        ensures
            r is Ok <==> self.meeting_id@ == meeting_id@,
            r matches Err(m) ==> m@ == other_meeting_message(self.meeting_id@),
    {
        if str_equals(self.meeting_id.as_str(), meeting_id) {
            Ok(())
        } else {
            let mut message = String::from_str("The active recording belongs to meeting ");
            push_str(&mut message, self.meeting_id.as_str());
            push_str(&mut message, ".");
            Err(message)
        }
    }

    /// Begins a pause: a paused session needs nothing; otherwise the pause count goes up and the
    /// transition to paused is requested under a key that names this pause.
    pub fn begin_pause(&mut self) -> (r: Option<MeetingTransitionRequest>)
        requires
            old(self).pause_count < u32::MAX,
        ensures
            old(self).paused ==> r is None && *final(self) == *old(self),
            !old(self).paused ==> {
                &&& final(self).pause_count == old(self).pause_count + 1
                &&& final(self).meeting_id == old(self).meeting_id
                &&& final(self).paused == old(self).paused
                &&& r matches Some(request) && is_request(request, old(self).meeting_id@,
                    pause_key("pause"@, old(self).meeting_id@, final(self).pause_count as nat),
                    MeetingState::Recording, MeetingState::Paused)
                &&& spec_can_transition(MeetingState::Recording, MeetingState::Paused)
            },
    {
        if self.paused {
            return None;
        }
        self.pause_count = self.pause_count + 1;
        let mut request = step_request("pause", self.meeting_id.as_str(), MeetingState::Recording, MeetingState::Paused);
        push_str(&mut request.idempotency_key, ":");
        push_decimal(&mut request.idempotency_key, self.pause_count as u64);
        Some(request)
    }

    /// The transition that resuming requests: none when the session is not paused, else paused to
    /// recording under a key that names the pause it ends.
    pub fn resume_request(&self) -> (r: Option<MeetingTransitionRequest>)
        ensures
            !self.paused ==> r is None,
            self.paused ==> (r matches Some(request) && is_request(request, self.meeting_id@,
                pause_key("resume"@, self.meeting_id@, self.pause_count as nat), MeetingState::Paused,
                MeetingState::Recording)),
            spec_can_transition(MeetingState::Paused, MeetingState::Recording),
    {
        if !self.paused {
            return None;
        }
        let mut request = step_request("resume", self.meeting_id.as_str(), MeetingState::Paused, MeetingState::Recording);
        push_str(&mut request.idempotency_key, ":");
        push_decimal(&mut request.idempotency_key, self.pause_count as u64);
        Some(request)
    }

    /// Records that the pause or the resume took effect.
    pub fn set_paused(&mut self, paused: bool)
        ensures
            final(self).paused == paused,
            final(self).meeting_id == old(self).meeting_id,
            final(self).pause_count == old(self).pause_count,
    {
        self.paused = paused;
    }
}

/// Each pause of a recording is requested under its own key, and the resume that ends it under the
/// key of the same pause: pause keys of different counts differ.
pub proof fn lemma_pause_keys_distinct(meeting_id: Seq<char>, a: nat, b: nat)
    requires
        a != b,
    ensures
        pause_key("pause"@, meeting_id, a) != pause_key("pause"@, meeting_id, b),
{
    crate::text::lemma_decimal_injective(a, b);
    let prefix = step_key("pause"@, meeting_id) + ":"@;
    assert(pause_key("pause"@, meeting_id, a) == prefix + decimal(a));
    assert(pause_key("pause"@, meeting_id, b) == prefix + decimal(b));
    if prefix + decimal(a) == prefix + decimal(b) {
        assert(decimal(a) =~= (prefix + decimal(a)).subrange(prefix.len() as int, (prefix + decimal(a)).len() as int));
        assert(decimal(b) =~= (prefix + decimal(b)).subrange(prefix.len() as int, (prefix + decimal(b)).len() as int));
    }
}

} // verus!

verus! {

/// A finished recording: its meeting, its duration and where it is stored.
#[derive(Debug)]
pub struct CompletedRecording {
    pub meeting_id: String,
    pub duration_ms: i64,
    pub recording_path: String,
}

/// What is playing: whose recording and which track, the position, and how many chunks it spans.
#[derive(Debug)]
pub struct PlaybackStatus {
    pub active: bool,
    pub meeting_id: Option<String>,
    pub track: Option<String>,
    pub position_ms: i64,
    pub chunk_count: usize,
}

/// The status when nothing is playing.
pub fn inactive_playback_status() -> (r: PlaybackStatus)
    ensures
        !r.active,
        r.meeting_id is None,
        r.track is None,
        r.position_ms == 0,
        r.chunk_count == 0,
{
    PlaybackStatus { active: false, meeting_id: None, track: None, position_ms: 0, chunk_count: 0 }
}

/// The status of a playback of `track` of a meeting that started at `start_ms` and has run for
/// `elapsed_ms`; the position saturates at the largest `i64`.
pub fn active_playback_status(meeting_id: &str, track: &str, start_ms: i64, elapsed_ms: i64, chunk_count: usize) -> (r: PlaybackStatus)
    requires
        start_ms >= 0,
        elapsed_ms >= 0,
    ensures
        r.active,
        r.meeting_id.deep_view() == Some(meeting_id@),
        r.track.deep_view() == Some(track@),
        r.position_ms == if start_ms + elapsed_ms > i64::MAX { i64::MAX as int } else { start_ms + elapsed_ms },
        r.chunk_count == chunk_count,
{
    let position_ms = if start_ms > i64::MAX - elapsed_ms {
        i64::MAX
    } else {
        start_ms + elapsed_ms
    };
    PlaybackStatus {
        active: true,
        meeting_id: Some(meeting_id.to_string()),
        track: Some(track.to_string()),
        position_ms,
        chunk_count,
    }
}

/// The tracks a recording can play: the microphone, the raw microphone and system audio.
pub open spec fn playable_track(track: Seq<char>) -> bool {
    track == "mic"@ || track == "mic_raw"@ || track == "system"@
}

/// Checks a playback request: a known track and a start that is not negative (absent means the
/// beginning); gives the start.
pub fn check_playback_request(track: &str, start_ms: Option<i64>) -> (r: Result<i64, String>)
    ensures
        r is Ok <==> playable_track(track@) && (start_ms matches Some(s) ==> s >= 0),
        r matches Ok(s) ==> s == match start_ms { Some(s) => s, None => 0 },
        !playable_track(track@) ==> (r matches Err(m) && m@ == "Unsupported recording track."@),
        playable_track(track@) && (start_ms matches Some(s) && s < 0) ==> (r matches Err(m)
            && m@ == "Playback start time cannot be negative."@),
{
    if !str_equals(track, "mic") && !str_equals(track, "mic_raw") && !str_equals(track, "system") {
        return Err("Unsupported recording track.".to_owned());
    }
    let start = match start_ms {
        Some(start) => start,
        None => 0,
    };
    if start < 0 {
        return Err("Playback start time cannot be negative.".to_owned());
    }
    Ok(start)
}

/// The refusal when a track has no captured chunks.
pub fn no_audio_message(track: &str) -> (r: String)
    ensures
        r@ == "No "@ + track@ + " audio was captured for this meeting."@,
{
    let mut message = String::from_str("No ");
    push_str(&mut message, track);
    push_str(&mut message, " audio was captured for this meeting.");
    message
}

/// Whether a stop request covers the current playback: any playback when no meeting is named,
/// else only that meeting's.
pub fn should_stop_playback(active_meeting: Option<&str>, requested: Option<&str>) -> (r: bool)
    ensures
        r == match (active_meeting, requested) {
            (Some(active), Some(wanted)) => active@ == wanted@,
            (Some(_), None) => true,
            (None, _) => false,
        },
{
    match (active_meeting, requested) {
        (Some(active), Some(wanted)) => str_equals(active, wanted),
        (Some(_), None) => true,
        (None, _) => false,
    }
}

/// Whether a running playback already plays what is asked: same meeting, track and start.
pub fn playback_matches(running: bool, active_meeting: &str, active_track: &str, active_start: i64, meeting_id: &str, track: &str, start_ms: i64) -> (r: bool)
    ensures
        r == (running && active_meeting@ == meeting_id@ && active_track@ == track@ && active_start == start_ms),
{
    running && str_equals(active_meeting, meeting_id) && str_equals(active_track, track) && active_start == start_ms
}

/// A path quoted for a concat playlist: single quotes around it, each quote inside closed,
/// escaped and reopened.
pub open spec fn quote_path(path: Seq<char>) -> Seq<char>
    decreases path.len(),
{
    if path.len() == 0 {
        Seq::empty()
    } else {
        quote_path(path.drop_last()) + if path.last() == '\'' {
            "'\\''"@
        } else {
            seq![path.last()]
        }
    }
}

/// The entries of a concat playlist, one line per file.
pub open spec fn playlist_entries(paths: Seq<Seq<char>>) -> Seq<char>
    decreases paths.len(),
{
    if paths.len() == 0 {
        Seq::empty()
    } else {
        playlist_entries(paths.drop_last()) + "file '"@ + quote_path(paths.last()) + "'\n"@
    }
}

/// The concat playlist that plays `paths` in order.
pub open spec fn spec_playlist(paths: Seq<Seq<char>>) -> Seq<char> {
    "ffconcat version 1.0\n"@ + playlist_entries(paths)
}

/// Writes the concat playlist that plays the chunk files in order.
pub fn playlist_text(paths: &[String]) -> (r: String)
    ensures
        r@ == spec_playlist(paths@.map_values(|p: String| p@)),
{
    let ghost pv = paths@.map_values(|p: String| p@);
    let mut text = String::from_str("ffconcat version 1.0\n");
    let mut k: usize = 0;
    while k < paths.len()
        invariant
            k <= paths.len(),
            pv == paths@.map_values(|p: String| p@),
            text@ == "ffconcat version 1.0\n"@ + playlist_entries(pv.take(k as int)),
        decreases paths.len() - k,
    {
        let ghost before = text@;
        push_str(&mut text, "file '");
        let path = char_vec(paths[k].as_str());
        let mut j: usize = 0;
        while j < path.len()
            invariant
                j <= path.len(),
                text@ == before + "file '"@ + quote_path(path@.take(j as int)),
            decreases path.len() - j,
        {
            let c = path[j];
            if c == '\'' {
                push_str(&mut text, "'\\''");
            } else {
                push_char(&mut text, c);
            }
            proof {
                assert(path@.take(j + 1).drop_last() =~= path@.take(j as int));
                assert(path@.take(j + 1).last() == c);
            }
            assert(text@ =~= before + "file '"@ + quote_path(path@.take(j + 1)));
            j = j + 1;
        }
        push_str(&mut text, "'\n");
        proof {
            assert(path@.take(path.len() as int) =~= path@);
            let t = pv.take(k + 1);
            assert(t.drop_last() =~= pv.take(k as int));
            assert(t.last() == paths@[k as int]@);
        }
        assert(text@ =~= "ffconcat version 1.0\n"@ + playlist_entries(pv.take(k + 1)));
        k = k + 1;
    }
    assert(pv.take(paths.len() as int) =~= pv);
    text
}

/// The three-digit millisecond part of a seek position.
pub open spec fn pad3(n: nat) -> Seq<char> {
    if n < 10 {
        "00"@ + decimal(n)
    } else if n < 100 {
        "0"@ + decimal(n)
    } else {
        decimal(n)
    }
}

/// A seek position in seconds with three decimals, as `format!("{:.3}", ms as f64 / 1000.0)`
/// writes a whole number of milliseconds.
pub open spec fn spec_seek_seconds(start_ms: nat) -> Seq<char> {
    decimal(start_ms / 1000) + "."@ + pad3(start_ms % 1000)
}

/// Writes the seek position of a playback that starts at `start_ms`.
pub fn seek_seconds(start_ms: u64) -> (r: String)
    ensures
        r@ == spec_seek_seconds(start_ms as nat),
{
    let mut text = String::new();
    push_decimal(&mut text, start_ms / 1000);
    push_str(&mut text, ".");
    let fraction = start_ms % 1000;
    if fraction < 10 {
        push_str(&mut text, "00");
    } else if fraction < 100 {
        push_str(&mut text, "0");
    }
    push_decimal(&mut text, fraction);
    text
}

} // verus!

verus! {

/// The capture worker is told every choice the user made: it records in the chosen mode with
/// consent, cancels echo when asked, and when a microphone or system-audio source is named, its
/// flag is followed right away by that very source name.
pub proof fn lemma_chosen_sources_are_passed(options: StartRecordingOptions)
    ensures
        ({
            let args = spec_capture_arguments(options);
            &&& args.len() >= 4
            &&& args[0] == "record"@
            &&& args[1] == "--mode"@
            &&& args[2] == options.mode@
            &&& args[3] == "--consent-confirmed"@
            &&& options.echo_cancellation ==> args.contains("--echo-cancel"@)
            &&& (options.mic_source.deep_view() is Some && options.mic_source.deep_view()->Some_0.len() > 0 ==> exists|i: int|
                0 <= i && i + 1 < args.len() && #[trigger] args[i] == "--mic-source"@
                    && args[i + 1] == options.mic_source.deep_view()->Some_0)
            &&& (options.system_source.deep_view() is Some && options.system_source.deep_view()->Some_0.len() > 0 ==> exists|i: int|
                0 <= i && i + 1 < args.len() && #[trigger] args[i] == "--system-source"@
                    && args[i + 1] == options.system_source.deep_view()->Some_0)
        }),
{
    let args = spec_capture_arguments(options);
    let base = seq!["record"@, "--mode"@, options.mode@, "--consent-confirmed"@];
    let echo: Seq<Seq<char>> = if options.echo_cancellation { seq!["--echo-cancel"@] } else { Seq::empty() };
    let mic: Seq<Seq<char>> = if named_source(options.mic_source.deep_view()) {
        seq!["--mic-source"@, options.mic_source.deep_view()->Some_0]
    } else {
        Seq::empty()
    };
    let system: Seq<Seq<char>> = if named_source(options.system_source.deep_view()) {
        seq!["--system-source"@, options.system_source.deep_view()->Some_0]
    } else {
        Seq::empty()
    };
    assert(args =~= base + echo + mic + system);
    assert(args[0] == base[0] && args[1] == base[1] && args[2] == base[2] && args[3] == base[3]);
    if options.echo_cancellation {
        assert(args[4] == "--echo-cancel"@);
    }
    if options.mic_source.deep_view() is Some && options.mic_source.deep_view()->Some_0.len() > 0 {
        let i = (base.len() + echo.len()) as int;
        assert(args[i] == mic[0] && args[i + 1] == mic[1]);
    }
    if options.system_source.deep_view() is Some && options.system_source.deep_view()->Some_0.len() > 0 {
        let i = (base.len() + echo.len() + mic.len()) as int;
        assert(args[i] == system[0] && args[i + 1] == system[1]);
    }
}

} // verus!
