use vstd::prelude::*;
use crate::text::{
    sort_texts, text_le, texts_view,
    chars_lt, ends_with_chars, lemma_text_lt_total, lemma_text_lt_transitive, parse_u64, spec_ends_with, spec_parse_u64, spec_starts_with, starts_with_chars, sub_chars, text_lt,
    char_vec, clock_label, push_str, spec_clock_label, spec_is_whitespace, spec_trim,
    str_equals, string_from_chars, trim_chars, chars_eq, decimal, lines_of, push_char, push_decimal,
    spec_lines, spec_words, split_words, trim, push_repeat, repeat_char,
};
use crate::database::transcripts::join_with_space;
use crate::database::workflow::{meeting_state_label, spec_can_transition, MeetingState, MeetingTransitionRequest};
use crate::database::transcripts::{records_view, TranscriptSegmentInput, TranscriptSegmentInputView, TranscriptSegmentRecord, TranscriptSegmentRecordView};

verus! {

/// A downloadable English model pack for the local transcription engine.
#[derive(Clone, Copy, Debug)]
pub struct ModelSpec {
    pub id: &'static str,
    pub label: &'static str,
    pub filename: &'static str,
    pub download_url: &'static str,
    pub sha1: &'static str,
}

/// A model pack, with its texts as character sequences.
pub struct ModelSpecView {
    pub id: Seq<char>,
    pub label: Seq<char>,
    pub filename: Seq<char>,
    pub download_url: Seq<char>,
    pub sha1: Seq<char>,
}

impl View for ModelSpec {
    type V = ModelSpecView;

    open spec fn view(&self) -> ModelSpecView {
        ModelSpecView {
            id: self.id@,
            label: self.label@,
            filename: self.filename@,
            download_url: self.download_url@,
            sha1: self.sha1@,
        }
    }
}

/// The packs on offer: Fast, Balanced and Accuracy English, each with its published SHA-1.
pub open spec fn spec_model_spec(pack: Seq<char>) -> Result<ModelSpecView, Seq<char>> {
    if pack == "fast"@ {
        Ok(
            ModelSpecView {
                id: "fast"@,
                label: "Fast English"@,
                filename: "ggml-base.en.bin"@,
                download_url: "https://huggingface.co/ggerganov/whisper.cpp/resolve/main/ggml-base.en.bin"@,
                sha1: "137c40403d78fd54d454da0f9bd998f78703390c"@,
            },
        )
    } else if pack == "balanced"@ {
        Ok(
            ModelSpecView {
                id: "balanced"@,
                label: "Balanced English"@,
                filename: "ggml-small.en.bin"@,
                download_url: "https://huggingface.co/ggerganov/whisper.cpp/resolve/main/ggml-small.en.bin"@,
                sha1: "db8a495a91d927739e50b3fc1cc4c6b8f6c2d022"@,
            },
        )
    } else if pack == "accuracy"@ {
        Ok(
            ModelSpecView {
                id: "accuracy"@,
                label: "Accuracy English"@,
                filename: "ggml-medium.en.bin"@,
                download_url: "https://huggingface.co/ggerganov/whisper.cpp/resolve/main/ggml-medium.en.bin"@,
                sha1: "8c30f0e44ce9560643ebd10bbe50cd20eafd3723"@,
            },
        )
    } else {
        Err("Unknown transcription model pack: "@ + pack)
    }
}

/// Looks up a model pack by its identifier.
pub fn model_spec(pack: &str) -> (r: Result<ModelSpec, String>)
    ensures
        match (r, spec_model_spec(pack@)) {
            (Ok(m), Ok(v)) => m@ == v,
            (Err(e), Err(v)) => e@ == v,
            _ => false,
        },
{
    if str_equals(pack, "fast") {
        Ok(
            ModelSpec {
                id: "fast",
                label: "Fast English",
                filename: "ggml-base.en.bin",
                download_url: "https://huggingface.co/ggerganov/whisper.cpp/resolve/main/ggml-base.en.bin",
                sha1: "137c40403d78fd54d454da0f9bd998f78703390c",
            },
        )
    } else if str_equals(pack, "balanced") {
        Ok(
            ModelSpec {
                id: "balanced",
                label: "Balanced English",
                filename: "ggml-small.en.bin",
                download_url: "https://huggingface.co/ggerganov/whisper.cpp/resolve/main/ggml-small.en.bin",
                sha1: "db8a495a91d927739e50b3fc1cc4c6b8f6c2d022",
            },
        )
    } else if str_equals(pack, "accuracy") {
        Ok(
            ModelSpec {
                id: "accuracy",
                label: "Accuracy English",
                filename: "ggml-medium.en.bin",
                download_url: "https://huggingface.co/ggerganov/whisper.cpp/resolve/main/ggml-medium.en.bin",
                sha1: "8c30f0e44ce9560643ebd10bbe50cd20eafd3723",
            },
        )
    } else {
        let mut message = "Unknown transcription model pack: ".to_owned();
        push_str(&mut message, pack);
        Err(message)
    }
}

/// The `MM:SS` label used in transcript exports.
pub fn format_timestamp(milliseconds: i64) -> (r: String)
    ensures
        r@ == spec_clock_label(milliseconds as int),
{
    clock_label(milliseconds)
}

/// Longest silence, in milliseconds, that a passage may span.
pub const MAX_GAP_MS: i64 = 1_500;

/// Longest duration, in milliseconds, of one passage.
pub const MAX_GROUP_MS: i64 = 45_000;

/// Largest number of characters in one passage, exclusive.
pub const MAX_GROUP_CHARACTERS: usize = 600;

/// A segment continues the current passage: same speaker and track, a short pause,
/// a bounded duration and a bounded length.
pub open spec fn continues_passage(current: TranscriptSegmentInputView, next: TranscriptSegmentInputView) -> bool {
    &&& current.speaker_label == next.speaker_label
    &&& current.source_track == next.source_track
    &&& next.start_ms - current.end_ms <= MAX_GAP_MS
    &&& next.end_ms - current.start_ms <= MAX_GROUP_MS
    &&& current.text.len() + next.text.len() < MAX_GROUP_CHARACTERS
}

/// The passage text joined with the next words: a trailing hyphen is dropped,
/// otherwise a space separates them unless the text already ends in whitespace.
pub open spec fn joined_text(current: Seq<char>, next: Seq<char>) -> Seq<char> {
    let head = if current.len() > 0 && current.last() == '-' {
        current.drop_last()
    } else if current.len() == 0 || !spec_is_whitespace(current.last()) {
        current.push(' ')
    } else {
        current
    };
    head + spec_trim(next)
}

/// The passage extended by the next segment.
pub open spec fn extended_passage(current: TranscriptSegmentInputView, next: TranscriptSegmentInputView) -> TranscriptSegmentInputView {
    TranscriptSegmentInputView {
        text: joined_text(current.text, next.text),
        end_ms: if current.end_ms >= next.end_ms { current.end_ms } else { next.end_ms },
        ..current
    }
}

/// The passages after taking in one more segment.
pub open spec fn absorb(groups: Seq<TranscriptSegmentInputView>, next: TranscriptSegmentInputView) -> Seq<TranscriptSegmentInputView> {
    if groups.len() > 0 && continues_passage(groups.last(), next) {
        groups.update(groups.len() - 1, extended_passage(groups.last(), next))
    } else {
        groups.push(next)
    }
}

/// Segments grouped, in order, into readable passages.
pub open spec fn spec_passages(segs: Seq<TranscriptSegmentInputView>) -> Seq<TranscriptSegmentInputView>
    decreases segs.len(),
{
    if segs.len() == 0 {
        Seq::empty()
    } else {
        absorb(spec_passages(segs.drop_last()), segs.last())
    }
}

/// The views of a list of segments to store.
pub open spec fn inputs_view(s: Seq<TranscriptSegmentInput>) -> Seq<TranscriptSegmentInputView> {
    s.map_values(|x: TranscriptSegmentInput| x@)
}

fn opt_eq(a: &Option<String>, b: &Option<String>) -> (r: bool)
    ensures
        r == (a.deep_view() == b.deep_view()),
{
    crate::text::opt_str_eq(a, b)
}

fn continues_passage_exec(current: &TranscriptSegmentInput, next: &TranscriptSegmentInput) -> (r: bool)
    ensures
        r == continues_passage(current@, next@),
{
    if !opt_eq(&current.speaker_label, &next.speaker_label) || !opt_eq(&current.source_track, &next.source_track) {
        return false;
    }
    if (next.start_ms as i128) - (current.end_ms as i128) > MAX_GAP_MS as i128 {
        return false;
    }
    if (next.end_ms as i128) - (current.start_ms as i128) > MAX_GROUP_MS as i128 {
        return false;
    }
    let a = char_vec(current.text.as_str()).len();
    let b = char_vec(next.text.as_str()).len();
    a < MAX_GROUP_CHARACTERS && b < MAX_GROUP_CHARACTERS && a + b < MAX_GROUP_CHARACTERS
}

fn join_text(current: &String, next: &String) -> (r: String)
    ensures
        r@ == joined_text(current@, next@),
{
    let mut chars = char_vec(current.as_str());
    let n = chars.len();
    if n > 0 && chars[n - 1] == '-' {
        chars.pop();
        assert(chars@ =~= current@.drop_last());
    } else if n == 0 || !crate::text::is_whitespace(chars[n - 1]) {
        chars.push(' ');
    }
    let tail_chars = char_vec(next.as_str());
    let tail = trim_chars(tail_chars.as_slice());
    let mut k: usize = 0;
    let ghost head = chars@;
    while k < tail.len()
        invariant
            k <= tail.len(),
            chars@ == head + tail@.take(k as int),
        decreases tail.len() - k,
    {
        chars.push(tail[k]);
        assert(tail@.take(k + 1) =~= tail@.take(k as int).push(tail@[k as int]));
        k = k + 1;
    }
    assert(tail@.take(tail.len() as int) =~= tail@);
    string_from_chars(chars.as_slice())
}

/// Groups adjacent segments of continuous speech into readable passages,
/// keeping pauses, speaker changes and track changes as boundaries.
pub fn merge_continuous_segments(segments: Vec<TranscriptSegmentInput>) -> (grouped: Vec<TranscriptSegmentInput>)
    ensures
        inputs_view(grouped@) == spec_passages(inputs_view(segments@)),
{
    let ghost sv = inputs_view(segments@);
    let mut grouped: Vec<TranscriptSegmentInput> = Vec::new();
    let mut i: usize = 0;
    while i < segments.len()
        invariant
            i <= segments.len(),
            sv == inputs_view(segments@),
            inputs_view(grouped@) == spec_passages(sv.take(i as int)),
        decreases segments.len() - i,
    {
        let segment = &segments[i];
        let ghost gv = inputs_view(grouped@);
        proof {
            assert(sv.take(i + 1).drop_last() =~= sv.take(i as int));
            assert(sv.take(i + 1).last() == segment@);
        }
        let n = grouped.len();
        if n > 0 && continues_passage_exec(&grouped[n - 1], segment) {
            let current = grouped.pop().unwrap();
            assert(current@ == gv.last());
            let text = join_text(&current.text, &segment.text);
            let end_ms = if current.end_ms >= segment.end_ms { current.end_ms } else { segment.end_ms };
            let merged = TranscriptSegmentInput {
                start_ms: current.start_ms,
                end_ms,
                speaker_label: current.speaker_label,
                source_track: current.source_track,
                text,
            };
            grouped.push(merged);
            assert(inputs_view(grouped@) =~= absorb(gv, segment@));
        } else {
            grouped.push(segment.clone_input());
            assert(inputs_view(grouped@) =~= absorb(gv, segment@));
        }
        i = i + 1;
    }
    assert(sv.take(segments.len() as int) =~= sv);
    grouped
}

impl TranscriptSegmentInput {
    /// A copy of the segment.
    pub fn clone_input(&self) -> (r: TranscriptSegmentInput)
        ensures
            r@ == self@,
    {
        TranscriptSegmentInput {
            start_ms: self.start_ms,
            end_ms: self.end_ms,
            speaker_label: crate::text::clone_opt_string(&self.speaker_label),
            source_track: crate::text::clone_opt_string(&self.source_track),
            text: self.text.clone(),
        }
    }
}

} // verus!

verus! {

/// A recording chunk of the track: `{track}-` first and `.wav` last.
pub open spec fn is_chunk_name(name: Seq<char>, track: Seq<char>) -> bool {
    spec_starts_with(name, track.push('-')) && spec_ends_with(name, ".wav"@)
}

/// The chunk that sorts last among the chunk names of the track.
pub open spec fn is_latest_chunk(names: Seq<Seq<char>>, track: Seq<char>, c: Seq<char>) -> bool {
    &&& names.contains(c)
    &&& is_chunk_name(c, track)
    &&& forall|k: int| 0 <= k < names.len() && is_chunk_name(#[trigger] names[k], track) ==> names[k] == c || text_lt(names[k], c)
}

/// The chunk number written between the `{track}-` prefix and the `.wav` suffix.
pub open spec fn chunk_index_text(name: Seq<char>, track: Seq<char>) -> Seq<char> {
    name.subrange(track.len() + 1 as int, name.len() - 4)
}

/// The refusal when the latest chunk of a track has no readable number.
pub open spec fn chunk_index_error(track: Seq<char>) -> Seq<char> {
    "Could not read the "@ + track + " chunk index."@
}

proof fn lemma_chunk_name_lengths(name: Seq<char>, track: Seq<char>)
    requires
        is_chunk_name(name, track),
    ensures
        track.len() + 1 + 4 <= name.len(),
{
    reveal_strlit(".wav");
    let p = track.push('-');
    if name.len() < track.len() + 1 + 4 {
        let k = track.len() as int;
        let off = name.len() - 4;
        assert(name.take(p.len() as int)[k] == '-');
        assert(name.skip(off)[k - off] == ".wav"@[k - off]);
    }
}

/// Picks the last chunk of a track among the file names of a recording directory and
/// reads its chunk number.
pub fn latest_wav_chunk(names: &[String], track: &str) -> (r: Result<Option<(String, u64)>, String>)
    ensures
        match r {
            Ok(None) => forall|k: int| 0 <= k < names.len() ==> !is_chunk_name(#[trigger] names@[k]@, track@),
            Ok(Some((name, index))) => is_latest_chunk(texts_view(names@), track@, name@)
                && spec_parse_u64(chunk_index_text(name@, track@)) == Some(index),
            Err(e) => exists|c: Seq<char>| is_latest_chunk(texts_view(names@), track@, c)
                && spec_parse_u64(chunk_index_text(c, track@)) is None && e@ == chunk_index_error(track@),
        },
{
    let ghost nv = texts_view(names@);
    let mut prefix = char_vec(track);
    prefix.push('-');
    let suffix = char_vec(".wav");
    let mut best: Option<usize> = None;
    let mut best_chars: Vec<char> = Vec::new();
    let mut i: usize = 0;
    while i < names.len()
        invariant
            i <= names.len(),
            nv == texts_view(names@),
            prefix@ == track@.push('-'),
            suffix@ == ".wav"@,
            match best {
                None => forall|k: int| 0 <= k < i ==> !is_chunk_name(#[trigger] nv[k], track@),
                Some(b) => b < i && best_chars@ == nv[b as int] && is_chunk_name(nv[b as int], track@)
                    && forall|k: int| 0 <= k < i && is_chunk_name(#[trigger] nv[k], track@) ==> nv[k] == nv[b as int] || text_lt(nv[k], nv[b as int]),
            },
        decreases names.len() - i,
    {
        let chars = char_vec(names[i].as_str());
        assert(nv[i as int] == names@[i as int]@);
        if starts_with_chars(chars.as_slice(), prefix.as_slice()) && ends_with_chars(chars.as_slice(), suffix.as_slice()) {
            match best {
                None => {
                    best = Some(i);
                    best_chars = chars;
                },
                Some(b) => {
                    if chars_lt(&best_chars, &chars) {
                        proof {
                            assert forall|k: int| 0 <= k < i + 1 && is_chunk_name(#[trigger] nv[k], track@) implies nv[k] == nv[i as int] || text_lt(nv[k], nv[i as int]) by {
                                if k < i && nv[k] != nv[b as int] {
                                    lemma_text_lt_transitive(nv[k], nv[b as int], nv[i as int]);
                                }
                            }
                        }
                        best = Some(i);
                        best_chars = chars;
                    } else {
                        proof {
                            lemma_text_lt_total(nv[i as int], nv[b as int]);
                        }
                    }
                },
            }
        }
        i = i + 1;
    }
    match best {
        None => {
            proof {
                assert forall|k: int| 0 <= k < names.len() implies !is_chunk_name(#[trigger] names@[k]@, track@) by {
                    assert(nv[k] == names@[k]@);
                }
            }
            Ok(None)
        },
        Some(b) => {
            proof {
                lemma_chunk_name_lengths(best_chars@, track@);
                assert(nv.contains(nv[b as int]));
            }
            let digits = sub_chars(best_chars.as_slice(), prefix.len(), best_chars.len() - 4);
            let digit_text = string_from_chars(digits.as_slice());
            match parse_u64(digit_text.as_str()) {
                Some(index) => Ok(Some((names[b].clone(), index))),
                None => {
                    let mut message = "Could not read the ".to_owned();
                    push_str(&mut message, track);
                    push_str(&mut message, " chunk index.");
                    assert(is_latest_chunk(nv, track@, best_chars@));
                    assert(digits@ == chunk_index_text(best_chars@, track@));
                    assert(message@ == chunk_index_error(track@));
                    Err(message)
                },
            }
        },
    }
}

} // verus!

verus! {

/// The names of the track's chunks, in directory order.
pub open spec fn chunk_names(names: Seq<Seq<char>>, track: Seq<char>) -> Seq<Seq<char>>
    decreases names.len(),
{
    if names.len() == 0 {
        names
    } else {
        let rest = chunk_names(names.drop_last(), track);
        if is_chunk_name(names.last(), track) {
            rest.push(names.last())
        } else {
            rest
        }
    }
}

/// The track's chunks in the order in which they were recorded: sorted by name.
pub open spec fn spec_wav_chunks(names: Seq<Seq<char>>, track: Seq<char>) -> Seq<Seq<char>> {
    chunk_names(names, track).sort_by(|a: Seq<char>, b: Seq<char>| text_le(a, b))
}

/// The names of a track's recorded chunks among the file names of a recording directory, sorted.
pub fn wav_chunks(names: &[String], track: &str) -> (r: Vec<String>)
    ensures
        texts_view(r@) == spec_wav_chunks(texts_view(names@), track@),
{
    let ghost nv = texts_view(names@);
    let mut prefix = char_vec(track);
    prefix.push('-');
    let suffix = char_vec(".wav");
    let mut found: Vec<String> = Vec::new();
    let mut i: usize = 0;
    while i < names.len()
        invariant
            i <= names.len(),
            nv == texts_view(names@),
            prefix@ == track@.push('-'),
            suffix@ == ".wav"@,
            texts_view(found@) == chunk_names(nv.take(i as int), track@),
        decreases names.len() - i,
    {
        let chars = char_vec(names[i].as_str());
        proof {
            assert(nv.take(i + 1).drop_last() =~= nv.take(i as int));
            assert(nv.take(i + 1).last() == names@[i as int]@);
        }
        let ghost before = texts_view(found@);
        if starts_with_chars(chars.as_slice(), prefix.as_slice()) && ends_with_chars(chars.as_slice(), suffix.as_slice()) {
            found.push(names[i].clone());
            assert(texts_view(found@) =~= before.push(names@[i as int]@));
        }
        i = i + 1;
    }
    assert(nv.take(names.len() as int) =~= nv);
    sort_texts(found)
}

/// One track to prepare for transcription: which chunks, and how its speech is labelled.
pub struct TrackPlan {
    pub id: &'static str,
    pub speaker_label: &'static str,
    pub chunks: Vec<String>,
}

/// A track to transcribe, with its texts as character sequences.
pub struct TrackPlanView {
    pub id: Seq<char>,
    pub speaker_label: Seq<char>,
    pub chunks: Seq<Seq<char>>,
}

impl View for TrackPlan {
    type V = TrackPlanView;

    open spec fn view(&self) -> TrackPlanView {
        TrackPlanView { id: self.id@, speaker_label: self.speaker_label@, chunks: texts_view(self.chunks@) }
    }
}

/// The microphone track comes first, then the meeting audio; a track without chunks is left out.
pub open spec fn spec_track_plans(names: Seq<Seq<char>>) -> Result<Seq<TrackPlanView>, Seq<char>> {
    let mic = spec_wav_chunks(names, "mic"@);
    let system = spec_wav_chunks(names, "system"@);
    if mic.len() == 0 && system.len() == 0 {
        Err("No captured audio tracks are available."@)
    } else {
        let first = if mic.len() > 0 {
            seq![TrackPlanView { id: "mic"@, speaker_label: "Microphone"@, chunks: mic }]
        } else {
            Seq::empty()
        };
        let second = if system.len() > 0 {
            seq![TrackPlanView { id: "system"@, speaker_label: "Meeting audio"@, chunks: system }]
        } else {
            Seq::empty()
        };
        Ok(first + second)
    }
}

/// Decides which captured tracks of a recording directory are transcribed, and from which chunks.
pub fn prepare_transcription_audio(names: &[String]) -> (r: Result<Vec<TrackPlan>, String>)
    ensures
        match (r, spec_track_plans(texts_view(names@))) {
            (Ok(plans), Ok(v)) => plans@.map_values(|p: TrackPlan| p@) == v,
            (Err(e), Err(m)) => e@ == m,
            _ => false,
        },
{
    let mic = wav_chunks(names, "mic");
    let system = wav_chunks(names, "system");
    if mic.len() == 0 && system.len() == 0 {
        return Err("No captured audio tracks are available.".to_owned());
    }
    let mut tracks: Vec<TrackPlan> = Vec::new();
    let has_mic = mic.len() > 0;
    let has_system = system.len() > 0;
    if has_mic {
        tracks.push(TrackPlan { id: "mic", speaker_label: "Microphone", chunks: mic });
    }
    if has_system {
        tracks.push(TrackPlan { id: "system", speaker_label: "Meeting audio", chunks: system });
    }
    assert(tracks@.map_values(|p: TrackPlan| p@) =~= spec_track_plans(texts_view(names@))->Ok_0);
    Ok(tracks)
}

} // verus!

verus! {

/// Which meeting is being transcribed, and whether a live preview is running; each behind its
/// own lock, which the caller holds for the length of the work.
pub struct Transcriber {
    active: std::sync::Mutex<Option<String>>,
    preview_active: std::sync::Mutex<bool>,
}

impl Transcriber {
    /// A transcriber with nothing running.
    pub fn new() -> (r: Transcriber) {
        Transcriber { active: crate::sql::new_lock(None), preview_active: crate::sql::new_lock(false) }
    }

    /// The lock over the meeting being transcribed.
    pub closed spec fn active_lock(self) -> std::sync::Mutex<Option<String>> {
        self.active
    }

    /// The lock over whether a live preview is running.
    pub closed spec fn preview_lock(self) -> std::sync::Mutex<bool> {
        self.preview_active
    }

    /// The meeting being transcribed, if any.
    pub fn active_transcription(&self) -> (r: &std::sync::Mutex<Option<String>>)
        ensures
            *r == self.active_lock(),
    {
        &self.active
    }

    /// Whether a live preview is running.
    pub fn preview_running(&self) -> (r: &std::sync::Mutex<bool>)
        ensures
            *r == self.preview_lock(),
    {
        &self.preview_active
    }
}

/// Refuses a transcription while another one is running.
pub fn check_transcription_slot(active: &Option<String>) -> (r: Result<(), String>)
    ensures
        r is Ok <==> active is None,
        active matches Some(id) ==> (r matches Err(m) && m@ == "Transcription is already running for meeting "@ + id@ + "."@),
{
    match active {
        Some(id) => {
            let mut message = String::from_str("Transcription is already running for meeting ");
            push_str(&mut message, id.as_str());
            push_str(&mut message, ".");
            Err(message)
        },
        None => Ok(()),
    }
}

/// Refuses a live preview while another one is running.
pub fn check_preview_slot(running: bool) -> (r: Result<(), String>)
    ensures
        r is Ok <==> !running,
        r matches Err(m) ==> m@ == "A live transcription update is already running."@,
{
    if running {
        return Err("A live transcription update is already running.".to_owned());
    }
    Ok(())
}

/// A live preview is offered only while the meeting is recording or paused.
pub fn check_live_state(state: MeetingState) -> (r: Result<(), String>)
    ensures
        r is Ok <==> (state == MeetingState::Recording || state == MeetingState::Paused),
        r matches Err(m) ==> m@ == "Live transcription is available only while recording."@,
{
    match state {
        MeetingState::Recording | MeetingState::Paused => Ok(()),
        _ => Err("Live transcription is available only while recording.".to_owned()),
    }
}

/// A meeting is transcribed only once its recording is ready, or again after a failure.
pub fn check_transcribable(state: MeetingState) -> (r: Result<(), String>)
    ensures
        r is Ok <==> (state == MeetingState::Ready || state == MeetingState::Failed),
        r matches Err(m) ==> m@ == "Meeting cannot be transcribed while in state "@ + meeting_state_label(state) + "."@,
{
    match state {
        MeetingState::Ready | MeetingState::Failed => Ok(()),
        _ => {
            let mut message = String::from_str("Meeting cannot be transcribed while in state ");
            push_str(&mut message, state.label());
            push_str(&mut message, ".");
            Err(message)
        },
    }
}

/// The refusal when the chosen model pack is not installed.
pub fn model_missing_message(label: &str) -> (r: String)
    ensures
        r@ == "The "@ + label@ + " transcription model is not installed. Install it from Settings."@,
{
    let mut message = String::from_str("The ");
    push_str(&mut message, label);
    push_str(&mut message, " transcription model is not installed. Install it from Settings.");
    message
}

/// The key of a transcription step of run `run_id`.
pub open spec fn transcription_key(step: Seq<char>, meeting_id: Seq<char>, run_id: nat) -> Seq<char> {
    "transcription-"@ + step + ":"@ + meeting_id + ":"@ + decimal(run_id)
}

fn transcription_request(step: &str, meeting_id: &str, run_id: u64, from: MeetingState, to: MeetingState) -> (r: MeetingTransitionRequest)
    ensures
        r.meeting_id@ == meeting_id@,
        r.idempotency_key@ == transcription_key(step@, meeting_id@, run_id as nat),
        r.expected_state == from,
        r.next_state == to,
{
    let mut key = String::from_str("transcription-");
    push_str(&mut key, step);
    push_str(&mut key, ":");
    push_str(&mut key, meeting_id);
    push_str(&mut key, ":");
    push_decimal(&mut key, run_id);
    MeetingTransitionRequest { meeting_id: meeting_id.to_string(), idempotency_key: key, expected_state: from, next_state: to }
}

/// The transition that starts a transcription run: from the meeting's state to processing.
pub fn transcription_start(meeting_id: &str, run_id: u64, initial: MeetingState) -> (r: MeetingTransitionRequest)
    requires
        initial == MeetingState::Ready || initial == MeetingState::Failed,
    ensures
        r.meeting_id@ == meeting_id@,
        r.idempotency_key@ == transcription_key("start"@, meeting_id@, run_id as nat),
        r.expected_state == initial,
        r.next_state == MeetingState::Processing,
        spec_can_transition(r.expected_state, r.next_state),
{
    transcription_request("start", meeting_id, run_id, initial, MeetingState::Processing)
}

/// The transition that ends a transcription run: processing to ready when the transcript was
/// stored, to failed otherwise.
pub fn transcription_finish(meeting_id: &str, run_id: u64, succeeded: bool) -> (r: MeetingTransitionRequest)
    ensures
        r.meeting_id@ == meeting_id@,
        r.idempotency_key@ == transcription_key("finish"@, meeting_id@, run_id as nat),
        r.expected_state == MeetingState::Processing,
        r.next_state == if succeeded { MeetingState::Ready } else { MeetingState::Failed },
        spec_can_transition(r.expected_state, r.next_state),
{
    let final_state = if succeeded { MeetingState::Ready } else { MeetingState::Failed };
    transcription_request("finish", meeting_id, run_id, MeetingState::Processing, final_state)
}

/// The last line of a process's error output, or `unknown error` when it wrote none.
pub open spec fn last_line_or_unknown(output: Seq<char>) -> Seq<char> {
    let lines = spec_lines(output);
    if lines.len() == 0 {
        "unknown error"@
    } else {
        lines.last()
    }
}

/// The last line of a process's error output, or `unknown error` when it wrote none.
pub fn last_error_line(output: &str) -> (r: String)
    ensures
        r@ == last_line_or_unknown(output@),
{
    let chars = char_vec(output);
    let lines = lines_of(chars.as_slice());
    if lines.len() == 0 {
        return String::from_str("unknown error");
    }
    let last = &lines[lines.len() - 1];
    assert(lines@.map_values(|w: Vec<char>| w@).last() == last@);
    string_from_chars(last.as_slice())
}

/// The refusal when the engine failed on a track, with the last line it wrote.
pub fn engine_failure_message(speaker_label: &str, stderr: &str) -> (r: String)
    ensures
        r@ == "Local transcription failed for "@ + speaker_label@ + ": "@ + last_line_or_unknown(stderr@),
{
    let mut message = String::from_str("Local transcription failed for ");
    push_str(&mut message, speaker_label);
    push_str(&mut message, ": ");
    push_str(&mut message, last_error_line(stderr).as_str());
    message
}

/// The refusal when a setup command failed, with the last line it wrote.
pub fn command_failure_message(action: &str, stderr: &str) -> (r: String)
    ensures
        r@ == "Could not "@ + action@ + ": "@ + last_line_or_unknown(stderr@),
{
    let mut message = String::from_str("Could not ");
    push_str(&mut message, action);
    push_str(&mut message, ": ");
    push_str(&mut message, last_error_line(stderr).as_str());
    message
}

/// Whether a `sha1sum` listing names the expected digest: its first word, or nothing.
pub open spec fn spec_checksum_matches(listing: Seq<char>, expected: Seq<char>) -> bool {
    let words = spec_words(listing);
    (if words.len() > 0 { words[0] } else { Seq::empty() }) == expected
}

/// Checks a downloaded model against its published digest.
pub fn checksum_matches(listing: &str, expected: &str) -> (r: bool)
    ensures
        r == spec_checksum_matches(listing@, expected@),
{
    let chars = char_vec(listing);
    let words = split_words(chars.as_slice());
    let expected_chars = char_vec(expected);
    if words.len() == 0 {
        assert(expected_chars.len() == 0 ==> expected@ =~= Seq::<char>::empty());
        return expected_chars.len() == 0;
    }
    assert(words@.map_values(|w: Vec<char>| w@)[0] == words@[0]@);
    chars_eq(&words[0], &expected_chars)
}

/// Whether a model pack is installed, which it is, its size and the engine version.
#[derive(Debug)]
pub struct TranscriptionModelStatus {
    pub installed: bool,
    pub pack_id: String,
    pub pack: String,
    pub model_bytes: Option<u64>,
    pub engine_version: String,
}

/// The engine version to show: `Not installed` without the engine, else what it reported
/// (trimmed), or `whisper.cpp` when it reported nothing.
pub fn engine_version_label(engine_present: bool, reported: Option<String>) -> (r: String)
    ensures
        !engine_present ==> r@ == "Not installed"@,
        engine_present ==> r@ == match reported {
            Some(text) => if spec_trim(text@).len() > 0 { spec_trim(text@) } else { "whisper.cpp"@ },
            None => "whisper.cpp"@,
        },
{
    if !engine_present {
        return String::from_str("Not installed");
    }
    match reported {
        Some(text) => {
            let trimmed = trim(text.as_str());
            if trimmed.as_str().is_empty() {
                String::from_str("whisper.cpp")
            } else {
                trimmed
            }
        },
        None => String::from_str("whisper.cpp"),
    }
}

/// A line of the live preview: what a track said in its latest chunk.
#[derive(Debug)]
pub struct LiveTranscriptLine {
    pub track_id: String,
    pub speaker_label: String,
    pub chunk_index: u64,
    pub start_ms: u64,
    pub text: String,
}

/// The live preview of a recording in progress.
#[derive(Debug)]
pub struct LiveTranscriptPreview {
    pub lines: Vec<LiveTranscriptLine>,
}

/// The recognised texts, trimmed, without empty ones, joined by spaces.
pub open spec fn spec_preview_text(texts: Seq<Seq<char>>) -> Seq<char> {
    join_with_space(nonblank_trimmed(texts))
}

/// The recognised texts, trimmed, without empty ones.
pub open spec fn nonblank_trimmed(texts: Seq<Seq<char>>) -> Seq<Seq<char>>
    decreases texts.len(),
{
    if texts.len() == 0 {
        Seq::empty()
    } else {
        let before = nonblank_trimmed(texts.drop_last());
        let t = spec_trim(texts.last());
        if t.len() > 0 {
            before.push(t)
        } else {
            before
        }
    }
}

/// The preview line of a track's latest chunk, from what the engine recognised in it; none when
/// it recognised nothing. The chunk starts at a whole minute.
pub fn live_line(track_id: &str, speaker_label: &str, chunk_index: u64, texts: &[String]) -> (r: Option<LiveTranscriptLine>)
    requires
        chunk_index <= u64::MAX / 60_000,
    ensures
        spec_preview_text(texts@.map_values(|t: String| t@)).len() == 0 <==> r is None,
        r matches Some(line) ==> {
            &&& line.track_id@ == track_id@
            &&& line.speaker_label@ == speaker_label@
            &&& line.chunk_index == chunk_index
            &&& line.start_ms == chunk_index * 60_000
            &&& line.text@ == spec_preview_text(texts@.map_values(|t: String| t@))
        },
{
    let ghost tv = texts@.map_values(|t: String| t@);
    let mut text = String::new();
    let mut count: usize = 0;
    let mut k: usize = 0;
    while k < texts.len()
        invariant
            k <= texts.len(),
            tv == texts@.map_values(|t: String| t@),
            count == nonblank_trimmed(tv.take(k as int)).len(),
            count <= k,
            text@ == join_with_space(nonblank_trimmed(tv.take(k as int))),
        decreases texts.len() - k,
    {
        let trimmed = trim(texts[k].as_str());
        let ghost before = nonblank_trimmed(tv.take(k as int));
        proof {
            let t = tv.take(k + 1);
            assert(t.drop_last() =~= tv.take(k as int));
            assert(t.last() == texts@[k as int]@);
        }
        if !trimmed.as_str().is_empty() {
            if count > 0 {
                push_char(&mut text, ' ');
            }
            push_str(&mut text, trimmed.as_str());
            proof {
                let after = before.push(trimmed@);
                assert(after.drop_last() =~= before);
                if before.len() == 0 {
                    assert(after.len() == 1 && after[0] == trimmed@);
                }
            }
            count = count + 1;
        }
        assert(text@ =~= join_with_space(nonblank_trimmed(tv.take(k + 1))));
        k = k + 1;
    }
    assert(tv.take(texts.len() as int) =~= tv);
    proof {
        lemma_nonblank_trimmed_nonempty(tv);
        lemma_join_empty(nonblank_trimmed(tv));
    }
    if text.as_str().is_empty() {
        return None;
    }
    Some(LiveTranscriptLine {
        track_id: track_id.to_string(),
        speaker_label: speaker_label.to_string(),
        chunk_index,
        start_ms: chunk_index * 60_000,
        text,
    })
}

/// The kept texts are not empty.
proof fn lemma_nonblank_trimmed_nonempty(texts: Seq<Seq<char>>)
    ensures
        forall|k: int| 0 <= k < nonblank_trimmed(texts).len() ==> (#[trigger] nonblank_trimmed(texts)[k]).len() > 0,
    decreases texts.len(),
{
    if texts.len() > 0 {
        lemma_nonblank_trimmed_nonempty(texts.drop_last());
        let before = nonblank_trimmed(texts.drop_last());
        let all = nonblank_trimmed(texts);
        assert forall|k: int| 0 <= k < all.len() implies (#[trigger] all[k]).len() > 0 by {
            if k < before.len() {
                assert(all[k] == before[k]);
            }
        }
    }
}

/// Joining nonblank parts gives an empty text only when there are no parts.
proof fn lemma_join_empty(parts: Seq<Seq<char>>)
    requires
        forall|k: int| 0 <= k < parts.len() ==> (#[trigger] parts[k]).len() > 0,
    ensures
        join_with_space(parts).len() == 0 <==> parts.len() == 0,
    decreases parts.len(),
{
    if parts.len() > 1 {
        lemma_join_empty(parts.drop_last());
    }
}

} // verus!

verus! {

/// A segment as the engine recognised it, before it is kept.
#[derive(Debug)]
pub struct RecognizedSegment {
    pub from_ms: i64,
    pub to_ms: i64,
    pub text: String,
}

/// The segments kept from what the engine recognised on a track: those whose trimmed text is not
/// empty, with that text, labelled with the track's speaker and id, in order.
pub open spec fn spec_kept_segments(raw: Seq<RecognizedSegment>, speaker_label: Seq<char>, track_id: Seq<char>) -> Seq<TranscriptSegmentInputView>
    decreases raw.len(),
{
    if raw.len() == 0 {
        Seq::empty()
    } else {
        let before = spec_kept_segments(raw.drop_last(), speaker_label, track_id);
        let last = raw.last();
        let text = spec_trim(last.text@);
        if text.len() > 0 {
            before.push(TranscriptSegmentInputView {
                start_ms: last.from_ms as int,
                end_ms: last.to_ms as int,
                speaker_label: Some(speaker_label),
                source_track: Some(track_id),
                text,
            })
        } else {
            before
        }
    }
}

/// Keeps the segments the engine recognised on a track.
pub fn kept_segments(raw: &[RecognizedSegment], speaker_label: &str, track_id: &str) -> (r: Vec<TranscriptSegmentInput>)
    ensures
        inputs_view(r@) == spec_kept_segments(raw@, speaker_label@, track_id@),
{
    let mut kept: Vec<TranscriptSegmentInput> = Vec::new();
    let mut k: usize = 0;
    while k < raw.len()
        invariant
            k <= raw.len(),
            inputs_view(kept@) == spec_kept_segments(raw@.take(k as int), speaker_label@, track_id@),
        decreases raw.len() - k,
    {
        let segment = &raw[k];
        let text = trim(segment.text.as_str());
        proof {
            let t = raw@.take(k + 1);
            assert(t.drop_last() =~= raw@.take(k as int));
            assert(t.last() == raw@[k as int]);
        }
        if !text.as_str().is_empty() {
            kept.push(TranscriptSegmentInput {
                start_ms: segment.from_ms,
                end_ms: segment.to_ms,
                speaker_label: Some(speaker_label.to_string()),
                source_track: Some(track_id.to_string()),
                text,
            });
        }
        assert(inputs_view(kept@) =~= spec_kept_segments(raw@.take(k + 1), speaker_label@, track_id@));
        k = k + 1;
    }
    assert(raw@.take(raw.len() as int) =~= raw@);
    kept
}

/// One segment comes strictly after another when it starts later, or starts together and ends later.
pub open spec fn after_in_time(a: TranscriptSegmentInputView, b: TranscriptSegmentInputView) -> bool {
    a.start_ms > b.start_ms || (a.start_ms == b.start_ms && a.end_ms > b.end_ms)
}

/// Inserts a segment into a time-ordered list after every segment that does not come after it.
pub open spec fn insert_in_time(sorted: Seq<TranscriptSegmentInputView>, x: TranscriptSegmentInputView) -> Seq<TranscriptSegmentInputView>
    decreases sorted.len(),
{
    if sorted.len() == 0 {
        seq![x]
    } else if after_in_time(sorted.last(), x) {
        insert_in_time(sorted.drop_last(), x).push(sorted.last())
    } else {
        sorted.push(x)
    }
}

/// The segments ordered by start and then end, segments with the same times keeping their order:
/// a stable sort, as `sort_by_key` with the key `(start_ms, end_ms)` performs it.
pub open spec fn spec_time_order(segments: Seq<TranscriptSegmentInputView>) -> Seq<TranscriptSegmentInputView>
    decreases segments.len(),
{
    if segments.len() == 0 {
        Seq::empty()
    } else {
        insert_in_time(spec_time_order(segments.drop_last()), segments.last())
    }
}

/// Inserting at position `p`, found by walking back over the segments that come after `x`.
proof fn lemma_insert_at(sorted: Seq<TranscriptSegmentInputView>, x: TranscriptSegmentInputView, p: int)
    requires
        0 <= p <= sorted.len(),
        forall|k: int| p <= k < sorted.len() ==> after_in_time(#[trigger] sorted[k], x),
        p > 0 ==> !after_in_time(sorted[p - 1], x),
    ensures
        insert_in_time(sorted, x) == sorted.take(p).push(x) + sorted.skip(p),
    decreases sorted.len(),
{
    if sorted.len() == 0 {
        assert(sorted.take(p).push(x) + sorted.skip(p) =~= seq![x]);
    } else if p == sorted.len() {
        assert(sorted.take(p) =~= sorted);
        assert(sorted.skip(p) =~= Seq::<TranscriptSegmentInputView>::empty());
        assert(sorted.take(p).push(x) + sorted.skip(p) =~= sorted.push(x));
    } else {
        assert(after_in_time(sorted.last(), x));
        let front = sorted.drop_last();
        assert forall|k: int| p <= k < front.len() implies after_in_time(#[trigger] front[k], x) by {
            assert(front[k] == sorted[k]);
        }
        if p > 0 {
            assert(front[p - 1] == sorted[p - 1]);
        }
        lemma_insert_at(front, x, p);
        assert(front.take(p) =~= sorted.take(p));
        assert(front.skip(p).push(sorted.last()) =~= sorted.skip(p));
        assert((front.take(p).push(x) + front.skip(p)).push(sorted.last()) =~= sorted.take(p).push(x) + sorted.skip(p));
    }
}

/// Orders segments by start and then end, keeping the order of segments with the same times.
pub fn order_by_time(segments: Vec<TranscriptSegmentInput>) -> (r: Vec<TranscriptSegmentInput>)
    ensures
        inputs_view(r@) == spec_time_order(inputs_view(segments@)),
{
    let ghost input = inputs_view(segments@);
    let mut out: Vec<TranscriptSegmentInput> = Vec::new();
    let mut i: usize = 0;
    while i < segments.len()
        invariant
            i <= segments.len(),
            input == inputs_view(segments@),
            inputs_view(out@) == spec_time_order(input.take(i as int)),
        decreases segments.len() - i,
    {
        let x = segments[i].clone_input();
        let ghost before = inputs_view(out@);
        let mut p: usize = out.len();
        while p > 0 && (out[p - 1].start_ms > x.start_ms || (out[p - 1].start_ms == x.start_ms && out[p - 1].end_ms > x.end_ms))
            invariant
                p <= out.len(),
                before == inputs_view(out@),
                forall|k: int| p <= k < out.len() ==> after_in_time(#[trigger] before[k], x@),
            decreases p,
        {
            assert(before[p - 1] == out@[p - 1]@);
            p = p - 1;
        }
        proof {
            if p > 0 {
                assert(before[p - 1] == out@[p - 1]@);
            }
            lemma_insert_at(before, x@, p as int);
            let t = input.take(i + 1);
            assert(t.drop_last() =~= input.take(i as int));
            assert(t.last() == segments@[i as int]@);
        }
        out.insert(p, x);
        assert(inputs_view(out@) =~= before.take(p as int).push(segments@[i as int]@) + before.skip(p as int));
        i = i + 1;
    }
    assert(input.take(segments.len() as int) =~= input);
    out
}

/// Time ordering lists every segment in order of start and then end.
pub proof fn lemma_time_order_sorted(segments: Seq<TranscriptSegmentInputView>)
    ensures
        forall|a: int, b: int| 0 <= a < b < spec_time_order(segments).len()
            ==> !after_in_time(#[trigger] spec_time_order(segments)[a], #[trigger] spec_time_order(segments)[b]),
        spec_time_order(segments).len() == segments.len(),
    decreases segments.len(),
{
    if segments.len() > 0 {
        lemma_time_order_sorted(segments.drop_last());
        lemma_insert_keeps_order(spec_time_order(segments.drop_last()), segments.last());
    }
}

/// Inserting into a time-ordered list keeps it ordered and adds one segment.
proof fn lemma_insert_keeps_order(sorted: Seq<TranscriptSegmentInputView>, x: TranscriptSegmentInputView)
    requires
        forall|a: int, b: int| 0 <= a < b < sorted.len() ==> !after_in_time(#[trigger] sorted[a], #[trigger] sorted[b]),
    ensures
        forall|a: int, b: int| 0 <= a < b < insert_in_time(sorted, x).len()
            ==> !after_in_time(#[trigger] insert_in_time(sorted, x)[a], #[trigger] insert_in_time(sorted, x)[b]),
        insert_in_time(sorted, x).len() == sorted.len() + 1,
    decreases sorted.len(),
{
    if sorted.len() > 0 {
        let front = sorted.drop_last();
        assert forall|a: int, b: int| 0 <= a < b < front.len() implies !after_in_time(#[trigger] front[a], #[trigger] front[b]) by {
            assert(front[a] == sorted[a] && front[b] == sorted[b]);
        }
        if after_in_time(sorted.last(), x) {
            lemma_insert_keeps_order(front, x);
            lemma_insert_members(front, x);
            let inserted = insert_in_time(front, x);
            let all = insert_in_time(sorted, x);
            assert forall|a: int, b: int| 0 <= a < b < all.len() implies !after_in_time(#[trigger] all[a], #[trigger] all[b]) by {
                if b == all.len() - 1 {
                    assert(all[b] == sorted.last());
                    assert(all[a] == inserted[a]);
                    if inserted[a] != x {
                        let k = choose|k: int| 0 <= k < front.len() && front[k] == inserted[a];
                        assert(front[k] == sorted[k]);
                        assert(!after_in_time(sorted[k], sorted[sorted.len() - 1]));
                    }
                } else {
                    assert(all[a] == inserted[a] && all[b] == inserted[b]);
                }
            }
        } else {
            let all = insert_in_time(sorted, x);
            assert forall|a: int, b: int| 0 <= a < b < all.len() implies !after_in_time(#[trigger] all[a], #[trigger] all[b]) by {
                if b == all.len() - 1 {
                    assert(all[b] == x);
                    assert(all[a] == sorted[a]);
                    if a < sorted.len() - 1 {
                        assert(!after_in_time(sorted[a], sorted[sorted.len() - 1]));
                    }
                } else {
                    assert(all[a] == sorted[a] && all[b] == sorted[b]);
                }
            }
        }
    }
}

/// Every segment of an insertion is the inserted one or was already there.
proof fn lemma_insert_members(sorted: Seq<TranscriptSegmentInputView>, x: TranscriptSegmentInputView)
    ensures
        forall|a: int| 0 <= a < insert_in_time(sorted, x).len() ==> #[trigger] insert_in_time(sorted, x)[a] == x
            || exists|k: int| 0 <= k < sorted.len() && sorted[k] == insert_in_time(sorted, x)[a],
        insert_in_time(sorted, x).len() == sorted.len() + 1,
    decreases sorted.len(),
{
    if sorted.len() > 0 {
        let front = sorted.drop_last();
        lemma_insert_members(front, x);
        let all = insert_in_time(sorted, x);
        if after_in_time(sorted.last(), x) {
            let inserted = insert_in_time(front, x);
            assert forall|a: int| 0 <= a < all.len() implies #[trigger] all[a] == x
                || exists|k: int| 0 <= k < sorted.len() && sorted[k] == all[a] by {
                if a == all.len() - 1 {
                    assert(sorted[sorted.len() - 1] == all[a]);
                } else {
                    assert(all[a] == inserted[a]);
                    if inserted[a] != x {
                        let k = choose|k: int| 0 <= k < front.len() && front[k] == inserted[a];
                        assert(sorted[k] == all[a]);
                    }
                }
            }
        } else {
            assert forall|a: int| 0 <= a < all.len() implies #[trigger] all[a] == x
                || exists|k: int| 0 <= k < sorted.len() && sorted[k] == all[a] by {
                if a < sorted.len() {
                    assert(sorted[a] == all[a]);
                }
            }
        }
    }
}

} // verus!

verus! {

/// The speaker shown for a segment: its label, or `Speaker` when it has none.
pub open spec fn speaker_or_default(label: Option<Seq<char>>) -> Seq<char> {
    match label {
        Some(l) => l,
        None => "Speaker"@,
    }
}

/// One segment of a transcript export, with its time and speaker.
pub open spec fn export_entry(segment: TranscriptSegmentRecordView, markdown: bool) -> Seq<char> {
    let time = spec_clock_label(segment.start_ms);
    let speaker = speaker_or_default(segment.speaker_label);
    if markdown {
        "**["@ + time + "] "@ + speaker + "**  \n"@ + segment.display_text + "\n\n"@
    } else {
        "["@ + time + "] "@ + speaker + ": "@ + segment.display_text + "\n"@
    }
}

/// The segments of a transcript export, in order.
pub open spec fn export_entries(segments: Seq<TranscriptSegmentRecordView>, markdown: bool) -> Seq<char>
    decreases segments.len(),
{
    if segments.len() == 0 {
        Seq::empty()
    } else {
        export_entries(segments.drop_last(), markdown) + export_entry(segments.last(), markdown)
    }
}

/// The title of a transcript export: a Markdown heading, or the title underlined with one `=`
/// per character.
pub open spec fn export_header(title: Seq<char>, markdown: bool) -> Seq<char> {
    if markdown {
        "# "@ + title + "\n\n"@
    } else {
        title + "\n"@ + repeat_char('=', title.len()) + "\n\n"@
    }
}

/// A transcript export: its title, then every segment with its time, speaker and current text.
pub open spec fn spec_transcript_export(title: Seq<char>, segments: Seq<TranscriptSegmentRecordView>, markdown: bool) -> Seq<char> {
    export_header(title, markdown) + export_entries(segments, markdown)
}

/// Appends one segment of a transcript export.
fn push_export_entry(content: &mut String, segment: &TranscriptSegmentRecord, markdown: bool)
    ensures
        final(content)@ == old(content)@ + export_entry(segment@, markdown),
{
    let ghost before = content@;
    let time = format_timestamp(segment.start_ms);
    let speaker: &str = match &segment.speaker_label {
        Some(label) => label.as_str(),
        None => "Speaker",
    };
    if markdown {
        push_str(content, "**[");
        push_str(content, time.as_str());
        push_str(content, "] ");
        push_str(content, speaker);
        push_str(content, "**  \n");
        push_str(content, segment.display_text.as_str());
        push_str(content, "\n\n");
    } else {
        push_str(content, "[");
        push_str(content, time.as_str());
        push_str(content, "] ");
        push_str(content, speaker);
        push_str(content, ": ");
        push_str(content, segment.display_text.as_str());
        push_str(content, "\n");
    }
    assert(content@ =~= before + export_entry(segment@, markdown));
}

/// Writes a transcript export in Markdown or plain text.
pub fn transcript_export_text(title: &str, segments: &[TranscriptSegmentRecord], markdown: bool) -> (r: String)
    ensures
        r@ == spec_transcript_export(title@, records_view(segments@), markdown),
{
    let ghost sv = records_view(segments@);
    let mut content = String::new();
    if markdown {
        push_str(&mut content, "# ");
        push_str(&mut content, title);
        push_str(&mut content, "\n\n");
    } else {
        push_str(&mut content, title);
        push_str(&mut content, "\n");
        let title_chars = char_vec(title);
        push_repeat(&mut content, '=', title_chars.len());
        push_str(&mut content, "\n\n");
    }
    assert(content@ =~= export_header(title@, markdown));
    let mut k: usize = 0;
    while k < segments.len()
        invariant
            k <= segments.len(),
            sv == records_view(segments@),
            content@ == export_header(title@, markdown) + export_entries(sv.take(k as int), markdown),
        decreases segments.len() - k,
    {
        push_export_entry(&mut content, &segments[k], markdown);
        proof {
            let t = sv.take(k + 1);
            assert(t.drop_last() =~= sv.take(k as int));
            assert(t.last() == segments@[k as int]@);
        }
        assert(content@ =~= export_header(title@, markdown) + export_entries(sv.take(k + 1), markdown));
        k = k + 1;
    }
    assert(sv.take(segments.len() as int) =~= sv);
    content
}

/// Reads an export format: `markdown` (true) or `text` (false).
pub fn check_export_format(format: &str) -> (r: Result<bool, String>)
    ensures
        format@ == "markdown"@ ==> r == Ok::<bool, String>(true),
        format@ == "text"@ && format@ != "markdown"@ ==> r == Ok::<bool, String>(false),
        format@ != "markdown"@ && format@ != "text"@ ==> (r matches Err(m) && m@ == "Export format must be markdown or text."@),
{
    if str_equals(format, "markdown") {
        Ok(true)
    } else if str_equals(format, "text") {
        Ok(false)
    } else {
        Err("Export format must be markdown or text.".to_owned())
    }
}

/// Refuses to export a meeting that has no transcript yet.
pub fn check_transcript_present(segments: &[TranscriptSegmentRecord]) -> (r: Result<(), String>)
    ensures
        r is Ok <==> segments.len() > 0,
        r matches Err(m) ==> m@ == "This meeting does not have a transcript yet."@,
{
    if segments.len() == 0 {
        return Err("This meeting does not have a transcript yet.".to_owned());
    }
    Ok(())
}

} // verus!

verus! {

/// Inserting into a time-ordered list adds exactly that segment.
proof fn lemma_insert_in_time_multiset(sorted: Seq<TranscriptSegmentInputView>, x: TranscriptSegmentInputView)
    ensures
        insert_in_time(sorted, x).to_multiset() == sorted.to_multiset().insert(x),
    decreases sorted.len(),
{
    broadcast use vstd::seq_lib::group_to_multiset_ensures;
    if sorted.len() == 0 {
        assert(seq![x] =~= Seq::<TranscriptSegmentInputView>::empty().push(x));
    } else if after_in_time(sorted.last(), x) {
        let front = sorted.drop_last();
        lemma_insert_in_time_multiset(front, x);
        assert(sorted =~= front.push(sorted.last()));
        assert(front.to_multiset().insert(x).insert(sorted.last()) =~= front.to_multiset().insert(sorted.last()).insert(x));
    }
}

/// Time ordering keeps every segment, each as many times as it was given: it is a permutation.
pub proof fn lemma_time_order_permutes(segments: Seq<TranscriptSegmentInputView>)
    ensures
        spec_time_order(segments).to_multiset() == segments.to_multiset(),
    decreases segments.len(),
{
    broadcast use vstd::seq_lib::group_to_multiset_ensures;
    if segments.len() > 0 {
        let front = segments.drop_last();
        lemma_time_order_permutes(front);
        lemma_insert_in_time_multiset(spec_time_order(front), segments.last());
        assert(segments =~= front.push(segments.last()));
    }
}

/// Some segment has the passage's speaker, track and start.
pub open spec fn opened_by_a_segment(segments: Seq<TranscriptSegmentInputView>, passage: TranscriptSegmentInputView) -> bool {
    exists|i: int| 0 <= i < segments.len() && {
        &&& (#[trigger] segments[i]).speaker_label == passage.speaker_label
        &&& segments[i].source_track == passage.source_track
        &&& segments[i].start_ms == passage.start_ms
    }
}

/// Grouping never mixes speakers or tracks and never invents a start: every passage has the
/// speaker, track and start of one of the segments it came from, and there are at most as many
/// passages as segments.
pub proof fn lemma_passages_keep_labels(segments: Seq<TranscriptSegmentInputView>)
    ensures
        spec_passages(segments).len() <= segments.len(),
        forall|k: int| 0 <= k < spec_passages(segments).len() ==> opened_by_a_segment(segments, #[trigger] spec_passages(segments)[k]),
    decreases segments.len(),
{
    if segments.len() > 0 {
        let front = segments.drop_last();
        lemma_passages_keep_labels(front);
        let before = spec_passages(front);
        let after = spec_passages(segments);
        let last = segments.last();
        assert forall|k: int| 0 <= k < after.len() implies opened_by_a_segment(segments, #[trigger] after[k]) by {
            if k < before.len() && (after[k].speaker_label == before[k].speaker_label
                && after[k].source_track == before[k].source_track && after[k].start_ms == before[k].start_ms) {
                assert(opened_by_a_segment(front, before[k]));
                let i = choose|i: int| 0 <= i < front.len() && {
                    &&& (#[trigger] front[i]).speaker_label == before[k].speaker_label
                    &&& front[i].source_track == before[k].source_track
                    &&& front[i].start_ms == before[k].start_ms
                };
                assert(segments[i] == front[i]);
            } else {
                assert(after[k] == last);
                assert(segments[segments.len() - 1] == last);
            }
        }
    }
}

} // verus!

verus! {

/// Trimming never lengthens a text.
proof fn lemma_trim_not_longer(s: Seq<char>)
    ensures
        spec_trim(s).len() <= s.len(),
{
    crate::text::lemma_trim_start_shape(s);
    crate::text::lemma_trim_end_shape(crate::text::trim_start(s));
}

/// A passage lasts at most 45 seconds: when no single segment lasts longer, no grouping of
/// segments does, however many it merges.
pub proof fn lemma_passages_span_at_most_45_seconds(segments: Seq<TranscriptSegmentInputView>)
    requires
        forall|i: int| 0 <= i < segments.len() ==> #[trigger] segments[i].end_ms - segments[i].start_ms <= 45_000,
    ensures
        forall|k: int| 0 <= k < spec_passages(segments).len()
            ==> #[trigger] spec_passages(segments)[k].end_ms - spec_passages(segments)[k].start_ms <= 45_000,
    decreases segments.len(),
{
    if segments.len() > 0 {
        let front = segments.drop_last();
        assert forall|i: int| 0 <= i < front.len() implies #[trigger] front[i].end_ms - front[i].start_ms <= 45_000 by {
            assert(front[i] == segments[i]);
        }
        lemma_passages_span_at_most_45_seconds(front);
        let before = spec_passages(front);
        let last = segments.last();
        assert(last == segments[segments.len() - 1]);
        let after = spec_passages(segments);
        assert forall|k: int| 0 <= k < after.len() implies #[trigger] after[k].end_ms - after[k].start_ms <= 45_000 by {
            if k < before.len() && !(k == before.len() - 1 && continues_passage(before.last(), last)) {
                assert(after[k] == before[k]);
            } else if k == before.len() - 1 && before.len() > 0 && continues_passage(before.last(), last) {
                assert(after[k] == extended_passage(before.last(), last));
                assert(before.last() == before[before.len() - 1]);
            } else {
                assert(after[k] == last);
            }
        }
    }
}

/// A passage holds at most 600 characters: when no single segment holds more, no grouping of
/// segments does, however many it merges.
pub proof fn lemma_passages_stay_within_600_characters(segments: Seq<TranscriptSegmentInputView>)
    requires
        forall|i: int| 0 <= i < segments.len() ==> (#[trigger] segments[i]).text.len() <= 600,
    ensures
        forall|k: int| 0 <= k < spec_passages(segments).len() ==> (#[trigger] spec_passages(segments)[k]).text.len() <= 600,
    decreases segments.len(),
{
    if segments.len() > 0 {
        let front = segments.drop_last();
        assert forall|i: int| 0 <= i < front.len() implies (#[trigger] front[i]).text.len() <= 600 by {
            assert(front[i] == segments[i]);
        }
        lemma_passages_stay_within_600_characters(front);
        let before = spec_passages(front);
        let last = segments.last();
        assert(last == segments[segments.len() - 1]);
        let after = spec_passages(segments);
        lemma_trim_not_longer(last.text);
        assert forall|k: int| 0 <= k < after.len() implies (#[trigger] after[k]).text.len() <= 600 by {
            if k < before.len() && !(k == before.len() - 1 && continues_passage(before.last(), last)) {
                assert(after[k] == before[k]);
            } else if k == before.len() - 1 && before.len() > 0 && continues_passage(before.last(), last) {
                assert(after[k] == extended_passage(before.last(), last));
            } else {
                assert(after[k] == last);
            }
        }
    }
}

} // verus!

verus! {

/// Two segments in a row that stay apart: another speaker or track, a pause longer than 1.5 s, a
/// joint span over 45 s, or 600 characters or more together.
pub open spec fn kept_apart(current: TranscriptSegmentInputView, next: TranscriptSegmentInputView) -> bool {
    ||| current.speaker_label != next.speaker_label
    ||| current.source_track != next.source_track
    ||| next.start_ms - current.end_ms > 1_500
    ||| next.end_ms - current.start_ms > 45_000
    ||| current.text.len() + next.text.len() >= 600
}

/// Grouping joins only continuous speech: when every segment is kept apart from the one before it
/// (a change of speaker or track, a pause over 1.5 s, a span over 45 s or too much text), grouping
/// leaves the segments exactly as they were, one passage each.
pub proof fn lemma_breaks_keep_segments_apart(segments: Seq<TranscriptSegmentInputView>)
    requires
        forall|i: int| 0 < i < segments.len() ==> kept_apart(segments[i - 1], #[trigger] segments[i]),
    ensures
        spec_passages(segments) == segments,
    decreases segments.len(),
{
    if segments.len() > 0 {
        let front = segments.drop_last();
        assert forall|i: int| 0 < i < front.len() implies kept_apart(front[i - 1], #[trigger] front[i]) by {
            assert(front[i - 1] == segments[i - 1] && front[i] == segments[i]);
        }
        lemma_breaks_keep_segments_apart(front);
        if front.len() > 0 {
            let n = segments.len() - 1;
            assert(front.last() == segments[n - 1]);
            assert(kept_apart(segments[n - 1], segments[n]));
        }
        assert(front.push(segments.last()) =~= segments);
    }
}

} // verus!
