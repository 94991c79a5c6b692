use vstd::prelude::*;
use vstd::utf8::{encode_utf8, is_ascii_chars, is_ascii_chars_encode_utf8};
use crate::text::{char_vec, clock_label, push_char, push_repeat, push_str, repeat_char, spec_clock_label, lemma_trim_nonempty, lemma_trimmed_not_blank, spec_is_whitespace, trim_end, trim_end_chars, spec_word_count, word_count, clone_opt_string, contains_chars, is_blank, opt_str_eq, spec_is_blank, str_equals, spec_contains, spec_lowercase, spec_trim, to_lowercase, trim};
use crate::database::transcripts::{TranscriptSegmentRecord, TranscriptSegmentRecordView, records_view};

verus! {

/// How the notes were produced; stored with the notes and checked when they come back.
pub const NOTES_STRATEGY: &'static str = "Local extractive draft; review required";

/// Link from a note to the transcript segment it was taken from.
#[derive(Clone, Debug)]
pub struct EvidenceReference {
    pub segment_id: String,
    pub start_ms: i64,
    pub end_ms: i64,
    pub source_track: Option<String>,
}

/// A citation, with its texts as character sequences.
pub struct EvidenceView {
    pub segment_id: Seq<char>,
    pub start_ms: int,
    pub end_ms: int,
    pub source_track: Option<Seq<char>>,
}

impl View for EvidenceReference {
    type V = EvidenceView;

    open spec fn view(&self) -> EvidenceView {
        EvidenceView {
            segment_id: self.segment_id@,
            start_ms: self.start_ms as int,
            end_ms: self.end_ms as int,
            source_track: self.source_track.deep_view(),
        }
    }
}

/// The views of a list of citations.
pub open spec fn evidence_view(s: Seq<EvidenceReference>) -> Seq<EvidenceView> {
    s.map_values(|e: EvidenceReference| e@)
}

/// A passage of the notes with the evidence that supports it.
#[derive(Clone, Debug)]
pub struct GroundedNote {
    pub text: String,
    pub evidence: Vec<EvidenceReference>,
}

/// A grounded note, with its texts as character sequences.
pub struct GroundedNoteView {
    pub text: Seq<char>,
    pub evidence: Seq<EvidenceView>,
}

impl View for GroundedNote {
    type V = GroundedNoteView;

    open spec fn view(&self) -> GroundedNoteView {
        GroundedNoteView { text: self.text@, evidence: evidence_view(self.evidence@) }
    }
}

/// The views of a list of grounded notes.
pub open spec fn grounded_view(s: Seq<GroundedNote>) -> Seq<GroundedNoteView> {
    s.map_values(|n: GroundedNote| n@)
}

/// An action item with its owner, due date and evidence.
#[derive(Clone, Debug)]
pub struct ActionNote {
    pub text: String,
    pub owner: String,
    pub due_date: String,
    pub evidence: Vec<EvidenceReference>,
}

/// An action, with its texts as character sequences.
pub struct ActionNoteView {
    pub text: Seq<char>,
    pub owner: Seq<char>,
    pub due_date: Seq<char>,
    pub evidence: Seq<EvidenceView>,
}

impl View for ActionNote {
    type V = ActionNoteView;

    open spec fn view(&self) -> ActionNoteView {
        ActionNoteView {
            text: self.text@,
            owner: self.owner@,
            due_date: self.due_date@,
            evidence: evidence_view(self.evidence@),
        }
    }
}

/// The views of a list of actions.
pub open spec fn action_view(s: Seq<ActionNote>) -> Seq<ActionNoteView> {
    s.map_values(|n: ActionNote| n@)
}

/// Structured notes of one meeting.
#[derive(Clone, Debug)]
pub struct MeetingNotes {
    pub meeting_id: String,
    pub strategy: String,
    pub approved: bool,
    pub stale: bool,
    pub overview: Vec<GroundedNote>,
    pub topics: Vec<GroundedNote>,
    pub decisions: Vec<GroundedNote>,
    pub actions: Vec<ActionNote>,
    pub questions: Vec<GroundedNote>,
    pub risks: Vec<GroundedNote>,
    pub next_steps: Vec<GroundedNote>,
}

/// Meeting notes, with their texts as character sequences.
pub struct MeetingNotesView {
    pub meeting_id: Seq<char>,
    pub strategy: Seq<char>,
    pub approved: bool,
    pub stale: bool,
    pub overview: Seq<GroundedNoteView>,
    pub topics: Seq<GroundedNoteView>,
    pub decisions: Seq<GroundedNoteView>,
    pub actions: Seq<ActionNoteView>,
    pub questions: Seq<GroundedNoteView>,
    pub risks: Seq<GroundedNoteView>,
    pub next_steps: Seq<GroundedNoteView>,
}

impl View for MeetingNotes {
    type V = MeetingNotesView;

    open spec fn view(&self) -> MeetingNotesView {
        MeetingNotesView {
            meeting_id: self.meeting_id@,
            strategy: self.strategy@,
            approved: self.approved,
            stale: self.stale,
            overview: grounded_view(self.overview@),
            topics: grounded_view(self.topics@),
            decisions: grounded_view(self.decisions@),
            actions: action_view(self.actions@),
            questions: grounded_view(self.questions@),
            risks: grounded_view(self.risks@),
            next_steps: grounded_view(self.next_steps@),
        }
    }
}

/// The evidence reference that points at a segment.
pub open spec fn spec_evidence_of(s: TranscriptSegmentRecordView) -> EvidenceView {
    EvidenceView {
        segment_id: s.id,
        start_ms: s.start_ms,
        end_ms: s.end_ms,
        source_track: s.source_track,
    }
}

/// The note quoting a segment: its trimmed display text, citing that segment.
pub open spec fn spec_grounded(s: TranscriptSegmentRecordView) -> GroundedNoteView {
    GroundedNoteView { text: spec_trim(s.display_text), evidence: seq![spec_evidence_of(s)] }
}

/// The action item quoting a segment; owner and due date are left unspecified.
pub open spec fn spec_action(s: TranscriptSegmentRecordView) -> ActionNoteView {
    ActionNoteView {
        text: spec_trim(s.display_text),
        owner: "Not specified"@,
        due_date: "Not specified"@,
        evidence: seq![spec_evidence_of(s)],
    }
}

/// Some marker occurs in the lowercased text.
pub open spec fn spec_has_marker(text: Seq<char>, markers: Seq<Seq<char>>) -> bool {
    exists|k: int| 0 <= k < markers.len() && spec_contains(spec_lowercase(text), #[trigger] markers[k])
}

/// The views of a list of string slices.
pub open spec fn str_views(s: Seq<&str>) -> Seq<Seq<char>> {
    s.map_values(|m: &str| m@)
}

/// The segments, in order, whose display text holds one of the markers.
pub open spec fn marked_segments(segs: Seq<TranscriptSegmentRecordView>, markers: Seq<Seq<char>>) -> Seq<TranscriptSegmentRecordView>
    decreases segs.len(),
{
    if segs.len() == 0 {
        segs
    } else {
        let rest = marked_segments(segs.drop_last(), markers);
        if spec_has_marker(segs.last().display_text, markers) {
            rest.push(segs.last())
        } else {
            rest
        }
    }
}

/// The first `n` items of `s`, or all of them when there are fewer.
pub open spec fn first_n<A>(s: Seq<A>, n: nat) -> Seq<A> {
    if s.len() <= n {
        s
    } else {
        s.take(n as int)
    }
}

/// Taking the first `n` of a longer list keeps the first `n` once there are that many.
pub proof fn lemma_first_n_push<A>(s: Seq<A>, x: A, n: nat)
    ensures
        first_n(s.push(x), n) == if s.len() < n { s.push(x) } else { first_n(s, n) },
{
    if s.len() >= n {
        assert(s.push(x).take(n as int) =~= s.take(n as int));
        if s.len() == n {
            assert(s.take(n as int) =~= s);
        }
    }
}

/// Builds the note quoting one segment.
pub fn grounded(segment: &TranscriptSegmentRecord) -> (note: GroundedNote)
    ensures
        note@ == spec_grounded(segment@),
{
    let evidence = EvidenceReference::from_segment(segment);
    let mut list: Vec<EvidenceReference> = Vec::new();
    list.push(evidence);
    let note = GroundedNote { text: trim(segment.display_text.as_str()), evidence: list };
    assert(note@.evidence =~= seq![spec_evidence_of(segment@)]);
    note
}

impl EvidenceReference {
    /// The reference that cites `segment`.
    pub fn from_segment(segment: &TranscriptSegmentRecord) -> (r: EvidenceReference)
        ensures
            r@ == spec_evidence_of(segment@),
    {
        EvidenceReference {
            segment_id: segment.id.clone(),
            start_ms: segment.start_ms,
            end_ms: segment.end_ms,
            source_track: clone_opt_string(&segment.source_track),
        }
    }
}

/// Whether the lowercased text holds one of the markers.
pub fn contains_marker(text: &str, markers: &[&str]) -> (r: bool)
    ensures
        r == spec_has_marker(text@, str_views(markers@)),
{
    let lower = to_lowercase(text);
    let hay = char_vec(lower.as_str());
    let mut k: usize = 0;
    while k < markers.len()
        invariant
            k <= markers.len(),
            hay@ == spec_lowercase(text@),
            forall|m: int| 0 <= m < k ==> !spec_contains(spec_lowercase(text@), #[trigger] str_views(markers@)[m]),
        decreases markers.len() - k,
    {
        let needle = char_vec(markers[k]);
        if contains_chars(hay.as_slice(), needle.as_slice()) {
            assert(str_views(markers@)[k as int] == needle@);
            return true;
        }
        k = k + 1;
    }
    false
}

/// Notes quoting the first `limit` segments whose text holds one of the markers.
pub fn select_segments(segments: &[TranscriptSegmentRecord], markers: &[&str], limit: usize) -> (notes: Vec<GroundedNote>)
    ensures
        grounded_view(notes@) == first_n(marked_segments(records_view(segments@), str_views(markers@)), limit as nat).map_values(|s: TranscriptSegmentRecordView| spec_grounded(s)),
{
    let ghost segs = records_view(segments@);
    let ghost ms = str_views(markers@);
    let mut notes: Vec<GroundedNote> = Vec::new();
    let mut i: usize = 0;
    while i < segments.len()
        invariant
            i <= segments.len(),
            segs == records_view(segments@),
            ms == str_views(markers@),
            notes@.len() == first_n(marked_segments(segs.take(i as int), ms), limit as nat).len(),
            grounded_view(notes@) == first_n(marked_segments(segs.take(i as int), ms), limit as nat).map_values(|s: TranscriptSegmentRecordView| spec_grounded(s)),
        decreases segments.len() - i,
    {
        let ghost before = marked_segments(segs.take(i as int), ms);
        proof {
            assert(segs.take(i + 1).drop_last() =~= segs.take(i as int));
            assert(segs.take(i + 1).last() == segments@[i as int]@);
        }
        if contains_marker(segments[i].display_text.as_str(), markers) {
            proof {
                lemma_first_n_push(before, segments@[i as int]@, limit as nat);
            }
            if notes.len() < limit {
                let note = grounded(&segments[i]);
                let ghost prev = grounded_view(notes@);
                notes.push(note);
                proof {
                    let t = segs.take(i + 1);
                    assert(marked_segments(t, ms) == before.push(segments@[i as int]@));
                    assert(first_n(before, limit as nat) == before);
                    assert(grounded_view(notes@) =~= prev.push(spec_grounded(segments@[i as int]@)));
                }
                assert(grounded_view(notes@) =~= first_n(marked_segments(segs.take(i + 1), ms), limit as nat).map_values(|s: TranscriptSegmentRecordView| spec_grounded(s)));
            }
        }
        i = i + 1;
    }
    assert(segs.take(segments.len() as int) =~= segs);
    notes
}

} // verus!

verus! {

/// A reference names a segment and a well-ordered, non-negative time span.
pub open spec fn spec_evidence_well_formed(e: EvidenceView) -> bool {
    e.segment_id.len() > 0 && e.start_ms >= 0 && e.end_ms >= e.start_ms
}

/// A note has text and at least one well-formed reference.
pub open spec fn spec_validate_grounded(n: GroundedNoteView) -> bool {
    &&& !spec_is_blank(n.text)
    &&& n.evidence.len() > 0
    &&& forall|k: int| 0 <= k < n.evidence.len() ==> spec_evidence_well_formed(#[trigger] n.evidence[k])
}

/// A reference matches a segment of the transcript in identity, timing and track.
pub open spec fn spec_evidence_exists(e: EvidenceView, segs: Seq<TranscriptSegmentRecordView>) -> bool {
    exists|k: int| 0 <= k < segs.len() && spec_evidence_of(#[trigger] segs[k]) == e
}

/// Every reference of the list matches a segment of the transcript.
pub open spec fn spec_all_evidence_exists(ev: Seq<EvidenceView>, segs: Seq<TranscriptSegmentRecordView>) -> bool {
    forall|k: int| 0 <= k < ev.len() ==> spec_evidence_exists(#[trigger] ev[k], segs)
}

/// A note is well formed and every citation of it matches a segment of the transcript.
pub open spec fn spec_note_supported(n: GroundedNoteView, segs: Seq<TranscriptSegmentRecordView>) -> bool {
    spec_validate_grounded(n) && spec_all_evidence_exists(n.evidence, segs)
}

/// An action says what, who and when, and cites the transcript exactly.
pub open spec fn spec_action_supported(a: ActionNoteView, segs: Seq<TranscriptSegmentRecordView>) -> bool {
    &&& !spec_is_blank(a.text)
    &&& !spec_is_blank(a.owner)
    &&& !spec_is_blank(a.due_date)
    &&& a.evidence.len() > 0
    &&& spec_all_evidence_exists(a.evidence, segs)
}

/// Every note of the list is supported by the transcript.
pub open spec fn spec_notes_supported(notes: Seq<GroundedNoteView>, segs: Seq<TranscriptSegmentRecordView>) -> bool {
    forall|k: int| 0 <= k < notes.len() ==> spec_note_supported(#[trigger] notes[k], segs)
}

/// Every action of the list is supported by the transcript.
pub open spec fn spec_actions_supported(actions: Seq<ActionNoteView>, segs: Seq<TranscriptSegmentRecordView>) -> bool {
    forall|k: int| 0 <= k < actions.len() ==> spec_action_supported(#[trigger] actions[k], segs)
}

/// Every item of the notes is supported by the transcript.
pub open spec fn spec_notes_grounded(n: MeetingNotesView, segs: Seq<TranscriptSegmentRecordView>) -> bool {
    &&& spec_notes_supported(n.overview, segs)
    &&& spec_notes_supported(n.topics, segs)
    &&& spec_notes_supported(n.decisions, segs)
    &&& spec_notes_supported(n.questions, segs)
    &&& spec_notes_supported(n.risks, segs)
    &&& spec_notes_supported(n.next_steps, segs)
    &&& spec_actions_supported(n.actions, segs)
}

/// What `validate_notes` decides: identity first, then evidence.
pub open spec fn spec_validate_notes(n: MeetingNotesView, segs: Seq<TranscriptSegmentRecordView>) -> Result<(), Seq<char>> {
    if spec_is_blank(n.meeting_id) || n.strategy != NOTES_STRATEGY@ {
        Err("Meeting notes have invalid identity or provenance."@)
    } else if !spec_notes_grounded(n, segs) {
        Err("Generated notes failed evidence validation."@)
    } else {
        Ok(())
    }
}

/// Whether a note has text and well-formed references.
pub fn validate_grounded(note: &GroundedNote) -> (r: bool)
    ensures
        r == spec_validate_grounded(note@),
{
    if is_blank(note.text.as_str()) || note.evidence.len() == 0 {
        return false;
    }
    let mut k: usize = 0;
    while k < note.evidence.len()
        invariant
            k <= note.evidence.len(),
            forall|m: int| 0 <= m < k ==> spec_evidence_well_formed(#[trigger] note@.evidence[m]),
        decreases note.evidence.len() - k,
    {
        let e = &note.evidence[k];
        if e.segment_id.as_str().is_empty() || e.start_ms < 0 || e.end_ms < e.start_ms {
            assert(note@.evidence[k as int] == e@);
            return false;
        }
        k = k + 1;
    }
    true
}

/// Whether a reference matches one of the segments.
pub fn evidence_exists(evidence: &EvidenceReference, segments: &[TranscriptSegmentRecord]) -> (r: bool)
    ensures
        r == spec_evidence_exists(evidence@, records_view(segments@)),
{
    let ghost segs = records_view(segments@);
    let mut k: usize = 0;
    while k < segments.len()
        invariant
            k <= segments.len(),
            segs == records_view(segments@),
            forall|m: int| 0 <= m < k ==> spec_evidence_of(#[trigger] segs[m]) != evidence@,
        decreases segments.len() - k,
    {
        let s = &segments[k];
        if str_equals(s.id.as_str(), evidence.segment_id.as_str()) && s.start_ms == evidence.start_ms
            && s.end_ms == evidence.end_ms && opt_str_eq(&s.source_track, &evidence.source_track) {
            assert(spec_evidence_of(segs[k as int]) == evidence@);
            return true;
        }
        assert(segs[k as int] == s@);
        k = k + 1;
    }
    false
}

fn all_evidence_exists(evidence: &[EvidenceReference], segments: &[TranscriptSegmentRecord]) -> (r: bool)
    ensures
        r == spec_all_evidence_exists(evidence_view(evidence@), records_view(segments@)),
{
    let mut k: usize = 0;
    while k < evidence.len()
        invariant
            k <= evidence.len(),
            forall|m: int| 0 <= m < k ==> spec_evidence_exists(#[trigger] evidence_view(evidence@)[m], records_view(segments@)),
        decreases evidence.len() - k,
    {
        if !evidence_exists(&evidence[k], segments) {
            assert(evidence_view(evidence@)[k as int] == evidence@[k as int]@);
            return false;
        }
        k = k + 1;
    }
    true
}

fn notes_supported(notes: &[GroundedNote], segments: &[TranscriptSegmentRecord]) -> (r: bool)
    ensures
        r == spec_notes_supported(grounded_view(notes@), records_view(segments@)),
{
    let mut k: usize = 0;
    while k < notes.len()
        invariant
            k <= notes.len(),
            forall|m: int| 0 <= m < k ==> spec_note_supported(#[trigger] grounded_view(notes@)[m], records_view(segments@)),
        decreases notes.len() - k,
    {
        if !validate_grounded(&notes[k]) || !all_evidence_exists(notes[k].evidence.as_slice(), segments) {
            assert(grounded_view(notes@)[k as int] == notes@[k as int]@);
            return false;
        }
        k = k + 1;
    }
    true
}

fn actions_supported(actions: &[ActionNote], segments: &[TranscriptSegmentRecord]) -> (r: bool)
    ensures
        r == spec_actions_supported(action_view(actions@), records_view(segments@)),
{
    let mut k: usize = 0;
    while k < actions.len()
        invariant
            k <= actions.len(),
            forall|m: int| 0 <= m < k ==> spec_action_supported(#[trigger] action_view(actions@)[m], records_view(segments@)),
        decreases actions.len() - k,
    {
        let a = &actions[k];
        if is_blank(a.text.as_str()) || is_blank(a.owner.as_str()) || is_blank(a.due_date.as_str())
            || a.evidence.len() == 0 || !all_evidence_exists(a.evidence.as_slice(), segments) {
            assert(action_view(actions@)[k as int] == a@);
            return false;
        }
        k = k + 1;
    }
    true
}

/// Checks the identity of the notes and that every item cites the transcript exactly.
pub fn validate_notes(notes: &MeetingNotes, segments: &[TranscriptSegmentRecord]) -> (r: Result<(), String>)
    ensures
        match (r, spec_validate_notes(notes@, records_view(segments@))) {
            (Ok(()), Ok(())) => true,
            (Err(e), Err(m)) => e@ == m,
            _ => false,
        },
{
    if is_blank(notes.meeting_id.as_str()) || !str_equals(notes.strategy.as_str(), NOTES_STRATEGY) {
        return Err("Meeting notes have invalid identity or provenance.".to_owned());
    }
    if !notes_supported(notes.overview.as_slice(), segments) || !notes_supported(notes.topics.as_slice(), segments)
        || !notes_supported(notes.decisions.as_slice(), segments) || !notes_supported(notes.questions.as_slice(), segments)
        || !notes_supported(notes.risks.as_slice(), segments) || !notes_supported(notes.next_steps.as_slice(), segments)
        || !actions_supported(notes.actions.as_slice(), segments) {
        return Err("Generated notes failed evidence validation.".to_owned());
    }
    Ok(())
}

} // verus!

verus! {

/// Number of words in the display text of segment `i`.
pub open spec fn seg_words(segs: Seq<TranscriptSegmentRecordView>, i: int) -> nat {
    spec_word_count(segs[i].display_text)
}

/// Segments with at least five words may become topics.
pub open spec fn is_topic_candidate(segs: Seq<TranscriptSegmentRecordView>, i: int) -> bool {
    0 <= i < segs.len() && seg_words(segs, i) >= 5
}

/// Segment `j` ranks above segment `i`: more words, or as many words and earlier in the list.
pub open spec fn ranks_above(segs: Seq<TranscriptSegmentRecordView>, j: int, i: int) -> bool {
    seg_words(segs, j) > seg_words(segs, i) || (seg_words(segs, j) == seg_words(segs, i) && j < i)
}

/// How many candidates among the first `k` segments rank above segment `i`.
pub open spec fn count_ranked_above(segs: Seq<TranscriptSegmentRecordView>, i: int, k: int) -> nat
    decreases k,
{
    if k <= 0 {
        0
    } else {
        count_ranked_above(segs, i, k - 1) + if is_topic_candidate(segs, k - 1) && ranks_above(
            segs,
            k - 1,
            i,
        ) {
            1nat
        } else {
            0nat
        }
    }
}

/// A topic is a candidate with fewer than five candidates ranked above it.
pub open spec fn is_topic(segs: Seq<TranscriptSegmentRecordView>, i: int) -> bool {
    is_topic_candidate(segs, i) && count_ranked_above(segs, i, segs.len() as int) < 5
}

/// Topics are listed by start time, ties by rank.
pub open spec fn topic_precedes(segs: Seq<TranscriptSegmentRecordView>, a: int, b: int) -> bool {
    segs[a].start_ms < segs[b].start_ms || (segs[a].start_ms == segs[b].start_ms && ranks_above(
        segs,
        a,
        b,
    ))
}

/// `idx` lists exactly the topics, each once, in topic order.
pub open spec fn is_topic_order(segs: Seq<TranscriptSegmentRecordView>, idx: Seq<usize>) -> bool {
    &&& forall|k: int| 0 <= k < idx.len() ==> is_topic(segs, #[trigger] idx[k] as int)
    &&& forall|i: usize| is_topic(segs, i as int) ==> #[trigger] idx.contains(i)
    &&& forall|a: int, b: int|
        0 <= a < b < idx.len() ==> topic_precedes(segs, #[trigger] idx[a] as int, #[trigger] idx[b] as int)
}

fn word_counts(segments: &[TranscriptSegmentRecord]) -> (wcs: Vec<usize>)
    ensures
        wcs.len() == segments.len(),
        forall|i: int| 0 <= i < wcs.len() ==> wcs[i] == #[trigger] seg_words(records_view(segments@), i),
{
    let mut wcs: Vec<usize> = Vec::new();
    let mut i: usize = 0;
    while i < segments.len()
        invariant
            i <= segments.len(),
            wcs.len() == i,
            forall|m: int| 0 <= m < i ==> wcs[m] == #[trigger] seg_words(records_view(segments@), m),
        decreases segments.len() - i,
    {
        let chars = char_vec(segments[i].display_text.as_str());
        wcs.push(word_count(chars.as_slice()));
        assert(records_view(segments@)[i as int] == segments@[i as int]@);
        i = i + 1;
    }
    wcs
}

fn ranks_above_exec(wcs: &Vec<usize>, j: usize, i: usize) -> (r: bool)
    requires
        j < wcs.len(),
        i < wcs.len(),
    ensures
        r == (wcs[j as int] > wcs[i as int] || (wcs[j as int] == wcs[i as int] && j < i)),
{
    wcs[j] > wcs[i] || (wcs[j] == wcs[i] && j < i)
}

/// The indices of the topics, each once, in topic order.
pub fn topic_order(segments: &[TranscriptSegmentRecord]) -> (idx: Vec<usize>)
    ensures
        is_topic_order(records_view(segments@), idx@),
{
    let ghost segs = records_view(segments@);
    let n = segments.len();
    let wcs = word_counts(segments);
    let mut selected: Vec<usize> = Vec::new();
    let mut i: usize = 0;
    while i < n
        invariant
            i <= n,
            n == segments.len(),
            segs == records_view(segments@),
            wcs.len() == n,
            forall|m: int| 0 <= m < wcs.len() ==> wcs[m] == #[trigger] seg_words(segs, m),
            forall|a: int, b: int| 0 <= a < b < selected.len() ==> selected[a] < selected[b],
            forall|a: int| 0 <= a < selected.len() ==> selected[a] < i && is_topic(segs, #[trigger] selected[a] as int),
            forall|t: usize| t < i && is_topic(segs, t as int) ==> #[trigger] selected@.contains(t),
        decreases n - i,
    {
        if wcs[i] >= 5 {
            let mut count: usize = 0;
            let mut j: usize = 0;
            while j < n
                invariant
                    j <= n,
                    i < n,
                    n == segments.len(),
                    segs == records_view(segments@),
                    wcs.len() == n,
                    forall|m: int| 0 <= m < wcs.len() ==> wcs[m] == #[trigger] seg_words(segs, m),
                    count == count_ranked_above(segs, i as int, j as int),
                    count <= j,
                decreases n - j,
            {
                if wcs[j] >= 5 && ranks_above_exec(&wcs, j, i) {
                    count = count + 1;
                }
                j = j + 1;
            }
            let ghost old_sel = selected@;
            if count < 5 {
                selected.push(i);
                assert(selected@[selected.len() - 1] == i);
            }
            proof {
                assert forall|t: usize| t < i + 1 && is_topic(segs, t as int) implies #[trigger] selected@.contains(t) by {
                    if t < i {
                        assert(old_sel.contains(t));
                        let p = choose|p: int| 0 <= p < old_sel.len() && old_sel[p] == t;
                        assert(selected@[p] == t);
                    } else {
                        assert(selected@[selected.len() - 1] == i);
                    }
                }
            }
        }
        i = i + 1;
    }
    let mut out: Vec<usize> = Vec::new();
    let mut rem = selected;
    while rem.len() > 0
        invariant
            n == segments.len(),
            segs == records_view(segments@),
            wcs.len() == n,
            forall|m: int| 0 <= m < wcs.len() ==> wcs[m] == #[trigger] seg_words(segs, m),
            forall|a: int, b: int| 0 <= a < b < rem.len() ==> rem[a] != rem[b],
            forall|a: int| 0 <= a < rem.len() ==> is_topic(segs, #[trigger] rem[a] as int),
            forall|a: int| 0 <= a < out.len() ==> is_topic(segs, #[trigger] out[a] as int),
            forall|t: usize| is_topic(segs, t as int) ==> #[trigger] out@.contains(t) || rem@.contains(t),
            forall|a: int, b: int| 0 <= a < b < out.len() ==> topic_precedes(segs, #[trigger] out[a] as int, #[trigger] out[b] as int),
            forall|a: int, b: int| 0 <= a < out.len() && 0 <= b < rem.len() ==> topic_precedes(segs, #[trigger] out[a] as int, #[trigger] rem[b] as int),
        decreases rem.len(),
    {
        let mut m: usize = 0;
        let mut b: usize = 1;
        while b < rem.len()
            invariant
                n == segments.len(),
                segs == records_view(segments@),
                wcs.len() == n,
                forall|q: int| 0 <= q < wcs.len() ==> wcs[q] == #[trigger] seg_words(segs, q),
                forall|a: int| 0 <= a < rem.len() ==> is_topic(segs, #[trigger] rem[a] as int),
                forall|a: int, c: int| 0 <= a < c < rem.len() ==> rem[a] != rem[c],
                1 <= b <= rem.len(),
                m < b,
                forall|c: int| 0 <= c < b && c != m ==> topic_precedes(segs, rem[m as int] as int, #[trigger] rem[c] as int),
            decreases rem.len() - b,
        {
            let x = rem[b];
            let y = rem[m];
            if segments[x].start_ms < segments[y].start_ms || (segments[x].start_ms == segments[y].start_ms && ranks_above_exec(&wcs, x, y)) {
                assert(segs[x as int] == segments@[x as int]@);
                assert(segs[y as int] == segments@[y as int]@);
                m = b;
            } else {
                assert(segs[x as int] == segments@[x as int]@);
                assert(segs[y as int] == segments@[y as int]@);
            }
            b = b + 1;
        }
        let ghost old_rem = rem@;
        let ghost old_out = out@;
        let chosen = rem.remove(m);
        out.push(chosen);
        proof {
            assert forall|t: usize| is_topic(segs, t as int) implies #[trigger] out@.contains(t) || rem@.contains(t) by {
                if old_out.contains(t) {
                    let p = choose|p: int| 0 <= p < old_out.len() && old_out[p] == t;
                    assert(out@[p] == t);
                } else {
                    let p = choose|p: int| 0 <= p < old_rem.len() && old_rem[p] == t;
                    if p < m {
                        assert(rem@[p] == t);
                    } else if p > m {
                        assert(rem@[p - 1] == t);
                    } else {
                        assert(out@[out.len() - 1] == t);
                    }
                }
            }
            assert forall|a: int, b2: int| 0 <= a < out.len() && 0 <= b2 < rem.len() implies topic_precedes(segs, #[trigger] out[a] as int, #[trigger] rem[b2] as int) by {
                let ob = if b2 < m { b2 } else { b2 + 1 };
                assert(rem[b2] == old_rem[ob]);
                if a < out.len() - 1 {
                    assert(out[a] == old_out[a]);
                }
            }
            assert forall|a: int, c: int| 0 <= a < c < out.len() implies topic_precedes(segs, #[trigger] out[a] as int, #[trigger] out[c] as int) by {
                if c < out.len() - 1 {
                    assert(out[a] == old_out[a] && out[c] == old_out[c]);
                } else {
                    assert(out[a] == old_out[a]);
                    assert(out[c] == old_rem[m as int]);
                }
            }
            assert forall|a: int, c: int| 0 <= a < c < rem.len() implies rem[a] != rem[c] by {
                let oa = if a < m { a } else { a + 1 };
                let oc = if c < m { c } else { c + 1 };
                assert(rem[a] == old_rem[oa] && rem[c] == old_rem[oc]);
            }
            assert forall|a: int| 0 <= a < rem.len() implies is_topic(segs, #[trigger] rem[a] as int) by {
                let oa = if a < m { a } else { a + 1 };
                assert(rem[a] == old_rem[oa]);
            }
            assert forall|a: int| 0 <= a < out.len() implies is_topic(segs, #[trigger] out[a] as int) by {
                if a < out.len() - 1 {
                    assert(out[a] == old_out[a]);
                }
            }
        }
    }
    out
}

} // verus!

verus! {

/// Phrases that mark a decision.
pub open spec fn decision_markers() -> Seq<Seq<char>> {
    seq!["decided"@, "decision"@, "agreed"@, "approved"@, "we will use"@, "we'll use"@]
}

/// Phrases that mark an action.
pub open spec fn action_markers() -> Seq<Seq<char>> {
    seq!["action item"@, "todo"@, "to-do"@, "we need to"@, "i will"@, "we will"@, "should follow"@]
}

/// Phrases that mark a risk.
pub open spec fn risk_markers() -> Seq<Seq<char>> {
    seq!["risk"@, "blocker"@, "blocked"@, "concern"@, "problem"@, "delay"@]
}

/// Phrases that mark a next step.
pub open spec fn next_step_markers() -> Seq<Seq<char>> {
    seq!["next step"@, "follow up"@, "follow-up"@, "going forward"@, "we need to"@]
}

/// The display text, without trailing whitespace, ends with a question mark.
pub open spec fn is_question(s: TranscriptSegmentRecordView) -> bool {
    let t = trim_end(s.display_text);
    t.len() > 0 && t.last() == '?'
}

/// The question segments, in order.
pub open spec fn question_segments(segs: Seq<TranscriptSegmentRecordView>) -> Seq<TranscriptSegmentRecordView>
    decreases segs.len(),
{
    if segs.len() == 0 {
        segs
    } else {
        let rest = question_segments(segs.drop_last());
        if is_question(segs.last()) {
            rest.push(segs.last())
        } else {
            rest
        }
    }
}

/// The draft that the extractive strategy writes for a transcript, given its topic order.
pub open spec fn spec_draft_notes(meeting_id: Seq<char>, segs: Seq<TranscriptSegmentRecordView>, topics: Seq<usize>) -> MeetingNotesView {
    MeetingNotesView {
        meeting_id: meeting_id,
        strategy: NOTES_STRATEGY@,
        approved: false,
        stale: false,
        overview: first_n(segs, 3).map_values(|s: TranscriptSegmentRecordView| spec_grounded(s)),
        topics: topics.map_values(|i: usize| spec_grounded(segs[i as int])),
        decisions: first_n(marked_segments(segs, decision_markers()), 20).map_values(|s: TranscriptSegmentRecordView| spec_grounded(s)),
        actions: first_n(marked_segments(segs, action_markers()), 20).map_values(|s: TranscriptSegmentRecordView| spec_action(s)),
        questions: first_n(question_segments(segs), 20).map_values(|s: TranscriptSegmentRecordView| spec_grounded(s)),
        risks: first_n(marked_segments(segs, risk_markers()), 20).map_values(|s: TranscriptSegmentRecordView| spec_grounded(s)),
        next_steps: first_n(marked_segments(segs, next_step_markers()), 20).map_values(|s: TranscriptSegmentRecordView| spec_grounded(s)),
    }
}

/// The notes for the first `n` segments, one each.
fn leading_notes(segments: &[TranscriptSegmentRecord], n: usize) -> (notes: Vec<GroundedNote>)
    ensures
        grounded_view(notes@) == first_n(records_view(segments@), n as nat).map_values(|s: TranscriptSegmentRecordView| spec_grounded(s)),
{
    let ghost segs = records_view(segments@);
    let mut notes: Vec<GroundedNote> = Vec::new();
    let mut i: usize = 0;
    while i < segments.len() && i < n
        invariant
            i <= segments.len(),
            i <= n,
            segs == records_view(segments@),
            grounded_view(notes@) == segs.take(i as int).map_values(|s: TranscriptSegmentRecordView| spec_grounded(s)),
        decreases segments.len() - i,
    {
        let note = grounded(&segments[i]);
        let ghost prev = grounded_view(notes@);
        notes.push(note);
        assert(segs[i as int] == segments@[i as int]@);
        assert(grounded_view(notes@) =~= prev.push(spec_grounded(segs[i as int])));
        assert(grounded_view(notes@) =~= segs.take(i + 1).map_values(|s: TranscriptSegmentRecordView| spec_grounded(s)));
        i = i + 1;
    }
    assert(first_n(segs, n as nat) =~= segs.take(i as int));
    notes
}

fn ends_with_question(text: &str) -> (r: bool)
    ensures
        r == (trim_end(text@).len() > 0 && trim_end(text@).last() == '?'),
{
    let chars = char_vec(text);
    let t = trim_end_chars(chars.as_slice());
    t.len() > 0 && t[t.len() - 1] == '?'
}

fn question_notes(segments: &[TranscriptSegmentRecord], limit: usize) -> (notes: Vec<GroundedNote>)
    ensures
        grounded_view(notes@) == first_n(question_segments(records_view(segments@)), limit as nat).map_values(|s: TranscriptSegmentRecordView| spec_grounded(s)),
{
    let ghost segs = records_view(segments@);
    let mut notes: Vec<GroundedNote> = Vec::new();
    let mut i: usize = 0;
    while i < segments.len()
        invariant
            i <= segments.len(),
            segs == records_view(segments@),
            notes@.len() == first_n(question_segments(segs.take(i as int)), limit as nat).len(),
            grounded_view(notes@) == first_n(question_segments(segs.take(i as int)), limit as nat).map_values(|s: TranscriptSegmentRecordView| spec_grounded(s)),
        decreases segments.len() - i,
    {
        let ghost before = question_segments(segs.take(i as int));
        proof {
            assert(segs.take(i + 1).drop_last() =~= segs.take(i as int));
            assert(segs.take(i + 1).last() == segments@[i as int]@);
        }
        if ends_with_question(segments[i].display_text.as_str()) {
            proof {
                lemma_first_n_push(before, segments@[i as int]@, limit as nat);
            }
            if notes.len() < limit {
                let note = grounded(&segments[i]);
                let ghost prev = grounded_view(notes@);
                notes.push(note);
                proof {
                    assert(question_segments(segs.take(i + 1)) == before.push(segments@[i as int]@));
                    assert(first_n(before, limit as nat) == before);
                    assert(grounded_view(notes@) =~= prev.push(spec_grounded(segments@[i as int]@)));
                }
                assert(grounded_view(notes@) =~= first_n(question_segments(segs.take(i + 1)), limit as nat).map_values(|s: TranscriptSegmentRecordView| spec_grounded(s)));
            }
        }
        i = i + 1;
    }
    assert(segs.take(segments.len() as int) =~= segs);
    notes
}

fn action_from(segment: &TranscriptSegmentRecord) -> (a: ActionNote)
    ensures
        a@ == spec_action(segment@),
{
    let mut list: Vec<EvidenceReference> = Vec::new();
    list.push(EvidenceReference::from_segment(segment));
    let a = ActionNote {
        text: trim(segment.display_text.as_str()),
        owner: "Not specified".to_owned(),
        due_date: "Not specified".to_owned(),
        evidence: list,
    };
    assert(a@.evidence =~= seq![spec_evidence_of(segment@)]);
    a
}

fn action_notes(segments: &[TranscriptSegmentRecord], markers: &[&str], limit: usize) -> (notes: Vec<ActionNote>)
    ensures
        action_view(notes@) == first_n(marked_segments(records_view(segments@), str_views(markers@)), limit as nat).map_values(|s: TranscriptSegmentRecordView| spec_action(s)),
{
    let ghost segs = records_view(segments@);
    let ghost ms = str_views(markers@);
    let mut notes: Vec<ActionNote> = Vec::new();
    let mut i: usize = 0;
    while i < segments.len()
        invariant
            i <= segments.len(),
            segs == records_view(segments@),
            ms == str_views(markers@),
            notes@.len() == first_n(marked_segments(segs.take(i as int), ms), limit as nat).len(),
            action_view(notes@) == first_n(marked_segments(segs.take(i as int), ms), limit as nat).map_values(|s: TranscriptSegmentRecordView| spec_action(s)),
        decreases segments.len() - i,
    {
        let ghost before = marked_segments(segs.take(i as int), ms);
        proof {
            assert(segs.take(i + 1).drop_last() =~= segs.take(i as int));
            assert(segs.take(i + 1).last() == segments@[i as int]@);
        }
        if contains_marker(segments[i].display_text.as_str(), markers) {
            proof {
                lemma_first_n_push(before, segments@[i as int]@, limit as nat);
            }
            if notes.len() < limit {
                let note = action_from(&segments[i]);
                let ghost prev = action_view(notes@);
                notes.push(note);
                proof {
                    assert(marked_segments(segs.take(i + 1), ms) == before.push(segments@[i as int]@));
                    assert(first_n(before, limit as nat) == before);
                    assert(action_view(notes@) =~= prev.push(spec_action(segments@[i as int]@)));
                }
                assert(action_view(notes@) =~= first_n(marked_segments(segs.take(i + 1), ms), limit as nat).map_values(|s: TranscriptSegmentRecordView| spec_action(s)));
            }
        }
        i = i + 1;
    }
    assert(segs.take(segments.len() as int) =~= segs);
    notes
}

fn topic_notes(segments: &[TranscriptSegmentRecord], idx: &Vec<usize>) -> (notes: Vec<GroundedNote>)
    requires
        forall|k: int| 0 <= k < idx.len() ==> idx[k] < segments.len(),
    ensures
        grounded_view(notes@) == idx@.map_values(|i: usize| spec_grounded(records_view(segments@)[i as int])),
{
    let ghost segs = records_view(segments@);
    let mut notes: Vec<GroundedNote> = Vec::new();
    let mut k: usize = 0;
    while k < idx.len()
        invariant
            k <= idx.len(),
            segs == records_view(segments@),
            forall|q: int| 0 <= q < idx.len() ==> idx[q] < segments.len(),
            grounded_view(notes@) == idx@.take(k as int).map_values(|i: usize| spec_grounded(segs[i as int])),
        decreases idx.len() - k,
    {
        let note = grounded(&segments[idx[k]]);
        let ghost prev = grounded_view(notes@);
        notes.push(note);
        assert(segs[idx[k as int] as int] == segments@[idx[k as int] as int]@);
        assert(grounded_view(notes@) =~= prev.push(spec_grounded(segs[idx[k as int] as int])));
        assert(grounded_view(notes@) =~= idx@.take(k + 1).map_values(|i: usize| spec_grounded(segs[i as int])));
        k = k + 1;
    }
    assert(idx@.take(idx.len() as int) =~= idx@);
    notes
}

} // verus!

verus! {

/// The outcome of generating notes, as values.
pub open spec fn notes_result_view(r: Result<MeetingNotes, String>) -> Result<MeetingNotesView, Seq<char>> {
    match r {
        Ok(n) => Ok(n@),
        Err(e) => Err(e@),
    }
}

/// What `generate_notes` returns for a transcript, given its topic order.
pub open spec fn spec_generate_notes(meeting_id: Seq<char>, segs: Seq<TranscriptSegmentRecordView>, topics: Seq<usize>) -> Result<MeetingNotesView, Seq<char>> {
    if segs.len() == 0 {
        Err("This meeting does not have a transcript yet."@)
    } else {
        let draft = spec_draft_notes(meeting_id, segs, topics);
        match spec_validate_notes(draft, segs) {
            Ok(()) => Ok(draft),
            Err(m) => Err(m),
        }
    }
}

/// Drafts extractive notes from the transcript and checks them against it.
pub fn generate_notes(meeting_id: &str, segments: &[TranscriptSegmentRecord]) -> (r: Result<MeetingNotes, String>)
    ensures
        exists|topics: Seq<usize>|
            is_topic_order(records_view(segments@), topics) && notes_result_view(r)
                == spec_generate_notes(meeting_id@, records_view(segments@), topics),
{
    let ghost segs = records_view(segments@);
    if segments.len() == 0 {
        assert(is_topic_order(segs, Seq::<usize>::empty()));
        return Err("This meeting does not have a transcript yet.".to_owned());
    }
    let overview = leading_notes(segments, 3);
    let order = topic_order(segments);
    proof {
        assert forall|k: int| 0 <= k < order.len() implies order[k] < segments.len() by {
            assert(is_topic(segs, order@[k] as int));
        }
    }
    let topics = topic_notes(segments, &order);
    let decision_words: [&str; 6] = ["decided", "decision", "agreed", "approved", "we will use", "we'll use"];
    let action_words: [&str; 7] = ["action item", "todo", "to-do", "we need to", "i will", "we will", "should follow"];
    let risk_words: [&str; 6] = ["risk", "blocker", "blocked", "concern", "problem", "delay"];
    let next_step_words: [&str; 5] = ["next step", "follow up", "follow-up", "going forward", "we need to"];
    assert(str_views(decision_words@) =~= decision_markers());
    assert(str_views(action_words@) =~= action_markers());
    assert(str_views(risk_words@) =~= risk_markers());
    assert(str_views(next_step_words@) =~= next_step_markers());
    let notes = MeetingNotes {
        meeting_id: meeting_id.to_owned(),
        strategy: NOTES_STRATEGY.to_owned(),
        approved: false,
        stale: false,
        overview,
        topics,
        decisions: select_segments(segments, &decision_words, 20),
        actions: action_notes(segments, &action_words, 20),
        questions: question_notes(segments, 20),
        risks: select_segments(segments, &risk_words, 20),
        next_steps: select_segments(segments, &next_step_words, 20),
    };
    assert(notes@ == spec_draft_notes(meeting_id@, segs, order@));
    match validate_notes(&notes, segments) {
        Ok(()) => Ok(notes),
        Err(e) => Err(e),
    }
}

} // verus!

verus! {

/// A segment that can be cited: an identifier, a well-ordered non-negative span and some text.
pub open spec fn segment_citable(s: TranscriptSegmentRecordView) -> bool {
    s.id.len() > 0 && s.start_ms >= 0 && s.end_ms >= s.start_ms && !spec_is_blank(s.display_text)
}

proof fn lemma_marked_from(segs: Seq<TranscriptSegmentRecordView>, markers: Seq<Seq<char>>)
    ensures
        forall|k: int| 0 <= k < marked_segments(segs, markers).len() ==> segs.contains(#[trigger] marked_segments(segs, markers)[k]),
    decreases segs.len(),
{
    if segs.len() > 0 {
        lemma_marked_from(segs.drop_last(), markers);
        let rest = marked_segments(segs.drop_last(), markers);
        assert forall|k: int| 0 <= k < marked_segments(segs, markers).len() implies segs.contains(#[trigger] marked_segments(segs, markers)[k]) by {
            if k < rest.len() {
                let j = choose|j: int| 0 <= j < segs.drop_last().len() && segs.drop_last()[j] == rest[k];
                assert(segs[j] == rest[k]);
            } else {
                assert(segs[segs.len() - 1] == segs.last());
            }
        }
    }
}

proof fn lemma_questions_from(segs: Seq<TranscriptSegmentRecordView>)
    ensures
        forall|k: int| 0 <= k < question_segments(segs).len() ==> segs.contains(#[trigger] question_segments(segs)[k]),
    decreases segs.len(),
{
    if segs.len() > 0 {
        lemma_questions_from(segs.drop_last());
        let rest = question_segments(segs.drop_last());
        assert forall|k: int| 0 <= k < question_segments(segs).len() implies segs.contains(#[trigger] question_segments(segs)[k]) by {
            if k < rest.len() {
                let j = choose|j: int| 0 <= j < segs.drop_last().len() && segs.drop_last()[j] == rest[k];
                assert(segs[j] == rest[k]);
            } else {
                assert(segs[segs.len() - 1] == segs.last());
            }
        }
    }
}

proof fn lemma_quote_supported(s: TranscriptSegmentRecordView, segs: Seq<TranscriptSegmentRecordView>)
    requires
        segs.contains(s),
        segment_citable(s),
    ensures
        spec_note_supported(spec_grounded(s), segs),
        spec_action_supported(spec_action(s), segs),
{
    lemma_trimmed_not_blank(s.display_text);
    let j = choose|j: int| 0 <= j < segs.len() && segs[j] == s;
    assert(spec_evidence_of(segs[j]) == spec_evidence_of(s));
    let n = spec_grounded(s);
    assert(spec_evidence_exists(n.evidence[0], segs));
    reveal_strlit("Not specified");
    lemma_trim_nonempty("Not specified"@);
    assert(!spec_is_whitespace("Not specified"@[0]));
}

proof fn lemma_quotes_supported(chosen: Seq<TranscriptSegmentRecordView>, n: nat, segs: Seq<TranscriptSegmentRecordView>)
    requires
        forall|k: int| 0 <= k < chosen.len() ==> segs.contains(#[trigger] chosen[k]),
        forall|k: int| 0 <= k < segs.len() ==> segment_citable(#[trigger] segs[k]),
    ensures
        spec_notes_supported(first_n(chosen, n).map_values(|s: TranscriptSegmentRecordView| spec_grounded(s)), segs),
        spec_actions_supported(first_n(chosen, n).map_values(|s: TranscriptSegmentRecordView| spec_action(s)), segs),
{
    let f = first_n(chosen, n);
    let g = f.map_values(|s: TranscriptSegmentRecordView| spec_grounded(s));
    let a = f.map_values(|s: TranscriptSegmentRecordView| spec_action(s));
    assert forall|k: int| 0 <= k < f.len() implies spec_note_supported(#[trigger] g[k], segs) && spec_action_supported(a[k], segs) by {
        assert(f[k] == chosen[k]);
        let j = choose|j: int| 0 <= j < segs.len() && segs[j] == chosen[k];
        assert(segment_citable(segs[j]));
        lemma_quote_supported(chosen[k], segs);
    }
    assert forall|k: int| 0 <= k < f.len() implies spec_action_supported(#[trigger] a[k], segs) by {
        assert(spec_note_supported(g[k], segs));
    }
}

/// No more segments are marked than there are segments.
proof fn lemma_marked_len(segs: Seq<TranscriptSegmentRecordView>, markers: Seq<Seq<char>>)
    ensures
        marked_segments(segs, markers).len() <= segs.len(),
    decreases segs.len(),
{
    if segs.len() > 0 {
        lemma_marked_len(segs.drop_last(), markers);
    }
}

/// A marked segment keeps its place: among the marked segments it stands right after those marked
/// before it.
proof fn lemma_marked_keeps(segs: Seq<TranscriptSegmentRecordView>, markers: Seq<Seq<char>>, j: int)
    requires
        0 <= j < segs.len(),
        spec_has_marker(segs[j].display_text, markers),
    ensures
        marked_segments(segs.take(j), markers).len() <= j,
        marked_segments(segs.take(j), markers).len() < marked_segments(segs, markers).len(),
        marked_segments(segs, markers)[marked_segments(segs.take(j), markers).len() as int] == segs[j],
    decreases segs.len(),
{
    lemma_marked_len(segs.take(j), markers);
    let front = segs.drop_last();
    let rest = marked_segments(front, markers);
    if j == segs.len() - 1 {
        assert(segs.take(j) =~= front);
    } else {
        assert(front.take(j) =~= segs.take(j));
        assert(front[j] == segs[j]);
        lemma_marked_keeps(front, markers, j);
    }
}

/// Every marked segment satisfies the marker test and comes from the transcript.
proof fn lemma_marked_are_marked(segs: Seq<TranscriptSegmentRecordView>, markers: Seq<Seq<char>>, k: int)
    requires
        0 <= k < marked_segments(segs, markers).len(),
    ensures
        spec_has_marker(marked_segments(segs, markers)[k].display_text, markers),
    decreases segs.len(),
{
    if segs.len() > 0 {
        let rest = marked_segments(segs.drop_last(), markers);
        if k < rest.len() {
            lemma_marked_are_marked(segs.drop_last(), markers, k);
        }
    }
}

/// A marked segment among the first twenty of the transcript is one of the notes of its kind.
proof fn lemma_marked_segment_noted(segs: Seq<TranscriptSegmentRecordView>, markers: Seq<Seq<char>>, j: int)
    requires
        0 <= j < segs.len(),
        j < 20,
        spec_has_marker(segs[j].display_text, markers),
    ensures
        first_n(marked_segments(segs, markers), 20).contains(segs[j]),
        first_n(marked_segments(segs, markers), 20).map_values(|s: TranscriptSegmentRecordView| spec_grounded(s)).contains(spec_grounded(segs[j])),
        first_n(marked_segments(segs, markers), 20).map_values(|s: TranscriptSegmentRecordView| spec_action(s)).contains(spec_action(segs[j])),
{
    lemma_marked_keeps(segs, markers, j);
    let p = marked_segments(segs.take(j), markers).len() as int;
    let chosen = first_n(marked_segments(segs, markers), 20);
    assert(chosen[p] == segs[j]);
    assert(chosen.map_values(|s: TranscriptSegmentRecordView| spec_grounded(s))[p] == spec_grounded(segs[j]));
    assert(chosen.map_values(|s: TranscriptSegmentRecordView| spec_action(s))[p] == spec_action(segs[j]));
}

/// The lowercased text holds one of the decision phrases: "decided", "decision", "agreed",
/// "approved", "we will use" or "we'll use".
pub open spec fn says_decision(t: Seq<char>) -> bool {
    spec_contains(t, "decided"@) || spec_contains(t, "decision"@) || spec_contains(t, "agreed"@)
        || spec_contains(t, "approved"@) || spec_contains(t, "we will use"@) || spec_contains(t, "we'll use"@)
}

/// The lowercased text holds one of the action phrases: "action item", "todo", "to-do",
/// "we need to", "i will", "we will" or "should follow".
pub open spec fn says_action(t: Seq<char>) -> bool {
    spec_contains(t, "action item"@) || spec_contains(t, "todo"@) || spec_contains(t, "to-do"@)
        || spec_contains(t, "we need to"@) || spec_contains(t, "i will"@) || spec_contains(t, "we will"@)
        || spec_contains(t, "should follow"@)
}

/// The lowercased text holds one of the risk phrases: "risk", "blocker", "blocked", "concern",
/// "problem" or "delay".
pub open spec fn says_risk(t: Seq<char>) -> bool {
    spec_contains(t, "risk"@) || spec_contains(t, "blocker"@) || spec_contains(t, "blocked"@)
        || spec_contains(t, "concern"@) || spec_contains(t, "problem"@) || spec_contains(t, "delay"@)
}

/// The lowercased text holds one of the next-step phrases: "next step", "follow up", "follow-up",
/// "going forward" or "we need to".
pub open spec fn says_next_step(t: Seq<char>) -> bool {
    spec_contains(t, "next step"@) || spec_contains(t, "follow up"@) || spec_contains(t, "follow-up"@)
        || spec_contains(t, "going forward"@) || spec_contains(t, "we need to"@)
}

/// The marker lists are exactly these phrases: a text is marked as a decision, action, risk or
/// next step when, and only when, its lowercase form holds one of that kind's phrases.
pub proof fn lemma_marker_phrases(text: Seq<char>)
    ensures
        spec_has_marker(text, decision_markers()) <==> says_decision(spec_lowercase(text)),
        spec_has_marker(text, action_markers()) <==> says_action(spec_lowercase(text)),
        spec_has_marker(text, risk_markers()) <==> says_risk(spec_lowercase(text)),
        spec_has_marker(text, next_step_markers()) <==> says_next_step(spec_lowercase(text)),
{
    let t = spec_lowercase(text);
    let d = decision_markers();
    if says_decision(t) {
        if spec_contains(t, d[0]) {} else if spec_contains(t, d[1]) {} else if spec_contains(t, d[2]) {}
        else if spec_contains(t, d[3]) {} else if spec_contains(t, d[4]) {} else { assert(spec_contains(t, d[5])); }
    }
    if spec_has_marker(text, d) {
        let k = choose|k: int| 0 <= k < d.len() && spec_contains(t, #[trigger] d[k]);
        assert(k == 0 || k == 1 || k == 2 || k == 3 || k == 4 || k == 5);
    }
    let a = action_markers();
    if says_action(t) {
        if spec_contains(t, a[0]) {} else if spec_contains(t, a[1]) {} else if spec_contains(t, a[2]) {}
        else if spec_contains(t, a[3]) {} else if spec_contains(t, a[4]) {} else if spec_contains(t, a[5]) {}
        else { assert(spec_contains(t, a[6])); }
    }
    if spec_has_marker(text, a) {
        let k = choose|k: int| 0 <= k < a.len() && spec_contains(t, #[trigger] a[k]);
        assert(k == 0 || k == 1 || k == 2 || k == 3 || k == 4 || k == 5 || k == 6);
    }
    let r = risk_markers();
    if says_risk(t) {
        if spec_contains(t, r[0]) {} else if spec_contains(t, r[1]) {} else if spec_contains(t, r[2]) {}
        else if spec_contains(t, r[3]) {} else if spec_contains(t, r[4]) {} else { assert(spec_contains(t, r[5])); }
    }
    if spec_has_marker(text, r) {
        let k = choose|k: int| 0 <= k < r.len() && spec_contains(t, #[trigger] r[k]);
        assert(k == 0 || k == 1 || k == 2 || k == 3 || k == 4 || k == 5);
    }
    let n = next_step_markers();
    if says_next_step(t) {
        if spec_contains(t, n[0]) {} else if spec_contains(t, n[1]) {} else if spec_contains(t, n[2]) {}
        else if spec_contains(t, n[3]) {} else { assert(spec_contains(t, n[4])); }
    }
    if spec_has_marker(text, n) {
        let k = choose|k: int| 0 <= k < n.len() && spec_contains(t, #[trigger] n[k]);
        assert(k == 0 || k == 1 || k == 2 || k == 3 || k == 4);
    }
}

/// A segment among the first twenty of the transcript whose lowercased text says a decision
/// ("we agreed ...", "we decided ...") is reported as a decision, quoting it; one that names an
/// action, a risk or a next step likewise. And every reported decision quotes a segment of the
/// transcript that says a decision.
pub proof fn lemma_marked_phrases_are_reported(meeting_id: Seq<char>, segs: Seq<TranscriptSegmentRecordView>, topics: Seq<usize>, j: int)
    requires
        0 <= j < segs.len(),
        j < 20,
    ensures
        ({
            let notes = spec_draft_notes(meeting_id, segs, topics);
            let t = spec_lowercase(segs[j].display_text);
            &&& says_decision(t) ==> notes.decisions.contains(spec_grounded(segs[j]))
            &&& says_action(t) ==> notes.actions.contains(spec_action(segs[j]))
            &&& says_risk(t) ==> notes.risks.contains(spec_grounded(segs[j]))
            &&& says_next_step(t) ==> notes.next_steps.contains(spec_grounded(segs[j]))
        }),
        spec_generate_notes(meeting_id, segs, topics) matches Ok(n) ==> n == spec_draft_notes(meeting_id, segs, topics),
        forall|k: int| 0 <= k < spec_draft_notes(meeting_id, segs, topics).decisions.len() ==> exists|i: int|
            0 <= i < segs.len() && #[trigger] spec_draft_notes(meeting_id, segs, topics).decisions[k] == spec_grounded(segs[i])
                && says_decision(spec_lowercase(segs[i].display_text)),
{
    let text = segs[j].display_text;
    lemma_marker_phrases(text);
    if spec_has_marker(text, decision_markers()) {
        lemma_marked_segment_noted(segs, decision_markers(), j);
    }
    if spec_has_marker(text, action_markers()) {
        lemma_marked_segment_noted(segs, action_markers(), j);
    }
    if spec_has_marker(text, risk_markers()) {
        lemma_marked_segment_noted(segs, risk_markers(), j);
    }
    if spec_has_marker(text, next_step_markers()) {
        lemma_marked_segment_noted(segs, next_step_markers(), j);
    }
    let notes = spec_draft_notes(meeting_id, segs, topics);
    let chosen = first_n(marked_segments(segs, decision_markers()), 20);
    lemma_marked_from(segs, decision_markers());
    assert forall|k: int| 0 <= k < notes.decisions.len() implies exists|i: int|
        0 <= i < segs.len() && #[trigger] notes.decisions[k] == spec_grounded(segs[i])
            && says_decision(spec_lowercase(segs[i].display_text)) by {
        assert(notes.decisions[k] == spec_grounded(chosen[k]));
        assert(chosen[k] == marked_segments(segs, decision_markers())[k]);
        lemma_marked_are_marked(segs, decision_markers(), k);
        lemma_marker_phrases(chosen[k].display_text);
        assert(segs.contains(marked_segments(segs, decision_markers())[k]));
        let i = choose|i: int| 0 <= i < segs.len() && segs[i] == chosen[k];
        assert(notes.decisions[k] == spec_grounded(segs[i]));
    }
}

/// No more segments are questions than there are segments.
proof fn lemma_questions_len(segs: Seq<TranscriptSegmentRecordView>)
    ensures
        question_segments(segs).len() <= segs.len(),
    decreases segs.len(),
{
    if segs.len() > 0 {
        lemma_questions_len(segs.drop_last());
    }
}

/// A question keeps its place among the questions, right after those asked before it.
proof fn lemma_question_keeps(segs: Seq<TranscriptSegmentRecordView>, j: int)
    requires
        0 <= j < segs.len(),
        is_question(segs[j]),
    ensures
        question_segments(segs.take(j)).len() <= j,
        question_segments(segs.take(j)).len() < question_segments(segs).len(),
        question_segments(segs)[question_segments(segs.take(j)).len() as int] == segs[j],
    decreases segs.len(),
{
    lemma_questions_len(segs.take(j));
    let front = segs.drop_last();
    if j == segs.len() - 1 {
        assert(segs.take(j) =~= front);
    } else {
        assert(front.take(j) =~= segs.take(j));
        assert(front[j] == segs[j]);
        lemma_question_keeps(front, j);
    }
}

/// The overview quotes the first three segments of the transcript, in order (all of them when
/// there are fewer), and a segment among the first twenty whose text ends with a question mark
/// (trailing whitespace aside) is reported as a question, quoting it.
pub proof fn lemma_overview_and_questions(meeting_id: Seq<char>, segs: Seq<TranscriptSegmentRecordView>, topics: Seq<usize>, j: int)
    requires
        0 <= j < segs.len(),
        j < 20,
    ensures
        ({
            let notes = spec_draft_notes(meeting_id, segs, topics);
            let t = trim_end(segs[j].display_text);
            &&& notes.overview.len() == if segs.len() < 3 { segs.len() } else { 3 }
            &&& j < 3 ==> notes.overview[j] == spec_grounded(segs[j])
            &&& t.len() > 0 && t.last() == '?' ==> notes.questions.contains(spec_grounded(segs[j]))
        }),
{
    let notes = spec_draft_notes(meeting_id, segs, topics);
    if j < 3 {
        assert(first_n(segs, 3)[j] == segs[j]);
    }
    let t = trim_end(segs[j].display_text);
    if t.len() > 0 && t.last() == '?' {
        lemma_question_keeps(segs, j);
        let p = question_segments(segs.take(j)).len() as int;
        let chosen = first_n(question_segments(segs), 20);
        assert(chosen[p] == segs[j]);
        assert(notes.questions[p] == spec_grounded(segs[j]));
    }
}

/// Notes drafted from a transcript whose segments can all be cited pass validation:
/// every item quotes and cites a segment of that transcript, so generation succeeds.
pub proof fn lemma_generated_notes_are_valid(meeting_id: Seq<char>, segs: Seq<TranscriptSegmentRecordView>, topics: Seq<usize>)
    requires
        !spec_is_blank(meeting_id),
        segs.len() > 0,
        forall|k: int| 0 <= k < segs.len() ==> segment_citable(#[trigger] segs[k]),
        is_topic_order(segs, topics),
    ensures
        spec_generate_notes(meeting_id, segs, topics) == Ok::<MeetingNotesView, Seq<char>>(spec_draft_notes(meeting_id, segs, topics)),
{
    let d = spec_draft_notes(meeting_id, segs, topics);
    assert forall|k: int| 0 <= k < segs.len() implies segs.contains(#[trigger] segs[k]) by {}
    lemma_quotes_supported(segs, 3, segs);
    lemma_marked_from(segs, decision_markers());
    lemma_quotes_supported(marked_segments(segs, decision_markers()), 20, segs);
    lemma_marked_from(segs, action_markers());
    lemma_quotes_supported(marked_segments(segs, action_markers()), 20, segs);
    lemma_marked_from(segs, risk_markers());
    lemma_quotes_supported(marked_segments(segs, risk_markers()), 20, segs);
    lemma_marked_from(segs, next_step_markers());
    lemma_quotes_supported(marked_segments(segs, next_step_markers()), 20, segs);
    lemma_questions_from(segs);
    lemma_quotes_supported(question_segments(segs), 20, segs);
    let tq = topics.map_values(|i: usize| segs[i as int]);
    assert forall|k: int| 0 <= k < tq.len() implies segs.contains(#[trigger] tq[k]) by {
        assert(is_topic(segs, topics[k] as int));
    }
    lemma_quotes_supported(tq, tq.len(), segs);
    assert(first_n(tq, tq.len()).map_values(|s: TranscriptSegmentRecordView| spec_grounded(s)) =~= d.topics);
    assert(spec_notes_grounded(d, segs));
}

} // verus!

verus! {

/// The bracketed `[MM:SS]` start time of a reference.
pub open spec fn spec_evidence_tag(e: EvidenceView) -> Seq<char> {
    seq!['['] + spec_clock_label(e.start_ms) + seq![']']
}

/// The start-time tags of the references, separated by single spaces.
pub open spec fn spec_evidence_label(ev: Seq<EvidenceView>) -> Seq<char>
    decreases ev.len(),
{
    if ev.len() == 0 {
        Seq::empty()
    } else if ev.len() == 1 {
        spec_evidence_tag(ev[0])
    } else {
        spec_evidence_label(ev.drop_last()) + seq![' '] + spec_evidence_tag(ev.last())
    }
}

/// One bullet line per note: the text followed by its evidence label.
pub open spec fn spec_note_lines(notes: Seq<GroundedNoteView>) -> Seq<char>
    decreases notes.len(),
{
    if notes.len() == 0 {
        Seq::empty()
    } else {
        let n = notes.last();
        spec_note_lines(notes.drop_last()) + "- "@ + n.text + seq![' '] + spec_evidence_label(n.evidence) + seq!['\n']
    }
}

/// One bullet line per action item, with owner, due date and evidence label.
pub open spec fn spec_action_lines(actions: Seq<ActionNoteView>) -> Seq<char>
    decreases actions.len(),
{
    if actions.len() == 0 {
        Seq::empty()
    } else {
        let a = actions.last();
        spec_action_lines(actions.drop_last()) + "- "@ + a.text + " — Owner: "@ + a.owner + "; Due: "@ + a.due_date
            + seq![' '] + spec_evidence_label(a.evidence) + seq!['\n']
    }
}

/// A section heading: `## heading` in Markdown, underlined with dashes in plain text.
pub open spec fn spec_heading(heading: Seq<char>, markdown: bool) -> Seq<char> {
    if markdown {
        "## "@ + heading + "\n\n"@
    } else {
        heading + seq!['\n'] + repeat_char('-', encode_utf8(heading).len()) + seq!['\n']
    }
}

/// A section of notes; an empty section says that nothing was identified.
pub open spec fn spec_section(heading: Seq<char>, notes: Seq<GroundedNoteView>, markdown: bool) -> Seq<char> {
    spec_heading(heading, markdown) + if notes.len() == 0 {
        "Not identified in the transcript.\n\n"@
    } else {
        spec_note_lines(notes) + seq!['\n']
    }
}

/// The title block that opens an export.
pub open spec fn spec_notes_header(title: Seq<char>, strategy: Seq<char>, markdown: bool) -> Seq<char> {
    if markdown {
        "# "@ + title + " — Meeting notes\n\n_"@ + strategy + "_\n\n"@
    } else {
        title + " — Meeting notes\n"@ + repeat_char('=', encode_utf8(title).len() + 16) + "\n\n"@ + strategy + "\n\n"@
    }
}

/// The actions section of an export.
pub open spec fn spec_actions_section(actions: Seq<ActionNoteView>, markdown: bool) -> Seq<char> {
    (if markdown {
        "## Actions\n\n"@
    } else {
        "Actions\n-------\n"@
    }) + if actions.len() == 0 {
        "Not identified in the transcript.\n\n"@
    } else {
        spec_action_lines(actions) + seq!['\n']
    }
}

/// The full export of the notes, in Markdown or plain text.
pub open spec fn spec_format_notes(title: Seq<char>, n: MeetingNotesView, markdown: bool) -> Seq<char> {
    spec_notes_header(title, n.strategy, markdown) + spec_section("Overview"@, n.overview, markdown)
        + spec_section("Topics"@, n.topics, markdown) + spec_section("Decisions"@, n.decisions, markdown)
        + spec_actions_section(n.actions, markdown) + spec_section("Questions"@, n.questions, markdown)
        + spec_section("Risks"@, n.risks, markdown) + spec_section("Next steps"@, n.next_steps, markdown)
}

/// The `MM:SS` label of a millisecond offset.
pub fn timestamp(milliseconds: i64) -> (r: String)
    ensures
        r@ == spec_clock_label(milliseconds as int),
{
    clock_label(milliseconds)
}

/// The `[MM:SS]` tags of the references, separated by spaces.
pub fn evidence_label(evidence: &[EvidenceReference]) -> (r: String)
    ensures
        r@ == spec_evidence_label(evidence_view(evidence@)),
{
    let ghost ev = evidence_view(evidence@);
    let mut r = String::new();
    let mut k: usize = 0;
    while k < evidence.len()
        invariant
            k <= evidence.len(),
            ev == evidence_view(evidence@),
            r@ == spec_evidence_label(ev.take(k as int)),
        decreases evidence.len() - k,
    {
        if k > 0 {
            push_char(&mut r, ' ');
        }
        push_char(&mut r, '[');
        let label = timestamp(evidence[k].start_ms);
        push_str(&mut r, label.as_str());
        push_char(&mut r, ']');
        proof {
            let t = ev.take(k + 1);
            assert(t.drop_last() =~= ev.take(k as int));
            assert(t.last() == evidence@[k as int]@);
            if k == 0 {
                assert(t.len() == 1);
                assert(r@ =~= spec_evidence_tag(t[0]));
            } else {
                assert(r@ =~= spec_evidence_label(t.drop_last()) + seq![' '] + spec_evidence_tag(t.last()));
            }
        }
        k = k + 1;
    }
    assert(ev.take(evidence.len() as int) =~= ev);
    r
}

fn push_heading(content: &mut String, heading: &str, markdown: bool)
    requires
        encode_utf8(heading@).len() <= usize::MAX,
    ensures
        final(content)@ == old(content)@ + spec_heading(heading@, markdown),
{
    if markdown {
        push_str(content, "## ");
        push_str(content, heading);
        push_str(content, "\n\n");
    } else {
        push_str(content, heading);
        push_char(content, '\n');
        push_repeat(content, '-', heading.len());
        push_char(content, '\n');
    }
    assert(content@ =~= old(content)@ + spec_heading(heading@, markdown));
}

/// Appends a section of notes to an export.
pub fn push_section(content: &mut String, heading: &str, notes: &[GroundedNote], markdown: bool)
    requires
        encode_utf8(heading@).len() <= usize::MAX,
    ensures
        final(content)@ == old(content)@ + spec_section(heading@, grounded_view(notes@), markdown),
{
    let ghost start = content@;
    push_heading(content, heading, markdown);
    if notes.len() == 0 {
        push_str(content, "Not identified in the transcript.\n\n");
        assert(content@ =~= start + spec_section(heading@, grounded_view(notes@), markdown));
        return;
    }
    let ghost head = content@;
    let ghost nv = grounded_view(notes@);
    let mut k: usize = 0;
    while k < notes.len()
        invariant
            k <= notes.len(),
            nv == grounded_view(notes@),
            content@ == head + spec_note_lines(nv.take(k as int)),
        decreases notes.len() - k,
    {
        push_str(content, "- ");
        push_str(content, notes[k].text.as_str());
        push_char(content, ' ');
        let label = evidence_label(notes[k].evidence.as_slice());
        push_str(content, label.as_str());
        push_char(content, '\n');
        proof {
            let t = nv.take(k + 1);
            assert(t.drop_last() =~= nv.take(k as int));
            assert(t.last() == notes@[k as int]@);
            assert(content@ =~= head + spec_note_lines(t));
        }
        k = k + 1;
    }
    push_char(content, '\n');
    assert(nv.take(notes.len() as int) =~= nv);
    assert(content@ =~= start + spec_section(heading@, grounded_view(notes@), markdown));
}

fn push_actions(content: &mut String, actions: &[ActionNote], markdown: bool)
    ensures
        final(content)@ == old(content)@ + spec_actions_section(action_view(actions@), markdown),
{
    let ghost start = content@;
    if markdown {
        push_str(content, "## Actions\n\n");
    } else {
        push_str(content, "Actions\n-------\n");
    }
    if actions.len() == 0 {
        push_str(content, "Not identified in the transcript.\n\n");
        assert(content@ =~= start + spec_actions_section(action_view(actions@), markdown));
        return;
    }
    let ghost head = content@;
    let ghost av = action_view(actions@);
    let mut k: usize = 0;
    while k < actions.len()
        invariant
            k <= actions.len(),
            av == action_view(actions@),
            content@ == head + spec_action_lines(av.take(k as int)),
        decreases actions.len() - k,
    {
        let a = &actions[k];
        push_str(content, "- ");
        push_str(content, a.text.as_str());
        push_str(content, " — Owner: ");
        push_str(content, a.owner.as_str());
        push_str(content, "; Due: ");
        push_str(content, a.due_date.as_str());
        push_char(content, ' ');
        let label = evidence_label(a.evidence.as_slice());
        push_str(content, label.as_str());
        push_char(content, '\n');
        proof {
            let t = av.take(k + 1);
            assert(t.drop_last() =~= av.take(k as int));
            assert(t.last() == actions@[k as int]@);
            assert(content@ =~= head + spec_action_lines(t));
        }
        k = k + 1;
    }
    push_char(content, '\n');
    assert(av.take(actions.len() as int) =~= av);
    assert(content@ =~= start + spec_actions_section(action_view(actions@), markdown));
}

proof fn lemma_ascii_len(s: Seq<char>)
    requires
        is_ascii_chars(s),
    ensures
        encode_utf8(s).len() == s.len(),
{
    is_ascii_chars_encode_utf8(s);
}

proof fn lemma_ascii_heading(h: &str)
    requires
        is_ascii_chars(h@),
        h@.len() < 100,
    ensures
        encode_utf8(h@).len() <= usize::MAX,
{
    lemma_ascii_len(h@);
}

/// Renders the notes for export, in Markdown or in plain text.
pub fn format_notes(title: &str, notes: &MeetingNotes, markdown: bool) -> (r: String)
    requires
        encode_utf8(title@).len() + 16 <= usize::MAX,
    ensures
        r@ == spec_format_notes(title@, notes@, markdown),
{
    let mut content = String::new();
    if markdown {
        push_str(&mut content, "# ");
        push_str(&mut content, title);
        push_str(&mut content, " — Meeting notes\n\n_");
        push_str(&mut content, notes.strategy.as_str());
        push_str(&mut content, "_\n\n");
    } else {
        push_str(&mut content, title);
        push_str(&mut content, " — Meeting notes\n");
        push_repeat(&mut content, '=', title.len() + 16);
        push_str(&mut content, "\n\n");
        push_str(&mut content, notes.strategy.as_str());
        push_str(&mut content, "\n\n");
    }
    assert(content@ =~= spec_notes_header(title@, notes@.strategy, markdown));
    proof {
        reveal_strlit("Overview");
        lemma_ascii_heading("Overview");
        reveal_strlit("Topics");
        lemma_ascii_heading("Topics");
        reveal_strlit("Decisions");
        lemma_ascii_heading("Decisions");
        reveal_strlit("Questions");
        lemma_ascii_heading("Questions");
        reveal_strlit("Risks");
        lemma_ascii_heading("Risks");
        reveal_strlit("Next steps");
        lemma_ascii_heading("Next steps");
    }
    push_section(&mut content, "Overview", notes.overview.as_slice(), markdown);
    push_section(&mut content, "Topics", notes.topics.as_slice(), markdown);
    push_section(&mut content, "Decisions", notes.decisions.as_slice(), markdown);
    push_actions(&mut content, notes.actions.as_slice(), markdown);
    push_section(&mut content, "Questions", notes.questions.as_slice(), markdown);
    push_section(&mut content, "Risks", notes.risks.as_slice(), markdown);
    push_section(&mut content, "Next steps", notes.next_steps.as_slice(), markdown);
    assert(content@ =~= spec_format_notes(title@, notes@, markdown));
    content
}

} // verus!

verus! {

/// The notes with their approval and staleness replaced.
pub open spec fn with_review_state(notes: MeetingNotesView, approved: bool, stale: bool) -> MeetingNotesView {
    MeetingNotesView { approved, stale, ..notes }
}

/// Accepts the stored draft of a meeting's notes, read back with the approval and staleness that
/// the store holds: it must belong to the meeting and still cite the transcript exactly.
pub fn accept_stored_notes(
    notes: MeetingNotes,
    approved: bool,
    stale: bool,
    meeting_id: &str,
    segments: &[TranscriptSegmentRecord],
) -> (r: Result<MeetingNotes, String>)
    ensures
        notes.meeting_id@ != meeting_id@ ==> (r matches Err(m) && m@ == "Stored meeting notes do not belong to this meeting."@),
        notes.meeting_id@ == meeting_id@ ==> match (r, spec_validate_notes(with_review_state(notes@, approved, stale), records_view(segments@))) {
            (Ok(n), Ok(())) => n@ == with_review_state(notes@, approved, stale),
            (Err(e), Err(m)) => e@ == m,
            _ => false,
        },
{
    let mut notes = notes;
    notes.approved = approved;
    notes.stale = stale;
    if !str_equals(notes.meeting_id.as_str(), meeting_id) {
        return Err("Stored meeting notes do not belong to this meeting.".to_owned());
    }
    validate_notes(&notes, segments)?;
    Ok(notes)
}

/// Prepares edited notes for saving: an edit clears approval, keeps the staleness that the store
/// holds, and must still cite the transcript exactly.
pub fn prepare_saved_notes(notes: MeetingNotes, stored_stale: bool, segments: &[TranscriptSegmentRecord]) -> (r: Result<MeetingNotes, String>)
    ensures
        match (r, spec_validate_notes(with_review_state(notes@, false, stored_stale), records_view(segments@))) {
            (Ok(n), Ok(())) => n@ == with_review_state(notes@, false, stored_stale),
            (Err(e), Err(m)) => e@ == m,
            _ => false,
        },
{
    let mut notes = notes;
    notes.approved = false;
    notes.stale = stored_stale;
    validate_notes(&notes, segments)?;
    Ok(notes)
}

/// The export formats: Markdown or plain text.
pub open spec fn export_format_known(format: Seq<char>) -> bool {
    format == "markdown"@ || format == "text"@
}

/// Checks an export request before the store is read: the user confirmed the reviewed version,
/// the format is known, and the notes belong to the meeting.
pub fn check_export_request(meeting_id: &str, format: &str, review_confirmed: bool, notes: &MeetingNotes) -> (r: Result<(), String>)
    ensures
        r is Ok <==> review_confirmed && export_format_known(format@) && notes.meeting_id@ == meeting_id@,
        !review_confirmed ==> (r matches Err(m) && m@ == "Review the meeting notes and confirm them before exporting."@),
{
    if !review_confirmed {
        return Err("Review the meeting notes and confirm them before exporting.".to_owned());
    }
    if !str_equals(format, "markdown") && !str_equals(format, "text") {
        return Err("Export format must be markdown or text.".to_owned());
    }
    if !str_equals(notes.meeting_id.as_str(), meeting_id) {
        return Err("Meeting notes do not belong to this meeting.".to_owned());
    }
    Ok(())
}

/// Refuses to approve or export notes that a transcript correction made stale, whether the notes
/// in hand or those stored say so.
pub fn check_not_stale(notes_stale: bool, stored_stale: bool) -> (r: Result<(), String>)
    ensures
        r is Ok <==> !notes_stale && !stored_stale,
        r matches Err(m) ==> m@ == "The transcript changed after these notes were generated. Regenerate and review them before exporting."@,
{
    if notes_stale || stored_stale {
        return Err(
            "The transcript changed after these notes were generated. Regenerate and review them before exporting.".to_owned(),
        );
    }
    Ok(())
}

/// Approves notes for export: approved and not stale, still citing the transcript exactly.
pub fn approve_for_export(notes: MeetingNotes, segments: &[TranscriptSegmentRecord]) -> (r: Result<MeetingNotes, String>)
    ensures
        match (r, spec_validate_notes(with_review_state(notes@, true, false), records_view(segments@))) {
            (Ok(n), Ok(())) => n@ == with_review_state(notes@, true, false),
            (Err(e), Err(m)) => e@ == m,
            _ => false,
        },
{
    let mut notes = notes;
    notes.approved = true;
    notes.stale = false;
    validate_notes(&notes, segments)?;
    Ok(notes)
}

/// The file extension of an export: `md` for Markdown, `txt` otherwise.
pub fn export_extension(markdown: bool) -> (r: &'static str)
    ensures
        r@ == (if markdown { "md"@ } else { "txt"@ }),
{
    if markdown {
        "md"
    } else {
        "txt"
    }
}

} // verus!
