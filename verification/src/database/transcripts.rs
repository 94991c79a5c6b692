use vstd::prelude::*;
use super::{Database, DatabaseError};
use crate::sql::{
    begin_immediate, column_bool, column_i64, column_opt_text, column_text, commit, execute,
    guard_connection, guard_connection_mut, next_row, optional_text_param, prepare, query,
    sql_error_text, transaction_connection, key_params, opt_text_view, params_view, text_param,
    text_triple_params, ParamView, SqlParam,
};
use crate::text::{
    char_vec, decimal, is_blank, push_char, push_decimal, push_str, spec_trim, spec_words, split_words, str_equals, trim,
};
use super::workflow::{lemma_meeting_state_names_distinct, meeting_state_name, MeetingState};

verus! {

/// One passage of recognised speech, before it is stored.
#[derive(Clone, Debug, PartialEq, Eq)]
pub struct TranscriptSegmentInput {
    pub start_ms: i64,
    pub end_ms: i64,
    pub speaker_label: Option<String>,
    pub source_track: Option<String>,
    pub text: String,
}

/// A segment to store, with its texts as character sequences.
pub struct TranscriptSegmentInputView {
    pub start_ms: int,
    pub end_ms: int,
    pub speaker_label: Option<Seq<char>>,
    pub source_track: Option<Seq<char>>,
    pub text: Seq<char>,
}

impl View for TranscriptSegmentInput {
    type V = TranscriptSegmentInputView;

    open spec fn view(&self) -> TranscriptSegmentInputView {
        TranscriptSegmentInputView {
            start_ms: self.start_ms as int,
            end_ms: self.end_ms as int,
            speaker_label: self.speaker_label.deep_view(),
            source_track: self.source_track.deep_view(),
            text: self.text@,
        }
    }
}

/// A stored transcript segment together with its current display text.
#[derive(Debug)]
pub struct TranscriptSegmentRecord {
    pub id: String,
    pub sequence_number: i64,
    pub start_ms: i64,
    pub end_ms: i64,
    pub speaker_label: Option<String>,
    pub source_track: Option<String>,
    pub source_text: String,
    pub display_text: String,
    pub active_correction_id: Option<String>,
}

/// A stored segment, with its texts as character sequences.
pub struct TranscriptSegmentRecordView {
    pub id: Seq<char>,
    pub sequence_number: int,
    pub start_ms: int,
    pub end_ms: int,
    pub speaker_label: Option<Seq<char>>,
    pub source_track: Option<Seq<char>>,
    pub source_text: Seq<char>,
    pub display_text: Seq<char>,
    pub active_correction_id: Option<Seq<char>>,
}

impl View for TranscriptSegmentRecord {
    type V = TranscriptSegmentRecordView;

    open spec fn view(&self) -> TranscriptSegmentRecordView {
        TranscriptSegmentRecordView {
            id: self.id@,
            sequence_number: self.sequence_number as int,
            start_ms: self.start_ms as int,
            end_ms: self.end_ms as int,
            speaker_label: self.speaker_label.deep_view(),
            source_track: self.source_track.deep_view(),
            source_text: self.source_text@,
            display_text: self.display_text@,
            active_correction_id: self.active_correction_id.deep_view(),
        }
    }
}

/// The views of a list of segment records.
pub open spec fn records_view(s: Seq<TranscriptSegmentRecord>) -> Seq<TranscriptSegmentRecordView> {
    s.map_values(|r: TranscriptSegmentRecord| r@)
}

} // verus!

verus! {

/// A term with each double quote doubled, as the full-text query syntax escapes it.
pub open spec fn fts_escape(t: Seq<char>) -> Seq<char>
    decreases t.len(),
{
    if t.len() == 0 {
        Seq::empty()
    } else {
        fts_escape(t.drop_last()) + if t.last() == '"' {
            seq!['"', '"']
        } else {
            seq![t.last()]
        }
    }
}

/// A term as a quoted full-text phrase.
pub open spec fn fts_phrase(t: Seq<char>) -> Seq<char> {
    seq!['"'] + fts_escape(t) + seq!['"']
}

/// The parts joined by single spaces.
pub open spec fn join_with_space(parts: Seq<Seq<char>>) -> Seq<char>
    decreases parts.len(),
{
    if parts.len() == 0 {
        Seq::empty()
    } else if parts.len() == 1 {
        parts[0]
    } else {
        join_with_space(parts.drop_last()) + seq![' '] + parts.last()
    }
}

/// The full-text query for a search: each whitespace-separated word as a quoted phrase, joined
/// by spaces, so that the words are matched literally and all of them must occur.
pub open spec fn spec_search_terms(query: Seq<char>) -> Seq<char> {
    join_with_space(spec_words(query).map_values(|w: Seq<char>| fts_phrase(w)))
}

/// Builds the full-text query for a search text.
pub fn search_terms(query: &str) -> (r: String)
    ensures
        r@ == spec_search_terms(query@),
{
    let chars = char_vec(query);
    let words = split_words(chars.as_slice());
    let ghost phrases = spec_words(query@).map_values(|w: Seq<char>| fts_phrase(w));
    let mut out = String::new();
    let mut k: usize = 0;
    while k < words.len()
        invariant
            k <= words.len(),
            words@.map_values(|w: Vec<char>| w@) == spec_words(query@),
            phrases == spec_words(query@).map_values(|w: Seq<char>| fts_phrase(w)),
            out@ == join_with_space(phrases.take(k as int)),
        decreases words.len() - k,
    {
        let ghost before = out@;
        if k > 0 {
            push_char(&mut out, ' ');
        }
        push_char(&mut out, '"');
        let word = &words[k];
        let ghost w = word@;
        assert(w == spec_words(query@)[k as int]);
        let mut j: usize = 0;
        while j < word.len()
            invariant
                j <= word.len(),
                w == word@,
                out@ == before + (if k > 0 { seq![' '] } else { Seq::<char>::empty() }) + seq!['"'] + fts_escape(w.take(j as int)),
            decreases word.len() - j,
        {
            let c = word[j];
            if c == '"' {
                push_char(&mut out, '"');
                push_char(&mut out, '"');
            } else {
                push_char(&mut out, c);
            }
            proof {
                assert(w.take(j + 1).drop_last() =~= w.take(j as int));
                assert(w.take(j + 1).last() == c);
            }
            assert(out@ =~= before + (if k > 0 { seq![' '] } else { Seq::<char>::empty() }) + seq!['"'] + fts_escape(w.take(j + 1)));
            j = j + 1;
        }
        push_char(&mut out, '"');
        proof {
            assert(w.take(w.len() as int) =~= w);
            assert(phrases[k as int] == fts_phrase(w));
            let t = phrases.take(k + 1);
            assert(t.drop_last() =~= phrases.take(k as int));
            assert(t.last() == fts_phrase(w));
            if k == 0 {
                assert(t.len() == 1 && t[0] == fts_phrase(w));
            }
        }
        assert(out@ =~= join_with_space(phrases.take(k + 1)));
        k = k + 1;
    }
    assert(phrases.take(words.len() as int) =~= phrases);
    out
}

} // verus!

verus! {

/// A full-text match: the meeting, the segment and where it starts, with a highlighted snippet.
#[derive(Debug)]
pub struct TranscriptSearchResult {
    pub meeting_id: String,
    pub meeting_title: String,
    pub segment_id: String,
    pub start_ms: i64,
    pub snippet: String,
}

/// Why a transcript request was refused or could not be carried out.
#[derive(Debug)]
pub enum TranscriptError {
    Database(DatabaseError),
    Sql(rusqlite::Error),
    MeetingNotFound(String),
    InvalidSegment,
    InvalidSpeakerLabel,
}

/// A transcript error with its texts as character sequences and the outside errors it carries kept as they are.
pub enum TranscriptFault {
    Database(DatabaseError),
    Sql(rusqlite::Error),
    MeetingNotFound(Seq<char>),
    InvalidSegment,
    InvalidSpeakerLabel,
}

impl View for TranscriptError {
    type V = TranscriptFault;

    open spec fn view(&self) -> TranscriptFault {
        match self {
            TranscriptError::Database(e) => TranscriptFault::Database(*e),
            TranscriptError::Sql(e) => TranscriptFault::Sql(*e),
            TranscriptError::MeetingNotFound(id) => TranscriptFault::MeetingNotFound(id@),
            TranscriptError::InvalidSegment => TranscriptFault::InvalidSegment,
            TranscriptError::InvalidSpeakerLabel => TranscriptFault::InvalidSpeakerLabel,
        }
    }
}

impl From<DatabaseError> for TranscriptError {
    fn from(error: DatabaseError) -> (r: Self) {
        TranscriptError::Database(error)
    }
}

impl vstd::std_specs::convert::FromSpecImpl<DatabaseError> for TranscriptError {
    open spec fn obeys_from_spec() -> bool {
        true
    }

    open spec fn from_spec(v: DatabaseError) -> TranscriptError {
        TranscriptError::Database(v)
    }
}

impl From<rusqlite::Error> for TranscriptError {
    fn from(error: rusqlite::Error) -> (r: Self) {
        TranscriptError::Sql(error)
    }
}

impl vstd::std_specs::convert::FromSpecImpl<rusqlite::Error> for TranscriptError {
    open spec fn obeys_from_spec() -> bool {
        true
    }

    open spec fn from_spec(v: rusqlite::Error) -> TranscriptError {
        TranscriptError::Sql(v)
    }
}

impl TranscriptError {
    /// A description of the error for the user.
    pub fn message(&self) -> (r: String)
        ensures
            self matches TranscriptError::MeetingNotFound(id) ==> r@ == "meeting not found: "@ + id@,
            self matches TranscriptError::InvalidSegment ==> r@ == "transcript segment has invalid timing or empty text"@,
            self matches TranscriptError::InvalidSpeakerLabel ==> r@ == "speaker label must contain 1 to 80 characters"@,
            self is Sql ==> "transcript database error: "@.is_prefix_of(r@),
    {
        match self {
            TranscriptError::Database(error) => error.message(),
            TranscriptError::Sql(error) => {
                let mut s = String::from_str("transcript database error: ");
                let ghost prefix = s@;
                push_str(&mut s, sql_error_text(error).as_str());
                assert(prefix =~= s@.subrange(0, prefix.len() as int));
                s
            },
            TranscriptError::MeetingNotFound(id) => {
                let mut s = String::from_str("meeting not found: ");
                push_str(&mut s, id.as_str());
                s
            },
            TranscriptError::InvalidSegment => String::from_str("transcript segment has invalid timing or empty text"),
            TranscriptError::InvalidSpeakerLabel => String::from_str("speaker label must contain 1 to 80 characters"),
        }
    }
}

/// A segment can be stored when its timing is not negative, it does not end before it starts,
/// and its text is not blank.
pub open spec fn valid_segment(segment: TranscriptSegmentInputView) -> bool {
    &&& segment.start_ms >= 0
    &&& segment.end_ms >= segment.start_ms
    &&& spec_trim(segment.text).len() > 0
}

/// Refuses a transcript when any of its segments cannot be stored.
pub fn check_segments(segments: &[TranscriptSegmentInput]) -> (r: Result<(), TranscriptError>)
    ensures
        r is Ok <==> forall|k: int| 0 <= k < segments.len() ==> valid_segment(#[trigger] segments@[k]@),
        r matches Err(e) ==> e@ == TranscriptFault::InvalidSegment,
{
    let mut k: usize = 0;
    while k < segments.len()
        invariant
            k <= segments.len(),
            forall|m: int| 0 <= m < k ==> valid_segment(#[trigger] segments@[m]@),
        decreases segments.len() - k,
    {
        let segment = &segments[k];
        if segment.start_ms < 0 || segment.end_ms < segment.start_ms || is_blank(segment.text.as_str()) {
            assert(!valid_segment(segments@[k as int]@));
            return Err(TranscriptError::InvalidSegment);
        }
        k = k + 1;
    }
    Ok(())
}

/// The id of the `index`-th source segment of a meeting.
pub open spec fn spec_source_segment_id(meeting_id: Seq<char>, index: nat) -> Seq<char> {
    meeting_id + ":source:"@ + decimal(index)
}

/// Builds the id of the `index`-th source segment of a meeting.
pub fn source_segment_id(meeting_id: &str, index: u64) -> (r: String)
    ensures
        r@ == spec_source_segment_id(meeting_id@, index as nat),
{
    let mut id = meeting_id.to_string();
    push_str(&mut id, ":source:");
    push_decimal(&mut id, index);
    id
}

/// The row the `index`-th source segment of a meeting is stored as: its id, the meeting, its
/// position, its times, its speaker, its trimmed text and its track.
pub open spec fn spec_source_segment_insert(meeting_id: Seq<char>, index: u64, segment: TranscriptSegmentInputView) -> Seq<ParamView> {
    seq![
        ParamView::Text(spec_source_segment_id(meeting_id, index as nat)),
        ParamView::Text(meeting_id),
        ParamView::Integer((index as i64) as int),
        ParamView::Integer(segment.start_ms),
        ParamView::Integer(segment.end_ms),
        opt_text_view(segment.speaker_label),
        ParamView::Text(spec_trim(segment.text)),
        opt_text_view(segment.source_track),
    ]
}

/// The parameters of the insert of a source segment (see `spec_source_segment_insert`).
pub fn source_segment_params(meeting_id: &str, index: u64, segment: &TranscriptSegmentInput) -> (r: [SqlParam; 8])
    ensures
        params_view(r@) == spec_source_segment_insert(meeting_id@, index, segment@),
{
    let r: [SqlParam; 8] = [
        SqlParam::Text(source_segment_id(meeting_id, index)),
        text_param(meeting_id),
        SqlParam::Integer(index as i64),
        SqlParam::Integer(segment.start_ms),
        SqlParam::Integer(segment.end_ms),
        optional_text_param(&segment.speaker_label),
        SqlParam::Text(trim(segment.text.as_str())),
        optional_text_param(&segment.source_track),
    ];
    assert(params_view(r@) =~= spec_source_segment_insert(meeting_id@, index, segment@));
    r
}

/// The longest speaker label, in characters.
pub const MAX_SPEAKER_LABEL_CHARS: usize = 80;

/// Checks a speaker rename: the current label must not be blank, and the new one, trimmed, must
/// hold 1 to 80 characters; gives the trimmed new label.
pub fn check_speaker_label(current_label: &str, new_label: &str) -> (r: Result<String, TranscriptError>)
    ensures
        r is Ok <==> spec_trim(current_label@).len() > 0 && 0 < spec_trim(new_label@).len() <= MAX_SPEAKER_LABEL_CHARS,
        r matches Ok(label) ==> label@ == spec_trim(new_label@),
        r matches Err(e) ==> e@ == TranscriptFault::InvalidSpeakerLabel,
{
    let label = trim(new_label);
    let label_chars = char_vec(label.as_str());
    if is_blank(current_label) || label_chars.len() == 0 || label_chars.len() > MAX_SPEAKER_LABEL_CHARS {
        return Err(TranscriptError::InvalidSpeakerLabel);
    }
    Ok(label)
}

/// A database call's result, with a failure reported as a SQL error of the transcript request.
fn lift_sql<T>(r: Result<T, rusqlite::Error>) -> (out: Result<T, TranscriptError>)
    ensures
        r is Ok <==> out is Ok,
        r is Ok ==> out->Ok_0 == r->Ok_0,
        r is Err ==> out->Err_0@ == TranscriptFault::Sql(r->Err_0),
{
    match r {
        Ok(value) => Ok(value),
        Err(error) => Err(TranscriptError::Sql(error)),
    }
}

/// A store access's result, with a failure reported as a store error of the transcript request.
fn lift_database<T>(r: Result<T, DatabaseError>) -> (out: Result<T, TranscriptError>)
    ensures
        r is Ok <==> out is Ok,
        r is Ok ==> out->Ok_0 == r->Ok_0,
        r is Err ==> out->Err_0@ == TranscriptFault::Database(r->Err_0),
{
    match r {
        Ok(value) => Ok(value),
        Err(error) => Err(TranscriptError::Database(error)),
    }
}

/// Whether a meeting with this id exists.
fn meeting_exists(conn: &rusqlite::Connection, meeting_id: &str) -> (r: Result<bool, rusqlite::Error>) {
    let mut statement = prepare(conn, "SELECT EXISTS(SELECT 1 FROM meetings WHERE id = ?1)")?;
    let params = key_params(meeting_id);
    let mut rows = query(&mut statement, &params)?;
    match next_row(&mut rows)? {
        Some(row) => column_bool(row, 0),
        None => Ok(false),
    }
}

/// How many source segments a meeting has.
fn segment_count(conn: &rusqlite::Connection, meeting_id: &str) -> (r: Result<i64, rusqlite::Error>) {
    let mut statement = prepare(conn, "SELECT COUNT(*) FROM transcript_segments WHERE meeting_id = ?1")?;
    let params = key_params(meeting_id);
    let mut rows = query(&mut statement, &params)?;
    match next_row(&mut rows)? {
        Some(row) => column_i64(row, 0),
        None => Ok(0),
    }
}

/// The segments of a meeting in order, each with its current display text.
fn query_transcript(conn: &rusqlite::Connection, meeting_id: &str) -> (r: Result<Vec<TranscriptSegmentRecord>, rusqlite::Error>) {
    let mut statement = prepare(
        conn,
        "SELECT s.id, s.sequence_number, s.start_ms, s.end_ms, s.speaker_label,
                s.source_track, c.source_text, c.display_text, c.active_correction_id
         FROM transcript_segments s
         JOIN transcript_current_text c ON c.segment_id = s.id
         WHERE s.meeting_id = ?1 ORDER BY s.sequence_number",
    )?;
    let params = key_params(meeting_id);
    let mut rows = query(&mut statement, &params)?;
    let mut records: Vec<TranscriptSegmentRecord> = Vec::new();
    loop
        decreases usize::MAX - records.len(),
    {
        match next_row(&mut rows)? {
            Some(row) => {
                let record = TranscriptSegmentRecord {
                    id: column_text(row, 0)?,
                    sequence_number: column_i64(row, 1)?,
                    start_ms: column_i64(row, 2)?,
                    end_ms: column_i64(row, 3)?,
                    speaker_label: column_opt_text(row, 4)?,
                    source_track: column_opt_text(row, 5)?,
                    source_text: column_text(row, 6)?,
                    display_text: column_text(row, 7)?,
                    active_correction_id: column_opt_text(row, 8)?,
                };
                if records.len() == usize::MAX {
                    break;
                }
                records.push(record);
            },
            None => break,
        }
    }
    Ok(records)
}

/// Whether a meeting in this stored lifecycle state is shown in search: every state but archived.
pub open spec fn spec_searchable(state: Seq<char>) -> bool {
    state != "archived"@
}

/// Whether a meeting in this stored lifecycle state is shown in search (see `spec_searchable`).
/// The search statement already leaves archived meetings out; each row is checked again here.
pub fn searchable_state(state: &str) -> (r: bool)
    ensures
        r == spec_searchable(state@),
{
    !str_equals(state, "archived")
}

/// Archived meetings are left out of search, and meetings in every other lifecycle state are
/// searched: a row is kept exactly when its stored state is not the archived one.
pub proof fn lemma_archived_meetings_are_not_searched(state: MeetingState)
    ensures
        spec_searchable(meeting_state_name(state)) <==> state != MeetingState::Archived,
{
    reveal_strlit("archived");
    lemma_meeting_state_names_distinct(state, MeetingState::Archived);
}

/// The statement that marks a meeting as updated now.
pub const TOUCH_MEETING_SQL: &'static str = "UPDATE meetings SET updated_at = strftime('%Y-%m-%dT%H:%M:%fZ', 'now') WHERE id = ?1";

impl Database {
    /// Stores the source transcript of a meeting once: its segments in order, with trimmed text and
    /// ids `<meeting>:source:<index>`. A meeting that already has segments keeps them. Returns the
    /// stored transcript. Invalid segments are refused before the store is touched.
    pub fn store_source_transcript(&self, meeting_id: &str, segments: &[TranscriptSegmentInput]) -> (r: Result<Vec<TranscriptSegmentRecord>, TranscriptError>)
        ensures
            (r matches Err(e) && e@ == TranscriptFault::InvalidSegment) <==> exists|k: int|
                0 <= k < segments.len() && !valid_segment(#[trigger] segments@[k]@),
            r matches Err(TranscriptError::MeetingNotFound(id)) ==> id@ == meeting_id@,
    {
        check_segments(segments)?;
        let mut guard = lift_database(self.connection())?;
        let transaction = lift_sql(begin_immediate(guard_connection_mut(&mut guard)))?;
        let exists = lift_sql(meeting_exists(transaction_connection(&transaction), meeting_id))?;
        if !exists {
            return Err(TranscriptError::MeetingNotFound(meeting_id.to_string()));
        }
        let existing = lift_sql(segment_count(transaction_connection(&transaction), meeting_id))?;
        if existing == 0 {
            let mut k: usize = 0;
            while k < segments.len()
                invariant
                    k <= segments.len(),
                    forall|m: int| 0 <= m < segments.len() ==> valid_segment(#[trigger] segments@[m]@),
                decreases segments.len() - k,
            {
                let insert = source_segment_params(meeting_id, k as u64, &segments[k]);
                lift_sql(execute(
                    transaction_connection(&transaction),
                    "INSERT INTO transcript_segments
                        (id, meeting_id, sequence_number, start_ms, end_ms, speaker_label, language_code, source_text, source_track)
                     VALUES (?1, ?2, ?3, ?4, ?5, ?6, 'en', ?7, ?8)",
                    &insert,
                ))?;
                k = k + 1;
            }
            let touch = key_params(meeting_id);
            lift_sql(execute(transaction_connection(&transaction), TOUCH_MEETING_SQL, &touch))?;
        }
        let records = lift_sql(query_transcript(transaction_connection(&transaction), meeting_id))?;
        lift_sql(commit(transaction))?;
        Ok(records)
    }

    /// The transcript of a meeting, in order, each segment with its current display text.
    pub fn list_transcript(&self, meeting_id: &str) -> (r: Result<Vec<TranscriptSegmentRecord>, TranscriptError>)
        ensures
            r matches Err(TranscriptError::MeetingNotFound(id)) ==> id@ == meeting_id@,
    {
        let guard = lift_database(self.connection())?;
        let exists = lift_sql(meeting_exists(guard_connection(&guard), meeting_id))?;
        if !exists {
            return Err(TranscriptError::MeetingNotFound(meeting_id.to_string()));
        }
        lift_sql(query_transcript(guard_connection(&guard), meeting_id))
    }

    /// Deletes the transcript of a meeting, with its corrections and its notes; tells whether there
    /// was one.
    pub fn delete_transcript(&self, meeting_id: &str) -> (r: Result<bool, TranscriptError>)
        ensures
            r matches Err(TranscriptError::MeetingNotFound(id)) ==> id@ == meeting_id@,
    {
        let mut guard = lift_database(self.connection())?;
        let transaction = lift_sql(begin_immediate(guard_connection_mut(&mut guard)))?;
        let exists = lift_sql(meeting_exists(transaction_connection(&transaction), meeting_id))?;
        if !exists {
            return Err(TranscriptError::MeetingNotFound(meeting_id.to_string()));
        }
        let params = key_params(meeting_id);
        let deleted = lift_sql(execute(
            transaction_connection(&transaction),
            "DELETE FROM transcript_segments WHERE meeting_id = ?1",
            &params,
        ))?;
        if deleted > 0 {
            lift_sql(execute(
                transaction_connection(&transaction),
                "DELETE FROM meeting_notes WHERE meeting_id = ?1",
                &params,
            ))?;
            lift_sql(execute(transaction_connection(&transaction), TOUCH_MEETING_SQL, &params))?;
        }
        lift_sql(commit(transaction))?;
        Ok(deleted > 0)
    }

    /// Renames a speaker in a meeting's transcript; gives how many segments changed.
    pub fn rename_speaker_label(&self, meeting_id: &str, current_label: &str, new_label: &str) -> (r: Result<usize, TranscriptError>)
        ensures
            (r matches Err(e) && e@ == TranscriptFault::InvalidSpeakerLabel) <==> !(spec_trim(current_label@).len() > 0
                && 0 < spec_trim(new_label@).len() <= MAX_SPEAKER_LABEL_CHARS),
            r matches Err(TranscriptError::MeetingNotFound(id)) ==> id@ == meeting_id@,
    {
        let label = check_speaker_label(current_label, new_label)?;
        let mut guard = lift_database(self.connection())?;
        let transaction = lift_sql(begin_immediate(guard_connection_mut(&mut guard)))?;
        let exists = lift_sql(meeting_exists(transaction_connection(&transaction), meeting_id))?;
        if !exists {
            return Err(TranscriptError::MeetingNotFound(meeting_id.to_string()));
        }
        let update = text_triple_params(label.as_str(), meeting_id, current_label);
        let changed = lift_sql(execute(
            transaction_connection(&transaction),
            "UPDATE transcript_segments SET speaker_label = ?1
             WHERE meeting_id = ?2 AND speaker_label = ?3",
            &update,
        ))?;
        if changed > 0 {
            let touch = key_params(meeting_id);
            lift_sql(execute(transaction_connection(&transaction), TOUCH_MEETING_SQL, &touch))?;
        }
        lift_sql(commit(transaction))?;
        Ok(changed)
    }

    /// Searches the current text of all transcripts outside archived meetings for segments holding
    /// every word of `query`, best matches first, at most fifty. A query without words finds nothing.
    pub fn search_transcripts(&self, query_text: &str) -> (r: Result<Vec<TranscriptSearchResult>, TranscriptError>)
        ensures
            spec_search_terms(query_text@).len() == 0 ==> (r matches Ok(found) && found.len() == 0),
    {
        let terms = search_terms(query_text);
        if terms.as_str().is_empty() {
            return Ok(Vec::new());
        }
        let guard = lift_database(self.connection())?;
        let mut statement = lift_sql(prepare(
            guard_connection(&guard),
            "SELECT s.meeting_id, m.title, s.segment_id, t.start_ms,
                    snippet(transcript_search, 2, '<mark>', '</mark>', '…', 16), m.lifecycle_state
             FROM transcript_search s
             JOIN meetings m ON m.id = s.meeting_id
             JOIN transcript_segments t ON t.id = s.segment_id
             WHERE transcript_search MATCH ?1 AND m.lifecycle_state != 'archived'
             ORDER BY rank LIMIT 50",
        ))?;
        let params = key_params(terms.as_str());
        let mut rows = lift_sql(query(&mut statement, &params))?;
        let mut results: Vec<TranscriptSearchResult> = Vec::new();
        let mut seen: usize = 0;
        loop
            invariant
                spec_search_terms(query_text@).len() > 0,
            decreases usize::MAX - seen,
        {
            match lift_sql(next_row(&mut rows))? {
                Some(row) => {
                    let result = TranscriptSearchResult {
                        meeting_id: lift_sql(column_text(row, 0))?,
                        meeting_title: lift_sql(column_text(row, 1))?,
                        segment_id: lift_sql(column_text(row, 2))?,
                        start_ms: lift_sql(column_i64(row, 3))?,
                        snippet: lift_sql(column_text(row, 4))?,
                    };
                    let state = lift_sql(column_text(row, 5))?;
                    if seen == usize::MAX {
                        break;
                    }
                    seen = seen + 1;
                    if searchable_state(state.as_str()) {
                        results.push(result);
                    }
                },
                None => break,
            }
        }
        Ok(results)
    }
}

} // verus!

verus! {

/// The source segments of a meeting get distinct ids, one per position.
pub proof fn lemma_source_segment_ids_distinct(meeting_id: Seq<char>, a: nat, b: nat)
    requires
        a != b,
    ensures
        spec_source_segment_id(meeting_id, a) != spec_source_segment_id(meeting_id, b),
{
    crate::text::lemma_decimal_injective(a, b);
    let prefix = meeting_id + ":source:"@;
    let x = spec_source_segment_id(meeting_id, a);
    let y = spec_source_segment_id(meeting_id, b);
    assert(x == prefix + decimal(a));
    assert(y == prefix + decimal(b));
    if x == y {
        assert(decimal(a) =~= x.subrange(prefix.len() as int, x.len() as int));
        assert(decimal(b) =~= y.subrange(prefix.len() as int, y.len() as int));
    }
}

} // verus!
