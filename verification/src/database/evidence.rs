//! Revisioned corrections, translations and romanizations kept beside the immutable source text.
use vstd::prelude::*;
use super::{Database, DatabaseError};
use crate::sql::{
    begin_immediate, column_bool, column_i64, column_opt_text, column_text, commit, execute,
    guard_connection, guard_connection_mut, next_row, optional_text_param, prepare, query,
    sql_error_text, transaction_connection, key_params, opt_text_view, params_view, text_param,
    ParamView, SqlParam,
};
use crate::text::{opt_str_eq, push_str, spec_trim, str_equals, trim};

verus! {

/// What a derivative adds to a source segment.
#[derive(Clone, Copy, Debug, PartialEq, Eq, Structural)]
pub enum DerivativeKind {
    Correction,
    Translation,
    Romanization,
}

/// The name under which a derivative kind is stored.
pub open spec fn derivative_kind_name(kind: DerivativeKind) -> Seq<char> {
    match kind {
        DerivativeKind::Correction => "correction"@,
        DerivativeKind::Translation => "translation"@,
        DerivativeKind::Romanization => "romanization"@,
    }
}

impl DerivativeKind {
    /// The stored name of the kind.
    pub fn as_str(self) -> (r: &'static str)
        ensures
            r@ == derivative_kind_name(self),
    {
        match self {
            DerivativeKind::Correction => "correction",
            DerivativeKind::Translation => "translation",
            DerivativeKind::Romanization => "romanization",
        }
    }

    /// Reads a stored kind name; any other text is refused as an invalid stored value.
    pub fn parse(value: &str) -> (r: Result<DerivativeKind, EvidenceError>)
        ensures
            match r {
                Ok(kind) => derivative_kind_name(kind) == value@,
                Err(e) => e@ == EvidenceFault::InvalidStoredValue(value@)
                    && forall|kind: DerivativeKind| derivative_kind_name(kind) != value@,
            },
    {
        if str_equals(value, "correction") {
            Ok(DerivativeKind::Correction)
        } else if str_equals(value, "translation") {
            Ok(DerivativeKind::Translation)
        } else if str_equals(value, "romanization") {
            Ok(DerivativeKind::Romanization)
        } else {
            assert forall|kind: DerivativeKind| derivative_kind_name(kind) != value@ by {
                match kind {
                    DerivativeKind::Correction => {},
                    DerivativeKind::Translation => {},
                    DerivativeKind::Romanization => {},
                }
            }
            Err(EvidenceError::InvalidStoredValue(value.to_string()))
        }
    }
}

/// Who wrote a derivative.
#[derive(Clone, Copy, Debug, PartialEq, Eq, Structural)]
pub enum AuthorKind {
    User,
    Model,
}

/// The name under which an author kind is stored.
pub open spec fn author_kind_name(author: AuthorKind) -> Seq<char> {
    match author {
        AuthorKind::User => "user"@,
        AuthorKind::Model => "model"@,
    }
}

impl AuthorKind {
    /// The stored name of the author kind.
    pub fn as_str(self) -> (r: &'static str)
        ensures
            r@ == author_kind_name(self),
    {
        match self {
            AuthorKind::User => "user",
            AuthorKind::Model => "model",
        }
    }

    /// Reads a stored author name; any other text is refused as an invalid stored value.
    pub fn parse(value: &str) -> (r: Result<AuthorKind, EvidenceError>)
        ensures
            match r {
                Ok(author) => author_kind_name(author) == value@,
                Err(e) => e@ == EvidenceFault::InvalidStoredValue(value@)
                    && forall|author: AuthorKind| author_kind_name(author) != value@,
            },
    {
        if str_equals(value, "user") {
            Ok(AuthorKind::User)
        } else if str_equals(value, "model") {
            Ok(AuthorKind::Model)
        } else {
            assert forall|author: AuthorKind| author_kind_name(author) != value@ by {
                match author {
                    AuthorKind::User => {},
                    AuthorKind::Model => {},
                }
            }
            Err(EvidenceError::InvalidStoredValue(value.to_string()))
        }
    }
}

impl std::str::FromStr for DerivativeKind {
    type Err = EvidenceError;

    fn from_str(value: &str) -> (r: Result<DerivativeKind, EvidenceError>)
        ensures
            match r {
                Ok(kind) => derivative_kind_name(kind) == value@,
                Err(e) => e@ == EvidenceFault::InvalidStoredValue(value@)
                    && forall|kind: DerivativeKind| derivative_kind_name(kind) != value@,
            },
    {
        DerivativeKind::parse(value)
    }
}

impl std::str::FromStr for AuthorKind {
    type Err = EvidenceError;

    fn from_str(value: &str) -> (r: Result<AuthorKind, EvidenceError>)
        ensures
            match r {
                Ok(author) => author_kind_name(author) == value@,
                Err(e) => e@ == EvidenceFault::InvalidStoredValue(value@)
                    && forall|author: AuthorKind| author_kind_name(author) != value@,
            },
    {
        AuthorKind::parse(value)
    }
}

/// Distinct kinds and distinct authors are stored under distinct names, so a stored name reads
/// back as what wrote it.
pub proof fn lemma_evidence_names_distinct(a: DerivativeKind, b: DerivativeKind, x: AuthorKind, y: AuthorKind)
    ensures
        derivative_kind_name(a) == derivative_kind_name(b) ==> a == b,
        author_kind_name(x) == author_kind_name(y) ==> x == y,
{
    reveal_strlit("correction");
    reveal_strlit("translation");
    reveal_strlit("romanization");
    reveal_strlit("user");
    reveal_strlit("model");
    if derivative_kind_name(a) == derivative_kind_name(b) {
        assert(derivative_kind_name(a)[0] == derivative_kind_name(b)[0]);
    }
    if author_kind_name(x) == author_kind_name(y) {
        assert(author_kind_name(x)[0] == author_kind_name(y)[0]);
    }
}

/// A request to append a derivative to a source segment under a stable idempotency key.
#[derive(Debug)]
pub struct SegmentDerivativeInput {
    pub id: String,
    pub idempotency_key: String,
    pub segment_id: String,
    pub kind: DerivativeKind,
    pub author: AuthorKind,
    pub text: String,
    pub language_code: Option<String>,
    pub model_id: Option<String>,
}

/// A stored derivative with its revision and the one it supersedes, and whether this answer
/// replays an earlier request.
#[derive(Debug)]
pub struct SegmentDerivative {
    pub id: String,
    pub segment_id: String,
    pub kind: DerivativeKind,
    pub author: AuthorKind,
    pub revision_number: i64,
    pub text: String,
    pub language_code: Option<String>,
    pub model_id: Option<String>,
    pub supersedes_id: Option<String>,
    pub replayed: bool,
}

/// The source text of a segment beside the text to display, with the correction that gave it.
#[derive(Debug)]
pub struct SegmentText {
    pub segment_id: String,
    pub source_text: String,
    pub display_text: String,
    pub active_correction_id: Option<String>,
}

/// Why an evidence request was refused or could not be carried out.
#[derive(Debug)]
pub enum EvidenceError {
    Database(DatabaseError),
    Sql(rusqlite::Error),
    SegmentNotFound(String),
    EmptyText,
    IdempotencyConflict(String),
    InvalidStoredValue(String),
}

/// An evidence error with its texts as character sequences and the outside errors it carries kept as they are.
pub enum EvidenceFault {
    Database(DatabaseError),
    Sql(rusqlite::Error),
    SegmentNotFound(Seq<char>),
    EmptyText,
    IdempotencyConflict(Seq<char>),
    InvalidStoredValue(Seq<char>),
}

impl View for EvidenceError {
    type V = EvidenceFault;

    open spec fn view(&self) -> EvidenceFault {
        match self {
            EvidenceError::Database(e) => EvidenceFault::Database(*e),
            EvidenceError::Sql(e) => EvidenceFault::Sql(*e),
            EvidenceError::SegmentNotFound(id) => EvidenceFault::SegmentNotFound(id@),
            EvidenceError::EmptyText => EvidenceFault::EmptyText,
            EvidenceError::IdempotencyConflict(key) => EvidenceFault::IdempotencyConflict(key@),
            EvidenceError::InvalidStoredValue(value) => EvidenceFault::InvalidStoredValue(value@),
        }
    }
}

impl From<DatabaseError> for EvidenceError {
    fn from(error: DatabaseError) -> (r: Self) {
        EvidenceError::Database(error)
    }
}

impl vstd::std_specs::convert::FromSpecImpl<DatabaseError> for EvidenceError {
    open spec fn obeys_from_spec() -> bool {
        true
    }

    open spec fn from_spec(v: DatabaseError) -> EvidenceError {
        EvidenceError::Database(v)
    }
}

impl From<rusqlite::Error> for EvidenceError {
    fn from(error: rusqlite::Error) -> (r: Self) {
        EvidenceError::Sql(error)
    }
}

impl vstd::std_specs::convert::FromSpecImpl<rusqlite::Error> for EvidenceError {
    open spec fn obeys_from_spec() -> bool {
        true
    }

    open spec fn from_spec(v: rusqlite::Error) -> EvidenceError {
        EvidenceError::Sql(v)
    }
}

impl EvidenceError {
    /// A description of the error for the user.
    pub fn message(&self) -> (r: String)
        ensures
            self matches EvidenceError::SegmentNotFound(id) ==> r@ == "transcript segment not found: "@ + id@,
            self matches EvidenceError::EmptyText ==> r@ == "derived transcript text must not be empty"@,
            self matches EvidenceError::IdempotencyConflict(key) ==> r@
                == "idempotency key was reused with different input: "@ + key@,
            self matches EvidenceError::InvalidStoredValue(value) ==> r@ == "invalid stored evidence value: "@ + value@,
            self is Sql ==> "evidence database error: "@.is_prefix_of(r@),
    {
        match self {
            EvidenceError::Database(error) => error.message(),
            EvidenceError::Sql(error) => {
                let mut s = String::from_str("evidence database error: ");
                let ghost prefix = s@;
                push_str(&mut s, sql_error_text(error).as_str());
                assert(prefix =~= s@.subrange(0, prefix.len() as int));
                s
            },
            EvidenceError::SegmentNotFound(id) => {
                let mut s = String::from_str("transcript segment not found: ");
                push_str(&mut s, id.as_str());
                s
            },
            EvidenceError::EmptyText => String::from_str("derived transcript text must not be empty"),
            EvidenceError::IdempotencyConflict(key) => {
                let mut s = String::from_str("idempotency key was reused with different input: ");
                push_str(&mut s, key.as_str());
                s
            },
            EvidenceError::InvalidStoredValue(value) => {
                let mut s = String::from_str("invalid stored evidence value: ");
                push_str(&mut s, value.as_str());
                s
            },
        }
    }
}

/// The stored derivative was appended by this very request: same id, segment, kind, author, text,
/// language and model.
pub open spec fn appended_by(existing: SegmentDerivative, input: SegmentDerivativeInput) -> bool {
    &&& existing.id@ == input.id@
    &&& existing.segment_id@ == input.segment_id@
    &&& existing.kind == input.kind
    &&& existing.author == input.author
    &&& existing.text@ == input.text@
    &&& existing.language_code.deep_view() == input.language_code.deep_view()
    &&& existing.model_id.deep_view() == input.model_id.deep_view()
}

/// Answers an append whose idempotency key already names `existing`: that derivative again, marked
/// as replayed, when the request is the same; an idempotency conflict otherwise.
pub fn replay_derivative(existing: SegmentDerivative, input: &SegmentDerivativeInput) -> (r: Result<SegmentDerivative, EvidenceError>)
    ensures
        appended_by(existing, *input) ==> (r matches Ok(d) && d == SegmentDerivative { replayed: true, ..existing }),
        !appended_by(existing, *input) ==> (r matches Err(e)
            && e@ == EvidenceFault::IdempotencyConflict(input.idempotency_key@)),
{
    if !str_equals(existing.id.as_str(), input.id.as_str())
        || !str_equals(existing.segment_id.as_str(), input.segment_id.as_str())
        || existing.kind != input.kind || existing.author != input.author
        || !str_equals(existing.text.as_str(), input.text.as_str())
        || !opt_str_eq(&existing.language_code, &input.language_code)
        || !opt_str_eq(&existing.model_id, &input.model_id)
    {
        return Err(EvidenceError::IdempotencyConflict(input.idempotency_key.clone()));
    }
    Ok(SegmentDerivative { replayed: true, ..existing })
}

} // verus!

verus! {

/// A database call's result, with a failure reported as a SQL error of the evidence request.
fn lift_sql<T>(r: Result<T, rusqlite::Error>) -> (out: Result<T, EvidenceError>)
    ensures
        r is Ok <==> out is Ok,
        r is Ok ==> out->Ok_0 == r->Ok_0,
        r is Err ==> out->Err_0@ == EvidenceFault::Sql(r->Err_0),
{
    match r {
        Ok(value) => Ok(value),
        Err(error) => Err(EvidenceError::Sql(error)),
    }
}

/// A store access's result, with a failure reported as a store error of the evidence request.
fn lift_database<T>(r: Result<T, DatabaseError>) -> (out: Result<T, EvidenceError>)
    ensures
        r is Ok <==> out is Ok,
        r is Ok ==> out->Ok_0 == r->Ok_0,
        r is Err ==> out->Err_0@ == EvidenceFault::Database(r->Err_0),
{
    match r {
        Ok(value) => Ok(value),
        Err(error) => Err(EvidenceError::Database(error)),
    }
}

/// An error that comes from the store or from what it holds, not from the request.
pub open spec fn evidence_storage_fault(e: EvidenceFault) -> bool {
    e is Database || e is Sql || e is InvalidStoredValue
}

/// Reads a derivative from a row of `id, segment_id, derivative_kind, author_kind,
/// revision_number, derived_text, language_code, model_id, supersedes_id`.
fn map_derivative(row: &rusqlite::Row<'_>) -> (r: Result<SegmentDerivative, EvidenceError>)
    ensures
        r matches Ok(d) ==> !d.replayed,
        r matches Err(e) ==> evidence_storage_fault(e@),
{
    let stored_kind = lift_sql(column_text(row, 2))?;
    let stored_author = lift_sql(column_text(row, 3))?;
    let kind = DerivativeKind::parse(stored_kind.as_str())?;
    let author = AuthorKind::parse(stored_author.as_str())?;
    Ok(SegmentDerivative {
        id: lift_sql(column_text(row, 0))?,
        segment_id: lift_sql(column_text(row, 1))?,
        kind,
        author,
        revision_number: lift_sql(column_i64(row, 4))?,
        text: lift_sql(column_text(row, 5))?,
        language_code: lift_sql(column_opt_text(row, 6))?,
        model_id: lift_sql(column_opt_text(row, 7))?,
        supersedes_id: lift_sql(column_opt_text(row, 8))?,
        replayed: false,
    })
}

/// The first derivative that `sql` selects for `value`, if any.
fn find_derivative(conn: &rusqlite::Connection, sql: &str, value: &str) -> (r: Result<Option<SegmentDerivative>, EvidenceError>)
    ensures
        r matches Ok(Some(d)) ==> !d.replayed,
        r matches Err(e) ==> evidence_storage_fault(e@),
{
    let mut statement = lift_sql(prepare(conn, sql))?;
    let params = key_params(value);
    let mut rows = lift_sql(query(&mut statement, &params))?;
    match lift_sql(next_row(&mut rows))? {
        Some(row) => Ok(Some(map_derivative(row)?)),
        None => Ok(None),
    }
}

/// The derivative appended under `idempotency_key`, if any.
fn find_by_idempotency_key(conn: &rusqlite::Connection, idempotency_key: &str) -> (r: Result<Option<SegmentDerivative>, EvidenceError>)
    ensures
        r matches Ok(Some(d)) ==> !d.replayed,
        r matches Err(e) ==> evidence_storage_fault(e@),
{
    find_derivative(
        conn,
        "SELECT id, segment_id, derivative_kind, author_kind, revision_number,
                derived_text, language_code, model_id, supersedes_id
         FROM transcript_derivatives WHERE idempotency_key = ?1",
        idempotency_key,
    )
}

/// The derivative with id `derivative_id`, if any. A row read back under another id is reported as
/// an invalid stored value.
fn find_by_id(conn: &rusqlite::Connection, derivative_id: &str) -> (r: Result<Option<SegmentDerivative>, EvidenceError>)
    ensures
        r matches Ok(Some(d)) ==> !d.replayed && d.id@ == derivative_id@,
        r matches Err(e) ==> evidence_storage_fault(e@),
{
    let found = find_derivative(
        conn,
        "SELECT id, segment_id, derivative_kind, author_kind, revision_number,
                derived_text, language_code, model_id, supersedes_id
         FROM transcript_derivatives WHERE id = ?1",
        derivative_id,
    )?;
    match found {
        Some(derivative) => {
            if str_equals(derivative.id.as_str(), derivative_id) {
                Ok(Some(derivative))
            } else {
                Err(EvidenceError::InvalidStoredValue(derivative.id))
            }
        },
        None => Ok(None),
    }
}

/// Whether a source segment with this id exists.
fn segment_exists(conn: &rusqlite::Connection, segment_id: &str) -> (r: Result<bool, rusqlite::Error>) {
    let mut statement = prepare(conn, "SELECT EXISTS(SELECT 1 FROM transcript_segments WHERE id = ?1)")?;
    let params = key_params(segment_id);
    let mut rows = query(&mut statement, &params)?;
    match next_row(&mut rows)? {
        Some(row) => column_bool(row, 0),
        None => Ok(false),
    }
}

/// The newest revision of this kind on the segment (zero when there is none), and the id of that
/// newest derivative.
fn latest_revision(conn: &rusqlite::Connection, segment_id: &str, kind: DerivativeKind) -> (r: Result<Option<(i64, Option<String>)>, rusqlite::Error>) {
    let mut statement = prepare(
        conn,
        "SELECT
            COALESCE(MAX(revision_number), 0),
            (SELECT id
             FROM transcript_derivatives
             WHERE segment_id = ?1 AND derivative_kind = ?2
             ORDER BY revision_number DESC
             LIMIT 1)
         FROM transcript_derivatives
         WHERE segment_id = ?1 AND derivative_kind = ?2",
    )?;
    let params: [SqlParam; 2] = [SqlParam::Text(segment_id.to_string()), SqlParam::Text(kind.as_str().to_string())];
    let mut rows = query(&mut statement, &params)?;
    match next_row(&mut rows)? {
        Some(row) => Ok(Some((column_i64(row, 0)?, column_opt_text(row, 1)?))),
        None => Ok(None),
    }
}

/// The source and display text of a segment, if it exists.
fn find_segment_text(conn: &rusqlite::Connection, segment_id: &str) -> (r: Result<Option<SegmentText>, rusqlite::Error>) {
    let mut statement = prepare(
        conn,
        "SELECT segment_id, source_text, display_text, active_correction_id
         FROM transcript_current_text
         WHERE segment_id = ?1",
    )?;
    let params = key_params(segment_id);
    let mut rows = query(&mut statement, &params)?;
    match next_row(&mut rows)? {
        Some(row) => Ok(Some(SegmentText {
            segment_id: column_text(row, 0)?,
            source_text: column_text(row, 1)?,
            display_text: column_text(row, 2)?,
            active_correction_id: column_opt_text(row, 3)?,
        })),
        None => Ok(None),
    }
}

/// The revision a new derivative gets: one past the newest of its kind on the segment.
pub fn next_revision_number(latest: i64, segment_id: &str) -> (r: Result<i64, EvidenceError>)
    ensures
        r is Ok <==> latest < i64::MAX,
        r matches Ok(n) ==> n == latest + 1,
        r matches Err(e) ==> e@ == EvidenceFault::InvalidStoredValue(segment_id@),
{
    if latest == i64::MAX {
        Err(EvidenceError::InvalidStoredValue(segment_id.to_string()))
    } else {
        Ok(latest + 1)
    }
}

/// The row a fresh derivative inserts: its id and key, the segment, kind and author names, the
/// revision, the text as given, and the optional language, model and superseded derivative.
pub open spec fn spec_derivative_insert(
    input: SegmentDerivativeInput,
    revision: int,
    supersedes_id: Option<Seq<char>>,
) -> Seq<ParamView> {
    seq![
        ParamView::Text(input.id@),
        ParamView::Text(input.idempotency_key@),
        ParamView::Text(input.segment_id@),
        ParamView::Text(derivative_kind_name(input.kind)),
        ParamView::Text(author_kind_name(input.author)),
        ParamView::Integer(revision),
        ParamView::Text(input.text@),
        opt_text_view(input.language_code.deep_view()),
        opt_text_view(input.model_id.deep_view()),
        opt_text_view(supersedes_id),
    ]
}

/// The parameters of the insert of a fresh derivative (see `spec_derivative_insert`).
pub fn derivative_insert_params(input: &SegmentDerivativeInput, revision: i64, supersedes_id: &Option<String>) -> (r: [SqlParam; 10])
    ensures
        params_view(r@) == spec_derivative_insert(*input, revision as int, supersedes_id.deep_view()),
{
    let r: [SqlParam; 10] = [
        text_param(input.id.as_str()),
        text_param(input.idempotency_key.as_str()),
        text_param(input.segment_id.as_str()),
        text_param(input.kind.as_str()),
        text_param(input.author.as_str()),
        SqlParam::Integer(revision),
        text_param(input.text.as_str()),
        optional_text_param(&input.language_code),
        optional_text_param(&input.model_id),
        optional_text_param(supersedes_id),
    ];
    assert(params_view(r@) =~= spec_derivative_insert(*input, revision as int, supersedes_id.deep_view()));
    r
}

/// The insert of a fresh derivative, given the newest revision of its kind on the segment and that
/// derivative's id: the next revision (`next_revision_number`), superseding that one.
pub fn plan_derivative_insert(input: &SegmentDerivativeInput, latest: i64, supersedes_id: &Option<String>) -> (r: Result<[SqlParam; 10], EvidenceError>)
    ensures
        r is Ok <==> latest < i64::MAX,
        r matches Ok(p) ==> params_view(p@) == spec_derivative_insert(*input, latest + 1, supersedes_id.deep_view()),
        r matches Err(e) ==> e@ == EvidenceFault::InvalidStoredValue(input.segment_id@),
{
    let revision = next_revision_number(latest, input.segment_id.as_str())?;
    Ok(derivative_insert_params(input, revision, supersedes_id))
}

/// The columns of a stored derivative under `key`, in the order its insert writes them.
pub open spec fn derivative_row(stored: SegmentDerivative, key: Seq<char>) -> Seq<ParamView> {
    seq![
        ParamView::Text(stored.id@),
        ParamView::Text(key),
        ParamView::Text(stored.segment_id@),
        ParamView::Text(derivative_kind_name(stored.kind)),
        ParamView::Text(author_kind_name(stored.author)),
        ParamView::Integer(stored.revision_number as int),
        ParamView::Text(stored.text@),
        opt_text_view(stored.language_code.deep_view()),
        opt_text_view(stored.model_id.deep_view()),
        opt_text_view(stored.supersedes_id.deep_view()),
    ]
}

/// Two optional texts bound as parameters are equal only when they are the same.
proof fn lemma_opt_text_view_injective(a: Option<Seq<char>>, b: Option<Seq<char>>)
    ensures
        opt_text_view(a) == opt_text_view(b) ==> a == b,
{
}

/// Repeating an append returns its first result, marked as replayed: the derivative read back under
/// the key, when it holds the values the first append wrote (`spec_derivative_insert`), was appended
/// by this very request, so `replay_derivative` answers it again instead of inserting a second row.
pub proof fn lemma_written_derivative_replays(
    input: SegmentDerivativeInput,
    revision: int,
    supersedes_id: Option<Seq<char>>,
    stored: SegmentDerivative,
)
    requires
        derivative_row(stored, input.idempotency_key@) == spec_derivative_insert(input, revision, supersedes_id),
    ensures
        appended_by(stored, input),
{
    let read = derivative_row(stored, input.idempotency_key@);
    let written = spec_derivative_insert(input, revision, supersedes_id);
    assert(read[0] == written[0]);
    assert(read[2] == written[2]);
    assert(read[3] == written[3]);
    assert(read[4] == written[4]);
    assert(read[6] == written[6]);
    assert(read[7] == written[7]);
    assert(read[8] == written[8]);
    lemma_evidence_names_distinct(stored.kind, input.kind, stored.author, input.author);
    lemma_opt_text_view_injective(stored.language_code.deep_view(), input.language_code.deep_view());
    lemma_opt_text_view_injective(stored.model_id.deep_view(), input.model_id.deep_view());
}

/// Whether appending a derivative of this kind makes the meeting's notes stale: a correction
/// changes the text the notes were drawn from; a translation or romanization does not.
pub fn marks_notes_stale(kind: DerivativeKind) -> (r: bool)
    ensures
        r <==> kind == DerivativeKind::Correction,
{
    match kind {
        DerivativeKind::Correction => true,
        _ => false,
    }
}

impl Database {
    /// Appends a derivative to a source segment as its next revision of that kind, superseding the
    /// newest one, without touching the source text. A blank text is refused before the store is
    /// touched; a key that already names a derivative answers with it when the request is the same,
    /// and is refused otherwise.
    pub fn append_segment_derivative(&self, input: &SegmentDerivativeInput) -> (r: Result<SegmentDerivative, EvidenceError>)
        ensures
            (r matches Err(e) && e@ == EvidenceFault::EmptyText) <==> spec_trim(input.text@).len() == 0,
            r matches Ok(d) ==> d.id@ == input.id@,
            r matches Ok(d) ==> (d.replayed ==> d.id@ == input.id@ && d.segment_id@ == input.segment_id@
                && d.kind == input.kind && d.author == input.author && d.text@ == input.text@),
            r matches Err(EvidenceError::IdempotencyConflict(key)) ==> key@ == input.idempotency_key@,
            r matches Err(EvidenceError::SegmentNotFound(id)) ==> id@ == input.segment_id@,
    {
        let trimmed = trim(input.text.as_str());
        if trimmed.as_str().is_empty() {
            return Err(EvidenceError::EmptyText);
        }
        let mut guard = lift_database(self.connection())?;
        let transaction = lift_sql(begin_immediate(guard_connection_mut(&mut guard)))?;
        let existing = find_by_idempotency_key(transaction_connection(&transaction), input.idempotency_key.as_str())?;
        if let Some(existing) = existing {
            let answer = replay_derivative(existing, input);
            if answer.is_ok() {
                lift_sql(commit(transaction))?;
            }
            return answer;
        }
        let exists = lift_sql(segment_exists(transaction_connection(&transaction), input.segment_id.as_str()))?;
        if !exists {
            return Err(EvidenceError::SegmentNotFound(input.segment_id.clone()));
        }
        let (latest, supersedes_id) = match lift_sql(
            latest_revision(transaction_connection(&transaction), input.segment_id.as_str(), input.kind),
        )? {
            Some(found) => found,
            None => return Err(EvidenceError::SegmentNotFound(input.segment_id.clone())),
        };
        let insert = plan_derivative_insert(input, latest, &supersedes_id)?;
        lift_sql(execute(
            transaction_connection(&transaction),
            "INSERT INTO transcript_derivatives (
                id,
                idempotency_key,
                segment_id,
                derivative_kind,
                author_kind,
                revision_number,
                derived_text,
                language_code,
                model_id,
                supersedes_id
             ) VALUES (?1, ?2, ?3, ?4, ?5, ?6, ?7, ?8, ?9, ?10)",
            &insert,
        ))?;
        if marks_notes_stale(input.kind) {
            let segment = key_params(input.segment_id.as_str());
            lift_sql(execute(
                transaction_connection(&transaction),
                "UPDATE meeting_notes SET stale = 1, approved = 0
                 WHERE meeting_id = (SELECT meeting_id FROM transcript_segments WHERE id = ?1)",
                &segment,
            ))?;
        }
        let derivative = match find_by_id(transaction_connection(&transaction), input.id.as_str())? {
            Some(derivative) => derivative,
            None => return Err(EvidenceError::SegmentNotFound(input.segment_id.clone())),
        };
        lift_sql(commit(transaction))?;
        Ok(derivative)
    }

    /// The source text of a segment beside its current display text. A row read back under another
    /// segment id is reported as an invalid stored value.
    pub fn segment_text(&self, segment_id: &str) -> (r: Result<SegmentText, EvidenceError>)
        ensures
            r matches Ok(t) ==> t.segment_id@ == segment_id@,
            r matches Err(EvidenceError::SegmentNotFound(id)) ==> id@ == segment_id@,
    {
        let guard = lift_database(self.connection())?;
        match lift_sql(find_segment_text(guard_connection(&guard), segment_id))? {
            Some(text) => {
                if str_equals(text.segment_id.as_str(), segment_id) {
                    Ok(text)
                } else {
                    Err(EvidenceError::InvalidStoredValue(text.segment_id))
                }
            },
            None => Err(EvidenceError::SegmentNotFound(segment_id.to_string())),
        }
    }
}

} // verus!
